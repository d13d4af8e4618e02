use vectorlink::store::StoreError;
use vectorlink::store::VectorFile;

#[test]
fn a_new_store_is_empty() {
    let file: VectorFile<u64> = VectorFile::create();
    assert_eq!(file.num_vecs(), 0);
    assert_eq!(file.all_vectors(), Vec::<u64>::new());
    assert_eq!(file.vec(0), Err(StoreError::OutOfRange { index: 0, count: 0 }));
    assert_eq!(file.vector_range(0..0), Ok(Vec::new()));
    assert_eq!(file.vector_range(0..1), Err(StoreError::BadRange { start: 0, end: 1, count: 0 }));
}

#[test]
fn records_keep_the_order_in_which_they_were_appended() {
    let mut file = VectorFile::from_records(vec![5u64, 6]);
    assert_eq!(file.append_vector_range(&vec![7, 8, 9]), 5);
    assert_eq!(file.append_vector_range(&Vec::new()), 5);
    let other = VectorFile::from_records(vec![1u64, 2]);
    assert_eq!(file.append_vector_file(&other), 7);
    assert_eq!(file.all_vectors(), vec![5, 6, 7, 8, 9, 1, 2]);
    assert_eq!(file.vec(4), Ok(9));
    assert_eq!(*file.get(5), 1);
    assert_eq!(file.vector_range(2..5), Ok(vec![7, 8, 9]));
    assert_eq!(file.as_immutable().num_vecs(), 7);
    assert_eq!(file.as_immutable().vec(6), Ok(2));
    assert_eq!(
        file.as_immutable().vec(7),
        Err(StoreError::OutOfRange { index: 7, count: 7 })
    );
}

#[test]
fn truncating_keeps_the_first_records() {
    let mut file = VectorFile::from_records(vec![1u8, 2, 3, 4]);
    file.truncate(4);
    assert_eq!(file.num_vecs(), 4);
    file.truncate(1);
    assert_eq!(file.all_vectors(), vec![1]);
    file.truncate(0);
    assert_eq!(file.num_vecs(), 0);
}

#[test]
fn a_pass_hands_every_record_out_once() {
    let file = VectorFile::from_records((0..10u32).collect());
    let mut loader = file.chunks_of(4);
    let mut seen = Vec::new();
    let mut sizes = Vec::new();
    while let Some(chunk) = loader.next() {
        sizes.push(chunk.len());
        seen.extend(chunk);
    }
    assert_eq!(sizes, vec![4, 4, 2]);
    assert_eq!(seen, (0..10u32).collect::<Vec<u32>>());
    assert_eq!(loader.remaining_len(), 0);
    let mut again = file.vector_chunks(10).ok().unwrap();
    assert_eq!(again.next().map(|c| c.len()), Some(10));
    assert_eq!(again.next(), None);
    assert_eq!(file.vector_chunks(0).err(), Some(StoreError::EmptyChunk));
}
