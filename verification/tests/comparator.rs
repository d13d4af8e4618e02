use vectorlink::codec::FormatError;
use vectorlink::comparator::Centroid16Comparator;
use vectorlink::comparator::ChunkedVecIterator;
use vectorlink::comparator::ComparatorMeta;
use vectorlink::comparator::OpenAIComparator;
use vectorlink::comparator::Quantized16Comparator;
use vectorlink::comparator::Quantized32Comparator;
use vectorlink::comparator::QuantizedComparator;
use vectorlink::comparator::VECTOR_CHUNK_SIZE;
use vectorlink::domain::DeriveError;
use vectorlink::domain::DerivedType;
use vectorlink::domain::Deriver;
use vectorlink::domain::Domain;
use vectorlink::protocol::SerializationError;
use vectorlink::store::SequentialVectorLoader;
use vectorlink::store::VectorFile;
use vectorlink::vecmath::Embedding;
use vectorlink::comparator::Centroid32Comparator;
use vectorlink::comparator::CentroidComparator;
use vectorlink::comparator::MemoizedPartialDistances;
use vectorlink::protocol::AbstractVector;
use vectorlink::protocol::Comparator;
use vectorlink::protocol::VectorId;
use vectorlink::vecmath::DistanceKernel;

#[derive(Clone, Copy)]
struct FloatKernel;

fn canonical(x: f32) -> u32 {
    if x.is_nan() {
        f32::NAN.to_bits()
    } else {
        x.to_bits()
    }
}

fn squared_distance(a: &[u32], b: &[u32]) -> f32 {
    let mut sum = 0.0_f32;
    for (x, y) in a.iter().zip(b.iter()) {
        let d = f32::from_bits(*x) - f32::from_bits(*y);
        sum += d * d;
    }
    sum
}

impl DistanceKernel for FloatKernel {
    fn euclidean_partial_distance<const N: usize>(&self, a: &[u32; N], b: &[u32; N]) -> u32 {
        canonical(squared_distance(a, b))
    }

    fn euclidean_distance<const N: usize>(&self, a: &[u32; N], b: &[u32; N]) -> u32 {
        canonical(squared_distance(a, b).sqrt())
    }

    fn normalized_cosine_distance<const N: usize>(&self, a: &[u32; N], b: &[u32; N]) -> u32 {
        let mut dot = 0.0_f32;
        let mut na = 0.0_f32;
        let mut nb = 0.0_f32;
        for (x, y) in a.iter().zip(b.iter()) {
            let x = f32::from_bits(*x);
            let y = f32::from_bits(*y);
            dot += x * y;
            na += x * x;
            nb += y * y;
        }
        canonical(1.0 - dot / (na.sqrt() * nb.sqrt()))
    }

    fn sum_and_root<const N: usize>(&self, parts: &[u32; N]) -> u32 {
        let mut sum = 0.0_f32;
        for p in parts {
            sum += f32::from_bits(*p);
        }
        canonical(sum.sqrt())
    }
}

fn bits16(v: [f32; 16]) -> [u32; 16] {
    let mut out = [0u32; 16];
    for i in 0..16 {
        out[i] = v[i].to_bits();
    }
    out
}

fn bits32(v: [f32; 32]) -> [u32; 32] {
    let mut out = [0u32; 32];
    for i in 0..32 {
        out[i] = v[i].to_bits();
    }
    out
}

#[test]
fn centroid32test() {
    let vectors = Vec::new();
    let cc: Centroid32Comparator<FloatKernel> = CentroidComparator::new(vectors, FloatKernel);
    let mut v1 = [0.0_f32; 32];
    v1[0] = 1.0;
    v1[1] = 1.0;
    let mut v2 = [0.0_f32; 32];
    v2[30] = 1.0;
    v2[31] = 1.0;
    let b1 = bits32(v1);
    let b2 = bits32(v2);
    let res = cc.compare_vec(AbstractVector::Unstored(&b1), AbstractVector::Unstored(&b2));
    assert_eq!(f32::from_bits(res), 2.0);
}

#[test]
fn narrow_engine_reproduces_the_distance_of_two_centroids() {
    let mut c0 = [0.0_f32; 16];
    c0[0] = 1.0;
    c0[1] = 1.0;
    let mut c1 = [0.0_f32; 16];
    c1[14] = 1.0;
    c1[15] = 1.0;
    let cc: Centroid16Comparator<FloatKernel> =
        CentroidComparator::new(vec![bits16(c0), bits16(c1)], FloatKernel);
    let d = cc.compare_raw(&bits16(c0), &bits16(c1));
    assert_eq!(f32::from_bits(d), 2.0);
    let stored = cc.compare_vec(
        AbstractVector::Stored(VectorId(0)),
        AbstractVector::Stored(VectorId(1)),
    );
    assert_eq!(f32::from_bits(stored), 2.0);
    assert_eq!(f32::from_bits(cc.partial_distance(0, 1)), 4.0);
    assert_eq!(cc.lookup(VectorId(1)), &bits16(c1));
}

#[test]
fn memoized_table_is_row_major() {
    let a = bits16([0.0; 16]);
    let mut one = [0.0_f32; 16];
    one[0] = 1.0;
    let mut three = [0.0_f32; 16];
    three[0] = 3.0;
    let vectors = vec![a, bits16(one), bits16(three)];
    let table = MemoizedPartialDistances::new(&vectors, &FloatKernel);
    assert_eq!(table.size(), 3);
    let all: Vec<f32> = table.all_distances().iter().map(|b| f32::from_bits(*b)).collect();
    assert_eq!(all, vec![0.0, 1.0, 9.0, 1.0, 0.0, 4.0, 9.0, 4.0, 0.0]);
    assert_eq!(f32::from_bits(table.partial_distance(2, 1)), 4.0);
    assert_eq!(f32::from_bits(table.partial_distance(0, 2)), 9.0);
}

fn narrow(first: f32, last: f32) -> [u32; 16] {
    let mut c = [0.0_f32; 16];
    c[0] = first;
    c[15] = last;
    bits16(c)
}

#[test]
fn partial_distance_is_symmetric_and_zero_on_the_diagonal() {
    let centroids = vec![narrow(1.0, 0.0), narrow(0.0, 2.0), narrow(-3.5, 0.25), narrow(7.0, 7.0)];
    let cc: Centroid16Comparator<FloatKernel> = CentroidComparator::new(centroids, FloatKernel);
    for a in 0..4u16 {
        assert_eq!(cc.partial_distance(a, a), 0);
        for b in 0..4u16 {
            assert_eq!(cc.partial_distance(a, b), cc.partial_distance(b, a));
        }
    }
    assert_eq!(f32::from_bits(cc.partial_distance(0, 1)), 5.0);
}

#[test]
fn extension_keeps_earlier_distances_and_squares_the_table() {
    let mut cc: Centroid16Comparator<FloatKernel> =
        CentroidComparator::new(vec![narrow(1.0, 0.0), narrow(0.0, 2.0)], FloatKernel);
    let before: Vec<u32> = vec![
        cc.partial_distance(0, 0),
        cc.partial_distance(0, 1),
        cc.partial_distance(1, 0),
        cc.partial_distance(1, 1),
    ];
    let ids = cc.store(vec![narrow(4.0, 4.0), narrow(-1.0, 0.5), narrow(0.0, 0.0)]);
    assert_eq!(ids, vec![VectorId(2), VectorId(3), VectorId(4)]);
    assert_eq!(cc.len(), 5);
    let after: Vec<u32> = vec![
        cc.partial_distance(0, 0),
        cc.partial_distance(0, 1),
        cc.partial_distance(1, 0),
        cc.partial_distance(1, 1),
    ];
    assert_eq!(before, after);
    assert_eq!(f32::from_bits(cc.partial_distance(4, 2)), 32.0);
    assert_eq!(cc.lookup(VectorId(3)), &narrow(-1.0, 0.5));
}

fn wide(seed: u32) -> [u32; 32] {
    let mut c = [0.0_f32; 32];
    for i in 0..32 {
        c[i] = (seed * 31 + i as u32) as f32 * 0.125 - 3.0;
    }
    bits32(c)
}

#[test]
fn wide_engine_survives_serialization() {
    let centroids = vec![wide(0), wide(1), wide(2), wide(3), wide(4)];
    let cc: Centroid32Comparator<FloatKernel> =
        CentroidComparator::new(centroids.clone(), FloatKernel);
    let bytes = cc.serialize();
    assert_eq!(bytes.len(), 5 * 128);
    let back: Centroid32Comparator<FloatKernel> =
        CentroidComparator::deserialize(&bytes, FloatKernel).ok().unwrap();
    assert_eq!(back.len(), 5);
    for i in 0..5usize {
        assert_eq!(back.lookup(VectorId(i)), &centroids[i]);
    }
    let fresh: Centroid32Comparator<FloatKernel> = CentroidComparator::new(centroids, FloatKernel);
    for i in 0..5u16 {
        for j in 0..5u16 {
            let a = f32::from_bits(back.partial_distance(i, j));
            let b = f32::from_bits(fresh.partial_distance(i, j));
            assert!((a - b).abs() <= 1e-6);
            assert_eq!(back.partial_distance(i, j), cc.partial_distance(i, j));
        }
    }
}

#[test]
fn centroid_file_bytes_are_little_endian_bit_patterns() {
    let mut c = [0.0_f32; 16];
    c[0] = 1.0;
    c[1] = -2.0;
    let cc: Centroid16Comparator<FloatKernel> = CentroidComparator::new(vec![bits16(c)], FloatKernel);
    let bytes = cc.serialize();
    assert_eq!(bytes.len(), 64);
    assert_eq!(&bytes[0..4], &[0x00, 0x00, 0x80, 0x3f]);
    assert_eq!(&bytes[4..8], &[0x00, 0x00, 0x00, 0xc0]);
    assert!(bytes[8..].iter().all(|b| *b == 0));
}

#[test]
fn centroid_file_with_a_partial_record_is_refused() {
    let bytes = vec![0u8; 130];
    let r: Result<Centroid32Comparator<FloatKernel>, SerializationError> =
        CentroidComparator::deserialize(&bytes, FloatKernel);
    assert_eq!(
        r.err(),
        Some(SerializationError::Format(FormatError { length: 130, record_width: 128 }))
    );
    let narrow_bytes = vec![0u8; 63];
    let r: Result<Centroid16Comparator<FloatKernel>, SerializationError> =
        CentroidComparator::deserialize(&narrow_bytes, FloatKernel);
    assert_eq!(
        r.err(),
        Some(SerializationError::Format(FormatError { length: 63, record_width: 64 }))
    );
}

#[test]
fn empty_centroid_file_gives_an_empty_engine() {
    let r: Result<Centroid32Comparator<FloatKernel>, SerializationError> =
        CentroidComparator::deserialize(&Vec::new(), FloatKernel);
    assert_eq!(r.ok().unwrap().len(), 0);
}

fn small_store() -> QuantizedComparator<16, 3, FloatKernel> {
    let cc: Centroid16Comparator<FloatKernel> = CentroidComparator::new(
        vec![narrow(0.0, 0.0), narrow(3.0, 0.0), narrow(0.0, 4.0)],
        FloatKernel,
    );
    QuantizedComparator::new(cc)
}

#[test]
fn quantized_distance_is_the_root_of_the_summed_partial_distances() {
    let store = small_store();
    let d = store.compare_raw(&[0, 1, 2], &[1, 1, 0]);
    assert_eq!(f32::from_bits(d), 5.0);
    let d = store.compare_raw(&[0, 0, 0], &[1, 2, 0]);
    assert_eq!(f32::from_bits(d), 5.0);
    assert_eq!(f32::from_bits(store.partial_distance(1, 2)), 25.0);
}

#[test]
fn quantized_record_is_at_distance_zero_from_itself() {
    let mut store = small_store();
    let ids = store.store(vec![[0, 1, 2], [2, 2, 1], [1, 0, 0]]);
    assert_eq!(ids, vec![VectorId(0), VectorId(1), VectorId(2)]);
    for i in 0..3usize {
        let d = store.compare_vec(
            AbstractVector::Stored(VectorId(i)),
            AbstractVector::Stored(VectorId(i)),
        );
        assert_eq!(d, 0);
    }
    assert_eq!(store.compare_raw(&[2, 0, 1], &[2, 0, 1]), 0);
}

#[test]
fn quantized_store_hands_out_identifiers_in_insertion_order() {
    let mut store = small_store();
    assert_eq!(store.store(vec![[0, 0, 0], [1, 1, 1]]), vec![VectorId(0), VectorId(1)]);
    assert_eq!(store.store(Vec::new()), Vec::new());
    assert_eq!(store.store(vec![[2, 1, 0]]), vec![VectorId(2)]);
    assert_eq!(store.lookup(VectorId(2)), &[2, 1, 0]);
    assert_eq!(store.data.len(), 3);
    let d = store.compare_vec(
        AbstractVector::Stored(VectorId(1)),
        AbstractVector::Unstored(&[0, 0, 0]),
    );
    assert_eq!(f32::from_bits(d), 27.0_f32.sqrt());
}

#[test]
fn quantized_comparator_survives_serialization() {
    let mut store = small_store();
    store.store(vec![[0, 1, 2], [2, 2, 1]]);
    let artifacts = store.serialize();
    assert_eq!(artifacts.index.len(), 3 * 64);
    assert_eq!(artifacts.vectors, vec![0, 0, 1, 0, 2, 0, 2, 0, 2, 0, 1, 0]);
    let back: QuantizedComparator<16, 3, FloatKernel> =
        QuantizedComparator::deserialize(&artifacts.index, &artifacts.vectors, FloatKernel)
            .ok()
            .unwrap();
    assert_eq!(back.data, vec![[0, 1, 2], [2, 2, 1]]);
    assert_eq!(back.cc.len(), 3);
    assert_eq!(
        back.compare_raw(&[0, 1, 2], &[1, 1, 0]),
        store.compare_raw(&[0, 1, 2], &[1, 1, 0])
    );
}

#[test]
fn quantized_file_with_a_partial_record_is_refused() {
    let store = small_store();
    let index = store.serialize().index;
    let vectors = vec![0u8; 7];
    let r: Result<QuantizedComparator<16, 3, FloatKernel>, SerializationError> =
        QuantizedComparator::deserialize(&index, &vectors, FloatKernel);
    assert_eq!(
        r.err(),
        Some(SerializationError::Format(FormatError { length: 7, record_width: 6 }))
    );
    let wide_vectors = vec![0u8; 97];
    let r: Result<Quantized32Comparator<FloatKernel>, SerializationError> =
        QuantizedComparator::deserialize(&Vec::new(), &wide_vectors, FloatKernel);
    assert_eq!(
        r.err(),
        Some(SerializationError::Format(FormatError { length: 97, record_width: 96 }))
    );
    let narrow_vectors = vec![0u8; 191];
    let r: Result<Quantized16Comparator<FloatKernel>, SerializationError> =
        QuantizedComparator::deserialize(&Vec::new(), &narrow_vectors, FloatKernel);
    assert_eq!(
        r.err(),
        Some(SerializationError::Format(FormatError { length: 191, record_width: 192 }))
    );
}

#[test]
fn quantized_file_with_a_broken_index_is_refused() {
    let r: Result<QuantizedComparator<16, 3, FloatKernel>, SerializationError> =
        QuantizedComparator::deserialize(&vec![0u8; 65], &Vec::new(), FloatKernel);
    assert_eq!(
        r.err(),
        Some(SerializationError::Format(FormatError { length: 65, record_width: 64 }))
    );
}

#[test]
fn quantized_file_naming_an_unknown_centroid_is_refused() {
    let store = small_store();
    let index = store.serialize().index;
    let vectors = vec![0, 0, 1, 0, 2, 0, 2, 0, 3, 0, 9, 0];
    let r: Result<QuantizedComparator<16, 3, FloatKernel>, SerializationError> =
        QuantizedComparator::deserialize(&index, &vectors, FloatKernel);
    assert_eq!(r.err(), Some(SerializationError::UnknownCentroid { record: 1, position: 1 }));
}

#[test]
fn empty_store_yields_no_chunk() {
    let file: VectorFile<[u32; 4]> = VectorFile::create();
    assert_eq!(file.num_vecs(), 0);
    let mut chunks = ChunkedVecIterator::new(&file);
    assert_eq!(chunks.next(), None);
    assert_eq!(chunks.next(), None);
}

#[test]
fn chunks_hold_sixteen_thousand_three_hundred_eighty_four_vectors() {
    assert_eq!(VECTOR_CHUNK_SIZE, 16_384);
    let records: Vec<u32> = (0..40_000u32).collect();
    let file = VectorFile::from_records(records);
    let mut chunks = ChunkedVecIterator::new(&file);
    let first = chunks.next().unwrap();
    assert_eq!(first.len(), 16_384);
    assert_eq!(first[0], 0);
    assert_eq!(first[16_383], 16_383);
    let second = chunks.next().unwrap();
    assert_eq!(second.len(), 16_384);
    assert_eq!(second[0], 16_384);
    let third = chunks.next().unwrap();
    assert_eq!(third.len(), 40_000 - 2 * 16_384);
    assert_eq!(third[third.len() - 1], 39_999);
    assert_eq!(chunks.next(), None);
}

#[test]
fn a_store_of_exactly_one_chunk_yields_one_chunk() {
    let file = VectorFile::from_records(vec![7u8; 16_384]);
    let mut chunks = ChunkedVecIterator::new(&file);
    assert_eq!(chunks.next().map(|c| c.len()), Some(16_384));
    assert_eq!(chunks.next(), None);
}

struct NoDeriver;

impl Deriver for NoDeriver {
    type From = Embedding;

    fn concatenate_derived(
        &mut self,
        _loader: SequentialVectorLoader<'_, Embedding>,
    ) -> Result<(), DeriveError> {
        Ok(())
    }

    fn truncate_derived(&mut self, _len: usize) {}

    fn derived_type(&self) -> DerivedType {
        DerivedType { centroid_width: 32, quantized_length: 48 }
    }
}

fn embedding(x: f32, y: f32) -> Embedding {
    let mut e = [0u32; 1536];
    e[0] = x.to_bits();
    e[1] = y.to_bits();
    e
}

fn raw_domain(n: usize) -> Domain<Embedding, NoDeriver> {
    let records: Vec<Embedding> = (0..n).map(|i| embedding(1.0, i as f32)).collect();
    Domain::open("raw vectors", VectorFile::from_records(records))
}

#[test]
fn raw_comparator_scores_by_cosine_distance() {
    let domain = raw_domain(3);
    let comparator = OpenAIComparator::new(&domain, FloatKernel);
    let same = comparator.compare_raw(&embedding(2.0, 0.0), &embedding(5.0, 0.0));
    assert_eq!(f32::from_bits(same), 0.0);
    let orthogonal = comparator.compare_raw(&embedding(2.0, 0.0), &embedding(0.0, 3.0));
    assert_eq!(f32::from_bits(orthogonal), 1.0);
    let opposite = comparator.compare_raw(&embedding(2.0, 0.0), &embedding(-1.0, 0.0));
    assert_eq!(f32::from_bits(opposite), 2.0);
    assert_eq!(comparator.lookup(VectorId(2)), &embedding(1.0, 2.0));
    let stored = comparator.compare_vec(
        AbstractVector::Stored(VectorId(0)),
        AbstractVector::Unstored(&embedding(3.0, 0.0)),
    );
    assert_eq!(f32::from_bits(stored), 0.0);
}

#[test]
fn raw_comparator_metadata_names_the_domain_and_its_size() {
    let domain = raw_domain(5);
    let comparator = OpenAIComparator::new(&domain, FloatKernel);
    let meta = comparator.serialize();
    assert_eq!(meta.domain(), "raw vectors");
    assert_eq!(meta.size(), 5);
    assert!(OpenAIComparator::deserialize(&meta, &domain, FloatKernel).is_some());
    let other: Domain<Embedding, NoDeriver> = Domain::open("other", VectorFile::create());
    assert!(OpenAIComparator::deserialize(&meta, &other, FloatKernel).is_none());
    let written = ComparatorMeta::new("other".to_string(), 2_000_000);
    assert_eq!(written.size(), 2_000_000);
    assert!(OpenAIComparator::deserialize(&written, &other, FloatKernel).is_some());
}

#[test]
fn selection_takes_no_vector_twice() {
    let domain = raw_domain(40);
    let comparator = OpenAIComparator::new(&domain, FloatKernel);
    let sample = comparator.selection(12);
    assert_eq!(sample.len(), 12);
    let mut seen: Vec<u32> = sample.iter().map(|e| e[1]).collect();
    seen.sort();
    seen.dedup();
    assert_eq!(seen.len(), 12);
    for e in &sample {
        assert!(f32::from_bits(e[1]) < 40.0);
        assert_eq!(f32::from_bits(e[0]), 1.0);
    }
    let all = comparator.selection(40);
    assert_eq!(all, domain.all_vecs());
    let more = comparator.selection(1_000);
    assert_eq!(more.len(), 40);
}

#[test]
fn raw_comparator_streams_the_domain_in_chunks() {
    let domain = raw_domain(3);
    let comparator = OpenAIComparator::new(&domain, FloatKernel);
    let mut chunks = comparator.vector_chunks();
    assert_eq!(chunks.next().map(|c| c.len()), Some(3));
    assert_eq!(chunks.next(), None);
    let empty = raw_domain(0);
    assert_eq!(empty.num_vecs(), 0);
    let comparator = OpenAIComparator::new(&empty, FloatKernel);
    let mut chunks = comparator.vector_chunks();
    assert_eq!(chunks.next(), None);
}

#[test]
fn records_are_stored_only_if_every_code_is_known() {
    let mut store = small_store();
    assert!(store.knows(&[0, 1, 2]));
    assert!(!store.knows(&[0, 3, 2]));
    assert!(!store.knows(&[65_535, 0, 0]));
    assert_eq!(store.store_checked(vec![[0, 1, 2], [2, 2, 2]]), Ok(vec![VectorId(0), VectorId(1)]));
    assert_eq!(
        store.store_checked(vec![[1, 1, 1], [0, 1, 3], [9, 0, 0]]),
        Err(SerializationError::UnknownCentroid { record: 1, position: 2 })
    );
    assert_eq!(store.data, vec![[0, 1, 2], [2, 2, 2]]);
    assert_eq!(store.store_checked(Vec::new()), Ok(Vec::new()));
    assert_eq!(store.store_checked(vec![[1, 0, 1]]), Ok(vec![VectorId(2)]));
}

#[derive(Clone, Copy, Default)]
struct DefaultKernel;

impl DistanceKernel for DefaultKernel {
    fn euclidean_partial_distance<const N: usize>(&self, a: &[u32; N], b: &[u32; N]) -> u32 {
        FloatKernel.euclidean_partial_distance(a, b)
    }

    fn euclidean_distance<const N: usize>(&self, a: &[u32; N], b: &[u32; N]) -> u32 {
        FloatKernel.euclidean_distance(a, b)
    }

    fn normalized_cosine_distance<const N: usize>(&self, a: &[u32; N], b: &[u32; N]) -> u32 {
        FloatKernel.normalized_cosine_distance(a, b)
    }

    fn sum_and_root<const N: usize>(&self, parts: &[u32; N]) -> u32 {
        FloatKernel.sum_and_root(parts)
    }
}

#[test]
fn a_default_engine_is_empty() {
    let mut cc: Centroid32Comparator<DefaultKernel> = Default::default();
    assert_eq!(cc.len(), 0);
    assert_eq!(cc.serialize(), Vec::<u8>::new());
    assert_eq!(cc.store(vec![wide(1)]), vec![VectorId(0)]);
    assert_eq!(cc.partial_distance(0, 0), 0);
    let table = MemoizedPartialDistances::default();
    assert_eq!(table.size(), 0);
    assert_eq!(table.all_distances().len(), 0);
}

#[test]
fn a_cloned_comparator_holds_the_same_records() {
    let mut store = small_store();
    store.store(vec![[0, 1, 2]]);
    let mut copy = store.clone();
    assert_eq!(copy.data, store.data);
    assert_eq!(copy.cc.len(), store.cc.len());
    assert_eq!(copy.partial_distance(1, 2), store.partial_distance(1, 2));
    copy.store(vec![[2, 2, 2]]);
    assert_eq!(store.data.len(), 1);
    assert_eq!(copy.data.len(), 2);
    let engine = store.cc.clone();
    assert_eq!(engine.lookup(VectorId(1)), store.cc.lookup(VectorId(1)));
}
