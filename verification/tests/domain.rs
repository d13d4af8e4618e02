use vectorlink::comparator::CentroidComparator;
use vectorlink::domain::DeriveError;
use vectorlink::domain::DerivedType;
use vectorlink::domain::Deriver;
use vectorlink::domain::Domain;
use vectorlink::domain::DomainError;
use vectorlink::domain::GenericDomain;
use vectorlink::domain::NewDeriver;
use vectorlink::domain::PqDerivedDomain;
use vectorlink::domain::PqDeriver;
use vectorlink::domain::Quantizer;
use vectorlink::domain::TrainingError;
use vectorlink::store::SequentialVectorLoader;
use vectorlink::store::StoreError;
use vectorlink::protocol::VectorId;
use vectorlink::store::VectorFile;
use vectorlink::training::ClusteringInput;
use vectorlink::training::IndexParameters;
use vectorlink::training::PqDerivedDomainInitializer;
use vectorlink::training::PqTrainer;
use vectorlink::vecmath::DistanceKernel;
use vectorlink::vecmath::Embedding;

/// Codes a vector by its first and third component; a component of 99 gives
/// a code that no vocabulary of fewer than 100 centroids has.
struct ByComponent;

impl Quantizer<4, 2> for ByComponent {
    fn quantize(&self, vec: &[u32; 4]) -> [u16; 2] {
        [vec[0] as u16, vec[2] as u16]
    }
}

type Pq = PqDerivedDomain<4, 2, 2, ByComponent>;

struct Recipe {
    vocabulary: usize,
    fail: Option<TrainingError>,
}

impl NewDeriver for Recipe {
    type T = [u32; 4];
    type Deriver = Pq;

    fn new(&self, directory: &str, vectors: &VectorFile<[u32; 4]>) -> Result<Pq, TrainingError> {
        assert!(directory.starts_with("my%20domain.derived/"));
        assert!(vectors.num_vecs() < 1_000);
        match self.fail {
            Some(e) => Err(e),
            None => Ok(PqDerivedDomain::create(ByComponent, self.vocabulary)),
        }
    }
}

fn vector(a: u32, b: u32) -> [u32; 4] {
    [a, 1_000, b, 2_000]
}

fn file_of(pairs: &[(u32, u32)]) -> VectorFile<[u32; 4]> {
    VectorFile::from_records(pairs.iter().map(|(a, b)| vector(*a, *b)).collect())
}

fn pq_kind() -> DerivedType {
    DerivedType { centroid_width: 2, quantized_length: 2 }
}

fn derived_records(domain: &Domain<[u32; 4], Pq>, name: &str) -> Vec<[u16; 2]> {
    domain.derived_domain(name, pq_kind()).ok().unwrap().file().all_vectors()
}

#[test]
fn a_domain_reports_what_its_store_holds() {
    let domain: Domain<[u32; 4], Pq> = Domain::open("my domain", file_of(&[(1, 2), (3, 4)]));
    assert_eq!(domain.name(), "my domain");
    assert_eq!(domain.num_vecs(), 2);
    assert_eq!(GenericDomain::name(&domain), "my domain");
    assert_eq!(GenericDomain::num_vecs(&domain), 2);
    assert_eq!(domain.file().num_vecs(), 2);
    assert_eq!(domain.immutable_file().num_vecs(), 2);
    assert_eq!(domain.immutable_file().vec(1), Ok(vector(3, 4)));
    assert_eq!(domain.all_vecs(), vec![vector(1, 2), vector(3, 4)]);
    let empty: Domain<[u32; 4], Pq> = Domain::open("", VectorFile::create());
    assert_eq!(empty.num_vecs(), 0);
    assert_eq!(empty.all_vecs(), Vec::<[u32; 4]>::new());
}

#[test]
fn a_record_is_found_by_its_identifier() {
    let domain: Domain<[u32; 4], Pq> = Domain::open("d", file_of(&[(1, 2), (3, 4), (5, 6)]));
    assert_eq!(domain.vec(0), Ok(vector(1, 2)));
    assert_eq!(domain.vec(2), Ok(vector(5, 6)));
    assert_eq!(domain.vec(3), Err(StoreError::OutOfRange { index: 3, count: 3 }));
    assert_eq!(
        domain.vec(usize::MAX),
        Err(StoreError::OutOfRange { index: usize::MAX, count: 3 })
    );
}

#[test]
fn a_range_of_records_lies_within_the_store() {
    let domain: Domain<[u32; 4], Pq> = Domain::open("d", file_of(&[(1, 2), (3, 4), (5, 6)]));
    assert_eq!(domain.vec_range(1..3), Ok(vec![vector(3, 4), vector(5, 6)]));
    assert_eq!(domain.vec_range(0..0), Ok(Vec::new()));
    assert_eq!(domain.vec_range(3..3), Ok(Vec::new()));
    assert_eq!(domain.vec_range(2..4), Err(StoreError::BadRange { start: 2, end: 4, count: 3 }));
    assert_eq!(domain.vec_range(2..1), Err(StoreError::BadRange { start: 2, end: 1, count: 3 }));
}

#[test]
fn records_are_streamed_in_chunks_of_the_size_asked_for() {
    let domain: Domain<[u32; 4], Pq> =
        Domain::open("d", file_of(&[(1, 1), (2, 2), (3, 3), (4, 4), (5, 5)]));
    let mut loader = domain.vector_chunks(2).ok().unwrap();
    assert_eq!(loader.remaining_len(), 5);
    assert_eq!(loader.next(), Some(vec![vector(1, 1), vector(2, 2)]));
    assert_eq!(loader.next(), Some(vec![vector(3, 3), vector(4, 4)]));
    assert_eq!(loader.remaining_len(), 1);
    assert_eq!(loader.next(), Some(vec![vector(5, 5)]));
    assert_eq!(loader.next(), None);
    assert_eq!(loader.next(), None);
    assert_eq!(domain.vector_chunks(0).err(), Some(StoreError::EmptyChunk));
    let mut whole = domain.vector_chunks(100).ok().unwrap();
    assert_eq!(whole.next().map(|c| c.len()), Some(5));
    assert_eq!(whole.next(), None);
    let empty: Domain<[u32; 4], Pq> = Domain::open("d", VectorFile::create());
    assert_eq!(empty.vector_chunks(3).ok().unwrap().next(), None);
}

#[test]
fn records_are_appended_without_derivers() {
    let mut domain: Domain<[u32; 4], Pq> = Domain::open("d", file_of(&[(1, 2)]));
    assert_eq!(domain.concatenate_file(&file_of(&[(3, 4), (5, 6)])), Ok((1, 3)));
    assert_eq!(domain.concatenate_file(&VectorFile::create()), Ok((3, 3)));
    assert_eq!(domain.concatenate_file(&file_of(&[(7, 8)])), Ok((3, 4)));
    assert_eq!(domain.all_vecs(), vec![vector(1, 2), vector(3, 4), vector(5, 6), vector(7, 8)]);
}

#[test]
fn a_deriver_is_registered_once_under_a_name() {
    let mut domain: Domain<[u32; 4], Pq> = Domain::open("my domain", file_of(&[(1, 2)]));
    assert_eq!(
        domain.create_derived("pq".to_string(), Recipe { vocabulary: 10, fail: None }),
        Ok(())
    );
    assert_eq!(domain.concatenate_file(&file_of(&[(3, 4)])), Ok((1, 2)));
    assert_eq!(
        domain.create_derived("pq".to_string(), Recipe { vocabulary: 5, fail: None }),
        Err(DomainError::DuplicateDerived)
    );
    assert_eq!(
        domain.create_derived(
            "pq".to_string(),
            Recipe { vocabulary: 5, fail: Some(TrainingError::Index) }
        ),
        Err(DomainError::DuplicateDerived)
    );
    assert_eq!(derived_records(&domain, "pq"), vec![[3, 4]]);
    assert_eq!(domain.concatenate_file(&file_of(&[(7, 8)])), Ok((2, 3)));
    assert_eq!(derived_records(&domain, "pq"), vec![[3, 4], [7, 8]]);
    assert_eq!(domain.num_vecs(), 3);
}

#[test]
fn failed_training_registers_nothing() {
    let mut domain: Domain<[u32; 4], Pq> = Domain::open("my domain", file_of(&[(1, 2)]));
    for e in [TrainingError::Clustering, TrainingError::Index, TrainingError::Storage] {
        assert_eq!(
            domain.create_derived("pq".to_string(), Recipe { vocabulary: 10, fail: Some(e) }),
            Err(DomainError::Training(e))
        );
        assert_eq!(
            domain.derived_domain("pq", pq_kind()).err(),
            Some(DomainError::UnknownDerived)
        );
    }
    assert_eq!(
        domain.create_derived("pq".to_string(), Recipe { vocabulary: 10, fail: None }),
        Ok(())
    );
    assert!(domain.derived_domain("pq", pq_kind()).is_ok());
    assert_eq!(domain.num_vecs(), 1);
}

#[test]
fn an_unknown_name_and_another_kind_are_told_apart() {
    let mut domain: Domain<[u32; 4], Pq> = Domain::open("my domain", VectorFile::create());
    assert_eq!(domain.derived_domain("pq", pq_kind()).err(), Some(DomainError::UnknownDerived));
    domain.create_derived("pq".to_string(), Recipe { vocabulary: 10, fail: None }).unwrap();
    assert!(domain.derived_domain("pq", pq_kind()).is_ok());
    assert_eq!(domain.derived_domain("PQ", pq_kind()).err(), Some(DomainError::UnknownDerived));
    assert_eq!(domain.derived_domain("", pq_kind()).err(), Some(DomainError::UnknownDerived));
    let other = DerivedType { centroid_width: 32, quantized_length: 48 };
    assert_eq!(domain.derived_domain("pq", other).err(), Some(DomainError::DerivedTypeMismatch));
    let swapped = DerivedType { centroid_width: 2, quantized_length: 3 };
    assert_eq!(domain.derived_domain("pq", swapped).err(), Some(DomainError::DerivedTypeMismatch));
}

#[test]
fn every_deriver_keeps_step_with_the_primary_store() {
    let mut domain: Domain<[u32; 4], Pq> = Domain::open("my domain", file_of(&[(9, 9)]));
    domain.create_derived("first".to_string(), Recipe { vocabulary: 100, fail: None }).unwrap();
    assert_eq!(domain.concatenate_file(&file_of(&[(1, 2), (3, 4)])), Ok((1, 3)));
    domain.create_derived("second".to_string(), Recipe { vocabulary: 100, fail: None }).unwrap();
    assert_eq!(derived_records(&domain, "second"), Vec::<[u16; 2]>::new());
    let many: Vec<(u32, u32)> = (0..2_500).map(|i| (i % 100, (i + 1) % 100)).collect();
    assert_eq!(domain.concatenate_file(&file_of(&many)), Ok((3, 2_503)));
    assert_eq!(domain.num_vecs(), 2_503);
    let first = derived_records(&domain, "first");
    let second = derived_records(&domain, "second");
    assert_eq!(first.len() + 1, domain.num_vecs());
    assert_eq!(second.len() + 3, domain.num_vecs());
    assert_eq!(&first[..2], &[[1, 2], [3, 4]]);
    assert_eq!(&first[2..], &second[..]);
    for (i, record) in second.iter().enumerate() {
        assert_eq!(*record, [(i % 100) as u16, ((i + 1) % 100) as u16]);
        assert_eq!(domain.vec(i + 3), Ok(vector((i % 100) as u32, ((i + 1) % 100) as u32)));
    }
}

#[test]
fn a_refused_append_leaves_nothing_behind() {
    let mut domain: Domain<[u32; 4], Pq> = Domain::open("my domain", VectorFile::create());
    domain.create_derived("roomy".to_string(), Recipe { vocabulary: 100, fail: None }).unwrap();
    domain.create_derived("tight".to_string(), Recipe { vocabulary: 10, fail: None }).unwrap();
    domain.create_derived("last".to_string(), Recipe { vocabulary: 100, fail: None }).unwrap();
    assert_eq!(domain.concatenate_file(&file_of(&[(1, 2), (3, 4)])), Ok((0, 2)));
    let mut bad: Vec<(u32, u32)> = (0..1_500).map(|i| (i % 10, i % 10)).collect();
    bad.push((5, 42));
    assert_eq!(
        domain.concatenate_file(&file_of(&bad)),
        Err(DomainError::Derive(DeriveError::Transform))
    );
    assert_eq!(domain.num_vecs(), 2);
    assert_eq!(domain.all_vecs(), vec![vector(1, 2), vector(3, 4)]);
    for name in ["roomy", "tight", "last"] {
        assert_eq!(derived_records(&domain, name), vec![[1, 2], [3, 4]]);
    }
    assert_eq!(domain.concatenate_file(&file_of(&[(5, 6)])), Ok((2, 3)));
    for name in ["roomy", "tight", "last"] {
        assert_eq!(derived_records(&domain, name), vec![[1, 2], [3, 4], [5, 6]]);
    }
}

#[test]
fn a_derived_domain_drops_what_a_failed_call_appended() {
    let mut derived: Pq = PqDerivedDomain::create(ByComponent, 10);
    assert_eq!(derived.concatenate_derived(file_of(&[(1, 2), (3, 4)]).chunks_of(1)), Ok(()));
    let bad = file_of(&[(5, 6), (7, 8), (9, 10), (1, 1)]);
    assert_eq!(derived.concatenate_derived(bad.chunks_of(2)), Err(DeriveError::Transform));
    assert_eq!(derived.file().all_vectors(), vec![[1, 2], [3, 4]]);
    assert_eq!(derived.concatenate_derived(VectorFile::create().chunks_of(7)), Ok(()));
    assert_eq!(derived.file().num_vecs(), 2);
    derived.truncate_derived(5);
    assert_eq!(derived.file().num_vecs(), 2);
    derived.truncate_derived(1);
    assert_eq!(derived.file().all_vectors(), vec![[1, 2]]);
    assert_eq!(derived.derived_type(), pq_kind());
    assert_eq!(derived.chunk_size(), 1_000);
}

#[test]
fn a_derived_domain_is_reopened_over_known_codes_only() {
    let file = VectorFile::from_records(vec![[1u16, 2], [3, 9]]);
    assert!(Pq::new(file, ByComponent, 10).is_some());
    let file = VectorFile::from_records(vec![[1u16, 2], [3, 10]]);
    assert!(Pq::new(file, ByComponent, 10).is_none());
    assert!(Pq::new(VectorFile::create(), ByComponent, 0).is_some());
}

struct Stubborn {
    held: usize,
    chunk: usize,
    refuse: Option<DeriveError>,
    chunks_seen: Vec<usize>,
}

impl Deriver for Stubborn {
    type From = u8;

    fn concatenate_derived(
        &mut self,
        loader: SequentialVectorLoader<'_, u8>,
    ) -> Result<(), DeriveError> {
        let mut loader = loader;
        while let Some(chunk) = loader.next() {
            self.chunks_seen.push(chunk.len());
            self.held += chunk.len();
        }
        match self.refuse {
            Some(e) => Err(e),
            None => Ok(()),
        }
    }

    fn truncate_derived(&mut self, len: usize) {
        self.held = len;
    }

    fn derived_type(&self) -> DerivedType {
        DerivedType { centroid_width: self.chunk, quantized_length: 1 }
    }

    fn chunk_size(&self) -> usize {
        self.chunk
    }
}

struct Ready {
    chunk: usize,
    refuse: Option<DeriveError>,
}

impl NewDeriver for Ready {
    type T = u8;
    type Deriver = Stubborn;

    fn new(&self, directory: &str, _vectors: &VectorFile<u8>) -> Result<Stubborn, TrainingError> {
        assert!(directory.starts_with("a%2Fb.derived/"));
        Ok(Stubborn { held: 0, chunk: self.chunk, refuse: self.refuse, chunks_seen: Vec::new() })
    }
}

fn kind_of(chunk: usize) -> DerivedType {
    DerivedType { centroid_width: chunk, quantized_length: 1 }
}

#[test]
fn derivers_are_fed_in_chunks_of_their_own_size() {
    let mut domain: Domain<u8, Stubborn> = Domain::open("a/b", VectorFile::create());
    domain.create_derived("threes".to_string(), Ready { chunk: 3, refuse: None }).unwrap();
    domain.create_derived("fives".to_string(), Ready { chunk: 5, refuse: None }).unwrap();
    let source = VectorFile::from_records(vec![0u8; 7]);
    assert_eq!(domain.concatenate_file(&source), Ok((0, 7)));
    let threes = domain.derived_domain("threes", kind_of(3)).ok().unwrap();
    assert_eq!(threes.chunks_seen, vec![3, 3, 1]);
    assert_eq!(threes.held, 7);
    let fives = domain.derived_domain("fives", kind_of(5)).ok().unwrap();
    assert_eq!(fives.chunks_seen, vec![5, 2]);
    assert_eq!(fives.held, 7);
}

#[test]
fn a_refusing_deriver_undoes_the_derivers_before_it() {
    let mut domain: Domain<u8, Stubborn> = Domain::open("a/b", VectorFile::create());
    domain.create_derived("willing".to_string(), Ready { chunk: 4, refuse: None }).unwrap();
    assert_eq!(domain.concatenate_file(&VectorFile::from_records(vec![1u8, 2])), Ok((0, 2)));
    domain
        .create_derived(
            "unwilling".to_string(),
            Ready { chunk: 4, refuse: Some(DeriveError::Storage) },
        )
        .unwrap();
    domain.create_derived("unasked".to_string(), Ready { chunk: 4, refuse: None }).unwrap();
    let source = VectorFile::from_records(vec![3u8, 4, 5]);
    assert_eq!(domain.concatenate_file(&source), Err(DomainError::Derive(DeriveError::Storage)));
    assert_eq!(domain.num_vecs(), 2);
    assert_eq!(domain.all_vecs(), vec![1, 2]);
    assert_eq!(domain.derived_domain("willing", kind_of(4)).ok().unwrap().held, 2);
    assert_eq!(domain.derived_domain("unwilling", kind_of(4)).ok().unwrap().held, 0);
    let unasked = domain.derived_domain("unasked", kind_of(4)).ok().unwrap();
    assert_eq!(unasked.held, 0);
    assert_eq!(unasked.chunks_seen, Vec::<usize>::new());
}

#[test]
fn a_deriver_that_asks_for_empty_chunks_is_refused() {
    let mut domain: Domain<u8, Stubborn> = Domain::open("a/b", VectorFile::create());
    domain.create_derived("fine".to_string(), Ready { chunk: 2, refuse: None }).unwrap();
    domain.create_derived("zero".to_string(), Ready { chunk: 0, refuse: None }).unwrap();
    let source = VectorFile::from_records(vec![3u8, 4, 5]);
    assert_eq!(
        domain.concatenate_file(&source),
        Err(DomainError::Derive(DeriveError::EmptyChunk))
    );
    assert_eq!(domain.num_vecs(), 0);
    assert_eq!(domain.derived_domain("fine", kind_of(2)).ok().unwrap().held, 0);
}

struct Where {
    expected: &'static str,
}

impl NewDeriver for Where {
    type T = u8;
    type Deriver = Stubborn;

    fn new(&self, directory: &str, _vectors: &VectorFile<u8>) -> Result<Stubborn, TrainingError> {
        assert_eq!(directory, self.expected);
        Ok(Stubborn { held: 0, chunk: 1, refuse: None, chunks_seen: Vec::new() })
    }
}

#[test]
fn the_trainer_is_told_where_its_artifacts_belong() {
    let mut domain: Domain<u8, Stubborn> = Domain::open("a/b", VectorFile::create());
    assert_eq!(
        domain.create_derived("pq".to_string(), Where { expected: "a%2Fb.derived/pq" }),
        Ok(())
    );
    assert_eq!(
        domain.create_derived("/srv/pq".to_string(), Where { expected: "/srv/pq" }),
        Ok(())
    );
    let mut unnamed: Domain<u8, Stubborn> = Domain::open("", VectorFile::create());
    assert_eq!(
        unnamed.create_derived("pq".to_string(), Where { expected: ".vecs.derived/pq" }),
        Ok(())
    );
}

struct FirstOfEach<const L: usize>;

impl<const L: usize> Quantizer<1536, L> for FirstOfEach<L> {
    fn quantize(&self, vec: &[u32; 1536]) -> [u16; L] {
        let mut codes = [0u16; L];
        let width = 1536 / L;
        for (k, code) in codes.iter_mut().enumerate() {
            *code = vec[k * width] as u16;
        }
        codes
    }
}

#[derive(Clone, Copy)]
struct Flat;

impl DistanceKernel for Flat {
    fn euclidean_partial_distance<const N: usize>(&self, a: &[u32; N], b: &[u32; N]) -> u32 {
        a.iter().zip(b.iter()).filter(|(x, y)| x != y).count() as u32
    }

    fn euclidean_distance<const N: usize>(&self, a: &[u32; N], b: &[u32; N]) -> u32 {
        self.euclidean_partial_distance(a, b)
    }

    fn normalized_cosine_distance<const N: usize>(&self, _a: &[u32; N], _b: &[u32; N]) -> u32 {
        0
    }

    fn sum_and_root<const N: usize>(&self, parts: &[u32; N]) -> u32 {
        parts.iter().sum()
    }
}

struct AsSampled;

impl<const C: usize, const L: usize> PqTrainer<1536, C, L, Flat> for AsSampled {
    type Quantizer = FirstOfEach<L>;

    fn cluster(&self, input: &ClusteringInput) -> Result<Vec<u32>, TrainingError> {
        Ok(input.data[..input.clusters * input.columns].to_vec())
    }

    fn build_quantizer(
        &self,
        directory: &str,
        vocabulary: CentroidComparator<C, Flat>,
        ids: Vec<VectorId>,
        _parameters: IndexParameters,
    ) -> Result<FirstOfEach<L>, TrainingError> {
        assert!(directory.starts_with("mixed.derived/"));
        assert!(vocabulary.len() == 1536 / C || vocabulary.len() == 0);
        assert_eq!(ids.len(), vocabulary.len());
        Ok(FirstOfEach)
    }
}

type Images = PqDeriver<FirstOfEach<96>, FirstOfEach<48>>;

fn filled(value: u32) -> Embedding {
    [value; 1536]
}

fn recipe<const C: usize, const L: usize>() -> PqDerivedDomainInitializer<1536, C, L, Flat, AsSampled>
{
    PqDerivedDomainInitializer { kernel: Flat, trainer: AsSampled }
}

#[test]
fn narrow_and_wide_images_are_registered_side_by_side() {
    let mut domain: Domain<Embedding, Images> =
        Domain::open("mixed", VectorFile::from_records(vec![filled(0)]));
    assert_eq!(domain.create_narrow_image("sixteen".to_string(), recipe::<16, 96>()), Ok(()));
    assert_eq!(domain.create_wide_image("thirty-two".to_string(), recipe::<32, 48>()), Ok(()));
    assert_eq!(
        domain.create_wide_image("sixteen".to_string(), recipe::<32, 48>()),
        Err(DomainError::DuplicateDerived)
    );
    let narrow_kind = DerivedType { centroid_width: 16, quantized_length: 96 };
    let wide_kind = DerivedType { centroid_width: 32, quantized_length: 48 };
    assert_eq!(
        domain.derived_domain("sixteen", wide_kind).err(),
        Some(DomainError::DerivedTypeMismatch)
    );
    assert_eq!(
        domain.derived_domain("thirty-two", narrow_kind).err(),
        Some(DomainError::DerivedTypeMismatch)
    );
    let source = VectorFile::from_records(vec![filled(1), filled(3)]);
    assert_eq!(domain.concatenate_images(&source), Ok((1, 3)));
    let sixteen = domain.derived_domain("sixteen", narrow_kind).ok().unwrap();
    assert!(sixteen.wide().is_none());
    assert_eq!(sixteen.narrow().unwrap().file().all_vectors(), vec![[1u16; 96], [3u16; 96]]);
    let thirty_two = domain.derived_domain("thirty-two", wide_kind).ok().unwrap();
    assert!(thirty_two.narrow().is_none());
    assert_eq!(thirty_two.wide().unwrap().file().all_vectors(), vec![[1u16; 48], [3u16; 48]]);
    let refused = VectorFile::from_records(vec![filled(2), filled(50)]);
    assert_eq!(
        domain.concatenate_images(&refused),
        Err(DomainError::Derive(DeriveError::Transform))
    );
    assert_eq!(domain.num_vecs(), 3);
    let sixteen = domain.derived_domain("sixteen", narrow_kind).ok().unwrap();
    assert_eq!(sixteen.narrow().unwrap().file().num_vecs(), 2);
    let thirty_two = domain.derived_domain("thirty-two", wide_kind).ok().unwrap();
    assert_eq!(thirty_two.wide().unwrap().file().num_vecs(), 2);
    assert_eq!(domain.concatenate_images(&VectorFile::from_records(vec![filled(47)])), Ok((3, 4)));
    let thirty_two = domain.derived_domain("thirty-two", wide_kind).ok().unwrap();
    assert_eq!(thirty_two.wide().unwrap().file().num_vecs(), 3);
}

#[test]
fn an_image_trained_on_nothing_knows_no_centroid() {
    let mut domain: Domain<Embedding, Images> = Domain::open("mixed", VectorFile::create());
    assert_eq!(domain.create_narrow_image("sixteen".to_string(), recipe::<16, 96>()), Ok(()));
    let source = VectorFile::from_records(vec![filled(0)]);
    assert_eq!(
        domain.concatenate_images(&source),
        Err(DomainError::Derive(DeriveError::Transform))
    );
    assert_eq!(domain.concatenate_images(&VectorFile::create()), Ok((0, 0)));
}
