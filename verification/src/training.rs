//! Training a product quantizer: which vectors to sample, how the sample is
//! laid out for clustering, and how the clusters become a vocabulary.
use crate::codec::flat;
use crate::naming::derived_path;
use crate::codec::flatten;
use crate::codec::regroup;
use crate::comparator::square_fits;
use crate::comparator::CentroidComparator;
use crate::domain::Domain;
use crate::domain::DomainError;
use crate::domain::NewDeriver;
use crate::domain::PqDeriver;
use crate::domain::PqDerivedDomain;
use crate::domain::Quantizer;
use crate::domain::TrainingError;
use crate::protocol::VectorId;
use crate::store::VectorFile;
use crate::vecmath::DistanceKernel;
use crate::vecmath::Embedding;
use crate::vecmath::CENTROID_16_LENGTH;
use crate::vecmath::CENTROID_32_LENGTH;
use crate::vecmath::EMBEDDING_LENGTH;
use crate::vecmath::QUANTIZED_16_EMBEDDING_LENGTH;
use crate::vecmath::QUANTIZED_32_EMBEDDING_LENGTH;
use vstd::arithmetic::div_mod::lemma_fundamental_div_mod;
use std::collections::HashSet;
use vstd::prelude::*;
use vstd::std_specs::hash::group_hash_axioms;

verus! {

/// The most vectors that training looks at.
pub const SAMPLE_SIZE: usize = 1_000;

/// The most clusters, and so centroids, that training asks for.
pub const MAX_CLUSTERS: usize = 1_000;

/// The seed that makes clustering repeatable.
pub const CLUSTERING_SEED: u64 = 42;

/// The number of neighbours that a node of the nearest-centroid index keeps
/// on the layers above the lowest.
pub const CENTROID_M: usize = 24;

/// The number of neighbours that a node keeps on the lowest layer.
pub const CENTROID_M0: usize = 48;

/// The order of the nearest-centroid index.
pub const CENTROID_ORDER: usize = 12;

/// The shape of the nearest-centroid index that serves as quantizer.
#[derive(Debug, Clone, Copy, PartialEq, Eq, Structural)]
pub struct IndexParameters {
    /// Neighbours kept per node above the lowest layer.
    pub m: usize,
    /// Neighbours kept per node on the lowest layer.
    pub m0: usize,
    /// The order of the index.
    pub order: usize,
}

/// The shape that training asks for.
pub open spec fn index_parameters() -> IndexParameters {
    IndexParameters { m: CENTROID_M, m0: CENTROID_M0, order: CENTROID_ORDER }
}

/// Whether no value occurs twice in a list.
pub open spec fn distinct(s: Seq<usize>) -> bool {
    forall|i: int, j: int| 0 <= i < j < s.len() ==> s[i] != s[j]
}

/// Draws a position below `bound` with `rand::Rng::sample` on a uniform
/// distribution over `0..bound`, from the thread's generator. The draw lies in
/// the range; nothing else is known of it.
#[verifier::external_body]
fn random_below(bound: usize) -> (r: usize)
    requires
        bound > 0,
    ensures
        r < bound,
{
    rand::Rng::sample(&mut rand::thread_rng(), rand::distributions::Uniform::from(0..bound))
}

/// Whether a set holds exactly the values of a list.
pub open spec fn same_members(seen: Set<usize>, chosen: Seq<usize>) -> bool {
    forall|v: usize| seen.contains(v) <==> chosen.contains(v)
}

/// Adds one more position to a sample drawn from the positions below
/// `upper`: the candidate if the sample does not hold it yet, else `upper`.
/// `seen` holds the positions of the sample and is kept so.
pub fn extend_sample(
    chosen: &mut Vec<usize>,
    seen: &mut HashSet<usize>,
    upper: usize,
    candidate: usize,
)
    requires
        candidate <= upper,
        distinct(old(chosen)@),
        same_members(old(seen)@, old(chosen)@),
        forall|i: int| 0 <= i < old(chosen)@.len() ==> (#[trigger] old(chosen)@[i]) < upper,
    ensures
        distinct(final(chosen)@),
        same_members(final(seen)@, final(chosen)@),
        final(chosen)@ == old(chosen)@.push(
            if old(chosen)@.contains(candidate) {
                upper
            } else {
                candidate
            },
        ),
        forall|i: int| 0 <= i < final(chosen)@.len() ==> (#[trigger] final(chosen)@[i]) <= upper,
{
    broadcast use group_hash_axioms;

    let pick: usize = if seen.contains(&candidate) {
        upper
    } else {
        candidate
    };
    let ghost before = chosen@;
    seen.insert(pick);
    chosen.push(pick);
    assert(!before.contains(pick));
    assert forall|v: usize| seen@.contains(v) <==> chosen@.contains(v) by {
        if v == pick {
            assert(chosen@[before.len() as int] == pick);
        } else if before.contains(v) {
            let k = choose|k: int| 0 <= k < before.len() && before[k] == v;
            assert(chosen@[k] == v);
        }
    }
}

/// The positions of the vectors to train on, out of `population`: all of
/// them, in order, if there are no more than `sample_size`; else
/// `sample_size` positions drawn at random, none twice, in the order drawn.
pub fn sample_indices(population: usize, sample_size: usize) -> (indices: Vec<usize>)
    ensures
        distinct(indices@),
        forall|i: int| 0 <= i < indices@.len() ==> (#[trigger] indices@[i]) < population,
        sample_size >= population ==> indices@ == Seq::new(
            population as nat,
            |i: int| i as usize,
        ),
        sample_size < population ==> indices@.len() == sample_size,
{
    let mut indices: Vec<usize> = Vec::new();
    if sample_size >= population {
        let mut i: usize = 0;
        while i < population
            invariant
                i <= population,
                indices@ == Seq::new(i as nat, |k: int| k as usize),
            decreases population - i,
        {
            indices.push(i);
            assert(indices@ =~= Seq::new((i + 1) as nat, |k: int| k as usize));
            i = i + 1;
        }
        return indices;
    }
    let mut set: HashSet<usize> = HashSet::new();
    let mut upper: usize = population - sample_size;
    while upper < population
        invariant
            population - sample_size <= upper <= population,
            sample_size < population,
            indices@.len() == upper - (population - sample_size),
            distinct(indices@),
            same_members(set@, indices@),
            forall|i: int| 0 <= i < indices@.len() ==> (#[trigger] indices@[i]) < upper,
        decreases population - upper,
    {
        let candidate: usize = random_below(upper + 1);
        extend_sample(&mut indices, &mut set, upper, candidate);
        upper = upper + 1;
    }
    indices
}

/// The records at the given positions, in that order.
pub open spec fn picked<T>(records: Seq<T>, positions: Seq<usize>) -> Seq<T> {
    Seq::new(positions.len(), |i: int| records[positions[i] as int])
}

/// The vectors of a store at the given positions, in that order.
pub fn gather<T: Copy>(vectors: &VectorFile<T>, indices: &Vec<usize>) -> (sample: Vec<T>)
    requires
        forall|i: int| 0 <= i < indices@.len() ==> (#[trigger] indices@[i]) < vectors@.len(),
    ensures
        sample@ == picked(vectors@, indices@),
{
    let mut sample: Vec<T> = Vec::new();
    let mut k: usize = 0;
    while k < indices.len()
        invariant
            k <= indices.len(),
            forall|i: int| 0 <= i < indices@.len() ==> (#[trigger] indices@[i]) < vectors@.len(),
            sample@ == picked(vectors@, indices@.subrange(0, k as int)),
        decreases indices.len() - k,
    {
        sample.push(*vectors.get(indices[k]));
        assert(sample@ =~= picked(vectors@, indices@.subrange(0, k + 1)));
        k = k + 1;
    }
    assert(indices@.subrange(0, indices@.len() as int) =~= indices@);
    sample
}

/// What is handed to the clustering algorithm.
pub struct ClusteringInput {
    /// The sample as a matrix of `rows` rows and `columns` columns, row after row.
    pub data: Vec<u32>,
    /// The number of chunks in the sample.
    pub rows: usize,
    /// The width of a chunk, which is the width of a centroid.
    pub columns: usize,
    /// The number of clusters to form.
    pub clusters: usize,
    /// The seed of the clustering algorithm's generator.
    pub seed: u64,
}

/// The number of clusters to form out of `chunks` chunks: one per chunk, up to the cap.
pub fn number_of_clusters(chunks: usize) -> (clusters: usize)
    ensures
        clusters == if chunks <= MAX_CLUSTERS {
            chunks
        } else {
            MAX_CLUSTERS
        },
{
    if chunks <= MAX_CLUSTERS {
        chunks
    } else {
        MAX_CLUSTERS
    }
}

/// The number of vectors that training looks at in a domain of `population`.
pub open spec fn sampled(population: nat) -> nat {
    if population <= SAMPLE_SIZE {
        population
    } else {
        SAMPLE_SIZE as nat
    }
}

/// Whether the sample of a domain of `population` vectors of `size`
/// components cuts into whole chunks of `width`.
pub open spec fn whole_rows(population: nat, size: nat, width: nat) -> bool {
    width > 0 && (sampled(population) * size) % width == 0
}

/// The number of clusters that training asks for on a domain of `population`
/// vectors of `size` components, cut into chunks of `width`.
pub open spec fn training_clusters(population: nat, size: nat, width: nat) -> nat {
    let rows = (sampled(population) * size) / width;
    if rows <= MAX_CLUSTERS {
        rows
    } else {
        MAX_CLUSTERS as nat
    }
}

/// Lays a sample of `SIZE`-wide vectors out as a matrix of `W`-wide chunks:
/// the components of the sample in order, cut into rows of `W`. Components
/// beyond the last whole row belong to no row; chunks of width zero make no row.
pub fn clustering_input<const SIZE: usize, const W: usize>(selection: &Vec<[u32; SIZE]>) -> (input:
    ClusteringInput)
    ensures
        input.data@ == flat(selection@),
        input.columns == W,
        W > 0 ==> input.rows == (selection@.len() * SIZE) / (W as int),
        W == 0 ==> input.rows == 0,
        input.clusters == if input.rows <= MAX_CLUSTERS {
            input.rows
        } else {
            MAX_CLUSTERS
        },
        input.seed == CLUSTERING_SEED,
{
    let data = flatten(selection);
    let rows: usize = if W == 0 {
        0
    } else {
        data.len() / W
    };
    let clusters = number_of_clusters(rows);
    ClusteringInput { data, rows, columns: W, clusters, seed: CLUSTERING_SEED }
}

/// `input` is what training hands to clustering for a domain that holds
/// `vectors`: the vectors at up to `SAMPLE_SIZE` positions, none taken twice
/// and all of them in order if they are no more, laid out in whole rows of
/// `W`, with one cluster asked for per row up to the cap.
pub open spec fn is_training_input<const SIZE: usize, const W: usize>(
    input: ClusteringInput,
    vectors: Seq<[u32; SIZE]>,
) -> bool {
    &&& input.columns == W
    &&& input.rows == (sampled(vectors.len()) * SIZE) / (W as int)
    &&& input.rows * W == input.data@.len()
    &&& input.seed == CLUSTERING_SEED
    &&& input.clusters == training_clusters(vectors.len(), SIZE as nat, W as nat)
    &&& exists|positions: Seq<usize>|
        {
            &&& distinct(positions)
            &&& forall|i: int|
                0 <= i < positions.len() ==> (#[trigger] positions[i]) < vectors.len()
            &&& vectors.len() <= SAMPLE_SIZE ==> positions == Seq::new(
                vectors.len(),
                |i: int| i as usize,
            )
            &&& vectors.len() > SAMPLE_SIZE ==> positions.len() == SAMPLE_SIZE
            &&& flat(#[trigger] picked(vectors, positions)) == input.data@
        }
}

/// The steps of training up to the vocabulary: `input` went to clustering,
/// which returned `centroid_flat`; `engine` is the vocabulary of those
/// centres over a copy of `kernel`, and `ids` are its identifiers.
pub open spec fn vocabulary_trained<
    const SIZE: usize,
    const CENTROID_SIZE: usize,
    const QUANTIZED_SIZE: usize,
    K: DistanceKernel + Clone,
    P: PqTrainer<SIZE, CENTROID_SIZE, QUANTIZED_SIZE, K>,
>(
    trainer: P,
    kernel: K,
    vectors: Seq<[u32; SIZE]>,
    input: ClusteringInput,
    centroid_flat: Vec<u32>,
    engine: CentroidComparator<CENTROID_SIZE, K>,
    ids: Vec<VectorId>,
) -> bool {
    &&& is_training_input::<SIZE, CENTROID_SIZE>(input, vectors)
    &&& cloned(kernel, engine.kernel())
    &&& call_ensures(
        P::cluster,
        (&trainer, &input),
        Ok::<Vec<u32>, TrainingError>(centroid_flat),
    )
    &&& engine.wf()
    &&& flat(engine@) == centroid_flat@
    &&& engine@.len() == input.clusters
    &&& ids@.len() == engine@.len()
    &&& forall|i: int| 0 <= i < ids@.len() ==> (#[trigger] ids@[i]).0 == i
}

/// The steps by which a quantizer was trained: the vocabulary was trained,
/// and `quantizer` is what was built over it under `directory`.
pub open spec fn trained_by<
    const SIZE: usize,
    const CENTROID_SIZE: usize,
    const QUANTIZED_SIZE: usize,
    K: DistanceKernel + Clone,
    P: PqTrainer<SIZE, CENTROID_SIZE, QUANTIZED_SIZE, K>,
>(
    trainer: P,
    kernel: K,
    directory: &str,
    vectors: Seq<[u32; SIZE]>,
    quantizer: P::Quantizer,
    input: ClusteringInput,
    centroid_flat: Vec<u32>,
    engine: CentroidComparator<CENTROID_SIZE, K>,
    ids: Vec<VectorId>,
) -> bool {
    &&& vocabulary_trained::<SIZE, CENTROID_SIZE, QUANTIZED_SIZE, K, P>(
        trainer,
        kernel,
        vectors,
        input,
        centroid_flat,
        engine,
        ids,
    )
    &&& call_ensures(
        P::build_quantizer,
        (&trainer, directory, engine, ids, index_parameters()),
        Ok::<P::Quantizer, TrainingError>(quantizer),
    )
}

/// The vocabulary was trained, and building the quantizer over it under
/// `directory` failed with `e`.
pub open spec fn index_refused<
    const SIZE: usize,
    const CENTROID_SIZE: usize,
    const QUANTIZED_SIZE: usize,
    K: DistanceKernel + Clone,
    P: PqTrainer<SIZE, CENTROID_SIZE, QUANTIZED_SIZE, K>,
>(
    trainer: P,
    kernel: K,
    directory: &str,
    vectors: Seq<[u32; SIZE]>,
    e: TrainingError,
    input: ClusteringInput,
    centroid_flat: Vec<u32>,
    engine: CentroidComparator<CENTROID_SIZE, K>,
    ids: Vec<VectorId>,
) -> bool {
    &&& vocabulary_trained::<SIZE, CENTROID_SIZE, QUANTIZED_SIZE, K, P>(
        trainer,
        kernel,
        vectors,
        input,
        centroid_flat,
        engine,
        ids,
    )
    &&& call_ensures(
        P::build_quantizer,
        (&trainer, directory, engine, ids, index_parameters()),
        Err::<P::Quantizer, TrainingError>(e),
    )
}

/// Why training failed with `e`: the sample does not cut into whole chunks;
/// or clustering failed with `e`; or clustering did not return as many whole
/// centres as it was asked for, or more than a pair table can hold; or
/// building the quantizer failed with `e`. The first and the third count as
/// failed clustering.
pub open spec fn training_refused<
    const SIZE: usize,
    const CENTROID_SIZE: usize,
    const QUANTIZED_SIZE: usize,
    K: DistanceKernel + Clone,
    P: PqTrainer<SIZE, CENTROID_SIZE, QUANTIZED_SIZE, K>,
>(trainer: P, kernel: K, directory: &str, vectors: Seq<[u32; SIZE]>, e: TrainingError) -> bool {
    ||| !whole_rows(vectors.len(), SIZE as nat, CENTROID_SIZE as nat) && e
        == TrainingError::Clustering
    ||| exists|input: ClusteringInput|
        is_training_input::<SIZE, CENTROID_SIZE>(input, vectors) && #[trigger] call_ensures(
            P::cluster,
            (&trainer, &input),
            Err::<Vec<u32>, TrainingError>(e),
        )
    ||| exists|input: ClusteringInput, centroid_flat: Vec<u32>|
        is_training_input::<SIZE, CENTROID_SIZE>(input, vectors) && #[trigger] call_ensures(
            P::cluster,
            (&trainer, &input),
            Ok::<Vec<u32>, TrainingError>(centroid_flat),
        ) && !(centroid_flat@.len() == input.clusters * CENTROID_SIZE && square_fits(
            input.clusters as int,
        )) && e == TrainingError::Clustering
    ||| exists|
        input: ClusteringInput,
        centroid_flat: Vec<u32>,
        engine: CentroidComparator<CENTROID_SIZE, K>,
        ids: Vec<VectorId>,
    | #[trigger]
        index_refused::<SIZE, CENTROID_SIZE, QUANTIZED_SIZE, K, P>(
            trainer,
            kernel,
            directory,
            vectors,
            e,
            input,
            centroid_flat,
            engine,
            ids,
        )
}

/// The identifiers `0, 1, ..` of a vocabulary of `count` centroids.
pub fn vector_ids(count: usize) -> (ids: Vec<VectorId>)
    ensures
        ids@.len() == count,
        forall|i: int| 0 <= i < count ==> (#[trigger] ids@[i]).0 == i,
{
    let mut ids: Vec<VectorId> = Vec::new();
    let mut i: usize = 0;
    while i < count
        invariant
            i <= count,
            ids@.len() == i,
            forall|k: int| 0 <= k < i ==> (#[trigger] ids@[k]).0 == k,
        decreases count - i,
    {
        ids.push(VectorId(i));
        i = i + 1;
    }
    ids
}

/// Turns what clustering returned, the centroids' components row after row,
/// into the vocabulary's engine. Refused unless exactly `clusters` whole
/// centroids came back and their pair table can be indexed.
pub fn vocabulary<const W: usize, K: DistanceKernel>(
    centroid_flat: &Vec<u32>,
    clusters: usize,
    kernel: K,
) -> (r: Result<CentroidComparator<W, K>, TrainingError>)
    ensures
        W > 0 && centroid_flat@.len() == clusters * W && square_fits(clusters as int) ==> (
        r matches Ok(engine) && engine.wf() && engine.kernel() == kernel && flat(engine@)
            == centroid_flat@ && engine@.len() == clusters),
        !(W > 0 && centroid_flat@.len() == clusters * W && square_fits(clusters as int)) ==> (
        r matches Err(e) && e == TrainingError::Clustering),
{
    match regroup::<u32, W>(centroid_flat) {
        Err(_) => {
            proof {
                if W > 0 && centroid_flat@.len() == clusters * W {
                    assert((clusters * W) % (W as int) == 0) by (nonlinear_arith)
                        requires
                            W > 0,
                    ;
                }
            }
            Err(TrainingError::Clustering)
        },
        Ok(centroids) => {
            proof {
                assert(centroid_flat@.len() == centroids@.len() * W);
                if centroid_flat@.len() == clusters * W {
                    assert(centroids@.len() == clusters) by (nonlinear_arith)
                        requires
                            centroids@.len() * W == clusters * W,
                            W > 0,
                    ;
                }
                if centroids@.len() == clusters {
                    assert(centroid_flat@.len() == clusters * W);
                }
            }
            if centroids.len() != clusters {
                return Err(TrainingError::Clustering);
            }
            match clusters.checked_mul(clusters) {
                None => Err(TrainingError::Clustering),
                Some(_) => Ok(CentroidComparator::new(centroids, kernel)),
            }
        },
    }
}

/// The two steps of training that the library leaves to others: clustering a
/// sample, and building the nearest-centroid index that serves as quantizer.
pub trait PqTrainer<
    const SIZE: usize,
    const CENTROID_SIZE: usize,
    const QUANTIZED_SIZE: usize,
    K: DistanceKernel,
> {
    /// The quantizer that the index is wrapped as.
    type Quantizer: Quantizer<SIZE, QUANTIZED_SIZE>;

    /// Partitions the rows of the input into `input.clusters` clusters and
    /// returns the components of their centres, centre after centre.
    fn cluster(&self, input: &ClusteringInput) -> Result<Vec<u32>, TrainingError>;

    /// Builds a nearest-centroid index of the given shape over a vocabulary,
    /// wraps it as a quantizer and persists it under `directory`.
    fn build_quantizer(
        &self,
        directory: &str,
        vocabulary: CentroidComparator<CENTROID_SIZE, K>,
        ids: Vec<VectorId>,
        parameters: IndexParameters,
    ) -> Result<Self::Quantizer, TrainingError>;
}

/// The recipe for a product-quantized derived domain.
pub struct PqDerivedDomainInitializer<
    const SIZE: usize,
    const CENTROID_SIZE: usize,
    const QUANTIZED_SIZE: usize,
    K,
    P,
> {
    /// The numeric primitives of the vocabulary to train.
    pub kernel: K,
    /// Who clusters and who builds the index.
    pub trainer: P,
}

impl<
    const SIZE: usize,
    const CENTROID_SIZE: usize,
    const QUANTIZED_SIZE: usize,
    K: DistanceKernel + Clone,
    P: PqTrainer<SIZE, CENTROID_SIZE, QUANTIZED_SIZE, K>,
> NewDeriver for PqDerivedDomainInitializer<SIZE, CENTROID_SIZE, QUANTIZED_SIZE, K, P> {
    type T = [u32; SIZE];

    type Deriver = PqDerivedDomain<SIZE, CENTROID_SIZE, QUANTIZED_SIZE, P::Quantizer>;

    /// Samples the domain, has the sample clustered, makes the clusters'
    /// centres the vocabulary, has the quantizer built over it, and starts
    /// the derived domain with an empty store. A sample that does not cut
    /// into whole chunks of the centroid width, and centres that do not come
    /// back as asked for, count as failed clustering.
    fn new(&self, directory: &str, vectors: &VectorFile<[u32; SIZE]>) -> (r: Result<
        Self::Deriver,
        TrainingError,
    >)
        ensures
            !whole_rows(vectors@.len(), SIZE as nat, CENTROID_SIZE as nat) ==> r matches Err(
                TrainingError::Clustering,
            ),
            r matches Ok(derived) ==> {
                &&& derived.wf()
                &&& derived.records().len() == 0
                &&& derived.vocabulary_size() == training_clusters(
                    vectors@.len(),
                    SIZE as nat,
                    CENTROID_SIZE as nat,
                )
                &&& exists|
                    input: ClusteringInput,
                    centroid_flat: Vec<u32>,
                    engine: CentroidComparator<CENTROID_SIZE, K>,
                    ids: Vec<VectorId>,
                | #[trigger]
                    trained_by::<SIZE, CENTROID_SIZE, QUANTIZED_SIZE, K, P>(
                        self.trainer,
                        self.kernel,
                        directory,
                        vectors@,
                        derived.quantizer(),
                        input,
                        centroid_flat,
                        engine,
                        ids,
                    )
            },
            r matches Err(e) ==> training_refused::<SIZE, CENTROID_SIZE, QUANTIZED_SIZE, K, P>(
                self.trainer,
                self.kernel,
                directory,
                vectors@,
                e,
            ),
    {
        if CENTROID_SIZE == 0 {
            return Err(TrainingError::Clustering);
        }
        let indices = sample_indices(vectors.num_vecs(), SAMPLE_SIZE);
        let selection = gather(vectors, &indices);
        let input = clustering_input::<SIZE, CENTROID_SIZE>(&selection);
        assert(selection@.len() == sampled(vectors@.len()));
        assert(input.data@.len() == sampled(vectors@.len()) * SIZE);
        if input.data.len() % CENTROID_SIZE != 0 {
            return Err(TrainingError::Clustering);
        }
        proof {
            lemma_fundamental_div_mod(input.data@.len() as int, CENTROID_SIZE as int);
            assert(input.rows * CENTROID_SIZE == CENTROID_SIZE * input.rows) by (nonlinear_arith);
            assert(selection@ == picked(vectors@, indices@));
            assert(is_training_input::<SIZE, CENTROID_SIZE>(input, vectors@));
        }
        let centroid_flat = match self.trainer.cluster(&input) {
            Ok(centroid_flat) => centroid_flat,
            Err(e) => {
                return Err(e);
            },
        };
        let kernel = self.kernel.clone();
        let ghost kernel_held = kernel;
        let engine = match vocabulary::<CENTROID_SIZE, K>(&centroid_flat, input.clusters, kernel) {
            Ok(engine) => engine,
            Err(e) => {
                return Err(e);
            },
        };
        let count: usize = engine.len();
        let ids = vector_ids(count);
        let ghost engine_held = engine;
        let ghost ids_held = ids;
        assert(cloned(self.kernel, kernel_held));
        assert(vocabulary_trained::<SIZE, CENTROID_SIZE, QUANTIZED_SIZE, K, P>(
            self.trainer,
            self.kernel,
            vectors@,
            input,
            centroid_flat,
            engine_held,
            ids_held,
        ));
        let parameters = IndexParameters { m: CENTROID_M, m0: CENTROID_M0, order: CENTROID_ORDER };
        let quantizer = match self.trainer.build_quantizer(directory, engine, ids, parameters) {
            Ok(quantizer) => quantizer,
            Err(e) => {
                assert(index_refused::<SIZE, CENTROID_SIZE, QUANTIZED_SIZE, K, P>(
                    self.trainer,
                    self.kernel,
                    directory,
                    vectors@,
                    e,
                    input,
                    centroid_flat,
                    engine_held,
                    ids_held,
                ));
                return Err(e);
            },
        };
        assert(trained_by::<SIZE, CENTROID_SIZE, QUANTIZED_SIZE, K, P>(
            self.trainer,
            self.kernel,
            directory,
            vectors@,
            quantizer,
            input,
            centroid_flat,
            engine_held,
            ids_held,
        ));
        Ok(PqDerivedDomain::create(quantizer, count))
    }
}

/// The recipe for a narrow image, as a recipe for a [`PqDeriver`].
pub struct NarrowRecipe<K, P, W> {
    /// The recipe for the image.
    pub initializer: PqDerivedDomainInitializer<
        EMBEDDING_LENGTH,
        CENTROID_16_LENGTH,
        QUANTIZED_16_EMBEDDING_LENGTH,
        K,
        P,
    >,
    /// The quantizer of the wide images that the domain may also hold.
    pub wide: core::marker::PhantomData<W>,
}

impl<
    K: DistanceKernel + Clone,
    P: PqTrainer<EMBEDDING_LENGTH, CENTROID_16_LENGTH, QUANTIZED_16_EMBEDDING_LENGTH, K>,
    W: Quantizer<EMBEDDING_LENGTH, QUANTIZED_32_EMBEDDING_LENGTH>,
> NewDeriver for NarrowRecipe<K, P, W> {
    type T = Embedding;

    type Deriver = PqDeriver<P::Quantizer, W>;

    /// Trains the narrow image and hands it on as it came.
    fn new(&self, directory: &str, vectors: &VectorFile<Embedding>) -> (r: Result<
        PqDeriver<P::Quantizer, W>,
        TrainingError,
    >)
        ensures
            match r {
                Ok(PqDeriver::Narrow(image)) => image.wf() && image.records().len() == 0,
                Ok(_) => false,
                Err(e) => training_refused::<
                    EMBEDDING_LENGTH,
                    CENTROID_16_LENGTH,
                    QUANTIZED_16_EMBEDDING_LENGTH,
                    K,
                    P,
                >(
                    self.initializer.trainer,
                    self.initializer.kernel,
                    directory,
                    vectors@,
                    e,
                ),
            },
    {
        match self.initializer.new(directory, vectors) {
            Ok(image) => Ok(PqDeriver::Narrow(image)),
            Err(e) => Err(e),
        }
    }
}

/// The recipe for a wide image, as a recipe for a [`PqDeriver`].
pub struct WideRecipe<K, P, N> {
    /// The recipe for the image.
    pub initializer: PqDerivedDomainInitializer<
        EMBEDDING_LENGTH,
        CENTROID_32_LENGTH,
        QUANTIZED_32_EMBEDDING_LENGTH,
        K,
        P,
    >,
    /// The quantizer of the narrow images that the domain may also hold.
    pub narrow: core::marker::PhantomData<N>,
}

impl<
    K: DistanceKernel + Clone,
    P: PqTrainer<EMBEDDING_LENGTH, CENTROID_32_LENGTH, QUANTIZED_32_EMBEDDING_LENGTH, K>,
    N: Quantizer<EMBEDDING_LENGTH, QUANTIZED_16_EMBEDDING_LENGTH>,
> NewDeriver for WideRecipe<K, P, N> {
    type T = Embedding;

    type Deriver = PqDeriver<N, P::Quantizer>;

    /// Trains the wide image and hands it on as it came.
    fn new(&self, directory: &str, vectors: &VectorFile<Embedding>) -> (r: Result<
        PqDeriver<N, P::Quantizer>,
        TrainingError,
    >)
        ensures
            match r {
                Ok(PqDeriver::Wide(image)) => image.wf() && image.records().len() == 0,
                Ok(_) => false,
                Err(e) => training_refused::<
                    EMBEDDING_LENGTH,
                    CENTROID_32_LENGTH,
                    QUANTIZED_32_EMBEDDING_LENGTH,
                    K,
                    P,
                >(
                    self.initializer.trainer,
                    self.initializer.kernel,
                    directory,
                    vectors@,
                    e,
                ),
            },
    {
        match self.initializer.new(directory, vectors) {
            Ok(image) => Ok(PqDeriver::Wide(image)),
            Err(e) => Err(e),
        }
    }
}

impl<
    N: Quantizer<EMBEDDING_LENGTH, QUANTIZED_16_EMBEDDING_LENGTH>,
    W: Quantizer<EMBEDDING_LENGTH, QUANTIZED_32_EMBEDDING_LENGTH>,
> Domain<Embedding, PqDeriver<N, W>> {
    /// Trains a narrow image on the vectors of the domain and registers it
    /// under `name`, as `create_derived` does. The new image holds nothing,
    /// so images that were in step with the primary store stay so.
    pub fn create_narrow_image<
        K: DistanceKernel + Clone,
        P: PqTrainer<
            EMBEDDING_LENGTH,
            CENTROID_16_LENGTH,
            QUANTIZED_16_EMBEDDING_LENGTH,
            K,
            Quantizer = N,
        >,
    >(
        &mut self,
        name: String,
        initializer: PqDerivedDomainInitializer<
            EMBEDDING_LENGTH,
            CENTROID_16_LENGTH,
            QUANTIZED_16_EMBEDDING_LENGTH,
            K,
            P,
        >,
    ) -> (r: Result<(), DomainError>)
        requires
            old(self).wf(),
            old(self).images_in_step(),
        ensures
            final(self).wf(),
            final(self).images_in_step(),
            final(self).name_view() == old(self).name_view(),
            final(self).records() == old(self).records(),
            old(self).has_derived(name@) ==> r == Err::<(), DomainError>(
                DomainError::DuplicateDerived,
            ),
            !old(self).has_derived(name@) ==> (r is Ok || r matches Err(
                DomainError::Training(_),
            )),
            r matches Err(DomainError::Training(e)) ==> exists|directory: &str|
                directory@ == derived_path(old(self).name_view(), name@)
                    && #[trigger] training_refused::<
                    EMBEDDING_LENGTH,
                    CENTROID_16_LENGTH,
                    QUANTIZED_16_EMBEDDING_LENGTH,
                    K,
                    P,
                >(initializer.trainer, initializer.kernel, directory, old(self).records(), e),
            r is Err ==> final(self).registry() == old(self).registry() && final(self).derivers()
                == old(self).derivers(),
            r is Ok ==> {
                &&& final(self).derivers().drop_last() == old(self).derivers()
                &&& final(self).derivers().last() is Narrow
                &&& final(self).derivers().last().len() == 0
                &&& final(self).registry().drop_last() == old(self).registry()
                &&& final(self).registry().last().name == name@
                &&& final(self).registry().last().base == old(self).records().len()
            },
    {
        proof {
            self.lemma_one_registration_each();
        }
        let recipe = NarrowRecipe { initializer, wide: core::marker::PhantomData };
        let ghost handed = recipe;
        let ghost named = name@;
        let r = self.create_derived(name, recipe);
        proof {
            final(self).lemma_one_registration_each();
            if let Err(DomainError::Training(e)) = r {
                old(self).lemma_store_holds_records();
                let directory = choose|directory: &str|
                    directory@ == derived_path(old(self).name_view(), named)
                        && #[trigger] call_ensures(
                        <NarrowRecipe<K, P, W> as NewDeriver>::new,
                        (&handed, directory, &old(self).store()),
                        Err::<PqDeriver<N, W>, TrainingError>(e),
                    );
                assert(training_refused::<
                    EMBEDDING_LENGTH,
                    CENTROID_16_LENGTH,
                    QUANTIZED_16_EMBEDDING_LENGTH,
                    K,
                    P,
                >(
                    handed.initializer.trainer,
                    handed.initializer.kernel,
                    directory,
                    old(self).records(),
                    e,
                ));
            }
            if r is Ok {
                let last = final(self).registry().len() - 1;
                let trained = final(self).derivers().last();
                let directory = choose|directory: &str|
                    directory@ == derived_path(old(self).name_view(), named)
                        && #[trigger] call_ensures(
                        <NarrowRecipe<K, P, W> as NewDeriver>::new,
                        (&handed, directory, &old(self).store()),
                        Ok::<PqDeriver<N, W>, TrainingError>(trained),
                    );
                assert(trained is Narrow);
                assert(trained.len() == 0);
                assert(final(self).registry().drop_last() =~= old(self).registry());
                assert forall|i: int| 0 <= i < final(self).registry().len() implies (
                #[trigger] final(self).derivers()[i]).len()
                    == final(self).registry()[i].derived by {
                    if i < last {
                        assert(final(self).derivers().drop_last()[i] == final(self).derivers()[i]);
                        assert(final(self).registry()[i] == old(self).registry()[i]);
                    }
                }
            }
        }
        r
    }

    /// Trains a wide image on the vectors of the domain and registers it
    /// under `name`, as `create_derived` does. The new image holds nothing,
    /// so images that were in step with the primary store stay so.
    pub fn create_wide_image<
        K: DistanceKernel + Clone,
        P: PqTrainer<
            EMBEDDING_LENGTH,
            CENTROID_32_LENGTH,
            QUANTIZED_32_EMBEDDING_LENGTH,
            K,
            Quantizer = W,
        >,
    >(
        &mut self,
        name: String,
        initializer: PqDerivedDomainInitializer<
            EMBEDDING_LENGTH,
            CENTROID_32_LENGTH,
            QUANTIZED_32_EMBEDDING_LENGTH,
            K,
            P,
        >,
    ) -> (r: Result<(), DomainError>)
        requires
            old(self).wf(),
            old(self).images_in_step(),
        ensures
            final(self).wf(),
            final(self).images_in_step(),
            final(self).name_view() == old(self).name_view(),
            final(self).records() == old(self).records(),
            old(self).has_derived(name@) ==> r == Err::<(), DomainError>(
                DomainError::DuplicateDerived,
            ),
            !old(self).has_derived(name@) ==> (r is Ok || r matches Err(
                DomainError::Training(_),
            )),
            r matches Err(DomainError::Training(e)) ==> exists|directory: &str|
                directory@ == derived_path(old(self).name_view(), name@)
                    && #[trigger] training_refused::<
                    EMBEDDING_LENGTH,
                    CENTROID_32_LENGTH,
                    QUANTIZED_32_EMBEDDING_LENGTH,
                    K,
                    P,
                >(initializer.trainer, initializer.kernel, directory, old(self).records(), e),
            r is Err ==> final(self).registry() == old(self).registry() && final(self).derivers()
                == old(self).derivers(),
            r is Ok ==> {
                &&& final(self).derivers().drop_last() == old(self).derivers()
                &&& final(self).derivers().last() is Wide
                &&& final(self).derivers().last().len() == 0
                &&& final(self).registry().drop_last() == old(self).registry()
                &&& final(self).registry().last().name == name@
                &&& final(self).registry().last().base == old(self).records().len()
            },
    {
        proof {
            self.lemma_one_registration_each();
        }
        let recipe = WideRecipe { initializer, narrow: core::marker::PhantomData };
        let ghost handed = recipe;
        let ghost named = name@;
        let r = self.create_derived(name, recipe);
        proof {
            final(self).lemma_one_registration_each();
            if let Err(DomainError::Training(e)) = r {
                old(self).lemma_store_holds_records();
                let directory = choose|directory: &str|
                    directory@ == derived_path(old(self).name_view(), named)
                        && #[trigger] call_ensures(
                        <WideRecipe<K, P, N> as NewDeriver>::new,
                        (&handed, directory, &old(self).store()),
                        Err::<PqDeriver<N, W>, TrainingError>(e),
                    );
                assert(training_refused::<
                    EMBEDDING_LENGTH,
                    CENTROID_32_LENGTH,
                    QUANTIZED_32_EMBEDDING_LENGTH,
                    K,
                    P,
                >(
                    handed.initializer.trainer,
                    handed.initializer.kernel,
                    directory,
                    old(self).records(),
                    e,
                ));
            }
            if r is Ok {
                let last = final(self).registry().len() - 1;
                let trained = final(self).derivers().last();
                let directory = choose|directory: &str|
                    directory@ == derived_path(old(self).name_view(), named)
                        && #[trigger] call_ensures(
                        <WideRecipe<K, P, N> as NewDeriver>::new,
                        (&handed, directory, &old(self).store()),
                        Ok::<PqDeriver<N, W>, TrainingError>(trained),
                    );
                assert(trained is Wide);
                assert(trained.len() == 0);
                assert(final(self).registry().drop_last() =~= old(self).registry());
                assert forall|i: int| 0 <= i < final(self).registry().len() implies (
                #[trigger] final(self).derivers()[i]).len()
                    == final(self).registry()[i].derived by {
                    if i < last {
                        assert(final(self).derivers().drop_last()[i] == final(self).derivers()[i]);
                        assert(final(self).registry()[i] == old(self).registry()[i]);
                    }
                }
            }
        }
        r
    }
}

} // verus!
