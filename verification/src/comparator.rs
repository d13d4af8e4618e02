//! Distance spaces: centroid vocabularies with their memoized pair table,
//! quantized embeddings compared through that table, and raw embeddings.
use crate::codec::centroid_file;
use crate::codec::decode_centroids;
use crate::codec::decode_quantized;
use crate::codec::encode_centroids;
use crate::codec::encode_quantized;
use crate::codec::lemma_centroid_file_faithful;
use crate::codec::lemma_position_record;
use crate::codec::lemma_quantized_file_faithful;
use crate::codec::lemma_record_position;
use crate::codec::quantized_file;
use crate::codec::FormatError;
use crate::domain::Deriver;
use crate::domain::Domain;
use crate::protocol::Comparator;
use crate::protocol::SerializationError;
use crate::protocol::VectorId;
use crate::store::chunk_at;
use crate::store::SequentialVectorLoader;
use crate::store::VectorFile;
use crate::training::distinct;
use crate::training::gather;
use crate::training::picked;
use crate::training::sample_indices;
use crate::vecmath::gives_cosine;
use crate::vecmath::gives_euclidean;
use crate::vecmath::gives_partial;
use crate::vecmath::gives_root;
use crate::vecmath::repeatable;
use crate::vecmath::root_of_zeros_is_zero;
use crate::vecmath::symmetric;
use crate::vecmath::zero_to_self;
use crate::vecmath::DistanceKernel;
use crate::vecmath::Embedding;
use crate::vecmath::CENTROID_16_LENGTH;
use crate::vecmath::CENTROID_32_LENGTH;
use crate::vecmath::QUANTIZED_16_EMBEDDING_LENGTH;
use crate::vecmath::QUANTIZED_32_EMBEDDING_LENGTH;
use crate::vecmath::ZERO_DISTANCE;
use vstd::array::array_fill_for_copy_types;
use vstd::prelude::*;
use vstd::string::StringExecFns;

verus! {

/// `entries` is a full pair table of a centroid list, row after row: it has
/// one entry for every ordered pair, and the entry at `i * n + j` is a partial
/// distance that the kernel gives for centroids `i` and `j`.
pub open spec fn is_table_of<const W: usize, K: DistanceKernel>(
    entries: Seq<u32>,
    kernel: K,
    centroids: Seq<[u32; W]>,
) -> bool {
    &&& entries.len() == centroids.len() * centroids.len()
    &&& forall|i: int, j: int|
        0 <= i < centroids.len() && 0 <= j < centroids.len() ==> gives_partial(
            kernel,
            centroids[i],
            centroids[j],
            #[trigger] entries[i * centroids.len() + j],
        )
}

/// Whether a table of `n` rows and `n` columns can be indexed on this machine.
pub open spec fn square_fits(n: int) -> bool {
    0 <= n && n * n <= usize::MAX
}

/// The pair `(i, j)` has its own place in a table of `n` rows.
pub proof fn lemma_table_position(i: int, j: int, n: int)
    requires
        0 <= i < n,
        0 <= j < n,
    ensures
        0 <= i * n + j < n * n,
        (i * n + j) / n == i,
        (i * n + j) % n == j,
{
    lemma_record_position(i, j, n);
    assert(i * n + j < n * n && 0 <= i * n) by (nonlinear_arith)
        requires
            0 <= i < n,
            0 <= j < n,
    ;
}

/// Every partial distance between the members of a vocabulary, computed once.
#[derive(Clone)]
pub struct MemoizedPartialDistances {
    partial_distances: Vec<u32>,
    size: usize,
}

impl MemoizedPartialDistances {
    /// The table's entries, row after row.
    pub closed spec fn entries(&self) -> Seq<u32> {
        self.partial_distances@
    }

    /// The number of rows, which is also the number of columns.
    pub closed spec fn dimension(&self) -> nat {
        self.size as nat
    }

    /// The table is square.
    pub open spec fn wf(&self) -> bool {
        self.entries().len() == self.dimension() * self.dimension()
    }

    /// Computes the table of a vocabulary by comparing every ordered pair,
    /// row after row.
    pub fn new<const W: usize, K: DistanceKernel>(
        vectors: &Vec<[u32; W]>,
        kernel: &K,
    ) -> (table: Self)
        requires
            vectors.len() * vectors.len() <= usize::MAX,
        ensures
            table.wf(),
            table.dimension() == vectors.len(),
            is_table_of(table.entries(), *kernel, vectors@),
    {
        let size: usize = vectors.len();
        let total: usize = size * size;
        let mut partial_distances: Vec<u32> = Vec::new();
        let mut c: usize = 0;
        while c < total
            invariant
                size == vectors.len(),
                total == size * size,
                c <= total,
                partial_distances@.len() == c,
                forall|k: int|
                    0 <= k < c ==> gives_partial(
                        *kernel,
                        vectors@[k / (size as int)],
                        vectors@[k % (size as int)],
                        #[trigger] partial_distances@[k],
                    ),
            decreases total - c,
        {
            proof {
                lemma_position_record(c as int, size as int, size as int);
            }
            let i: usize = c / size;
            let j: usize = c % size;
            let d: u32 = kernel.euclidean_partial_distance(&vectors[i], &vectors[j]);
            partial_distances.push(d);
            c = c + 1;
        }
        proof {
            assert forall|i: int, j: int| 0 <= i < size && 0 <= j < size implies gives_partial(
                *kernel,
                vectors@[i],
                vectors@[j],
                #[trigger] partial_distances@[i * size + j],
            ) by {
                lemma_table_position(i, j, size as int);
            }
        }
        MemoizedPartialDistances { partial_distances, size }
    }

    /// The whole table, row after row.
    pub fn all_distances(&self) -> (all: &Vec<u32>)
        ensures
            all@ == self.entries(),
    {
        &self.partial_distances
    }

    /// The number of rows of the table.
    pub fn size(&self) -> (n: usize)
        ensures
            n == self.dimension(),
    {
        self.size
    }

    /// Looks up the partial distance of the vocabulary members `i` and `j`.
    pub fn partial_distance(&self, i: u16, j: u16) -> (d: u32)
        requires
            self.wf(),
            i < self.dimension(),
            j < self.dimension(),
        ensures
            d == self.entries()[i * self.dimension() + j],
    {
        let row: usize = i as usize;
        let column: usize = j as usize;
        let n: usize = self.size;
        let total: usize = self.partial_distances.len();
        assert(n * n == total);
        assert(row * n + column < n * n && 0 <= row * n) by (nonlinear_arith)
            requires
                0 <= row < n,
                0 <= column < n,
        ;
        self.partial_distances[row * n + column]
    }
}

/// The vocabulary of one quantization sub-space: its centroids, and the
/// memoized partial distance of every ordered pair of them.
#[derive(Clone)]
pub struct CentroidComparator<const W: usize, K: DistanceKernel> {
    distances: MemoizedPartialDistances,
    centroids: Vec<[u32; W]>,
    kernel: K,
}

/// The vocabulary of a sub-space of width 16.
pub type Centroid16Comparator<K> = CentroidComparator<CENTROID_16_LENGTH, K>;

/// The vocabulary of a sub-space of width 32.
pub type Centroid32Comparator<K> = CentroidComparator<CENTROID_32_LENGTH, K>;

impl Default for MemoizedPartialDistances {
    /// The table of no centroids.
    fn default() -> (table: Self)
        ensures
            table.wf(),
            table.dimension() == 0,
            table.entries().len() == 0,
    {
        let table = MemoizedPartialDistances { partial_distances: Vec::new(), size: 0 };
        assert(table.dimension() * table.dimension() == 0) by (nonlinear_arith)
            requires
                table.dimension() == 0,
        ;
        table
    }
}

impl<const W: usize, K: DistanceKernel + Default> Default for CentroidComparator<W, K> {
    /// The engine of an empty vocabulary.
    fn default() -> (engine: Self)
        ensures
            engine.wf(),
            engine@.len() == 0,
    {
        CentroidComparator::new(Vec::new(), K::default())
    }
}

impl<const W: usize, K: DistanceKernel> View for CentroidComparator<W, K> {
    type V = Seq<[u32; W]>;

    closed spec fn view(&self) -> Seq<[u32; W]> {
        self.centroids@
    }
}

impl<const W: usize, K: DistanceKernel> CentroidComparator<W, K> {
    /// The memoized table, row after row.
    pub closed spec fn table(&self) -> Seq<u32> {
        self.distances.entries()
    }

    /// The kernel that the engine computes with.
    pub closed spec fn kernel(&self) -> K {
        self.kernel
    }

    /// The memoized partial distance of the centroids with codes `i` and `j`.
    pub open spec fn entry(&self, i: int, j: int) -> u32 {
        self.table()[i * self@.len() + j]
    }

    /// The table is a full pair table of the centroid list as it stands, and
    /// small enough to be indexed.
    pub closed spec fn wf(&self) -> bool {
        &&& self.distances.wf()
        &&& self.distances.dimension() == self.centroids@.len()
        &&& is_table_of(self.distances.entries(), self.kernel, self.centroids@)
        &&& square_fits(self.centroids@.len() as int)
    }

    /// A well-formed engine holds a full pair table of its centroids, and
    /// the square of their number fits the machine.
    pub proof fn lemma_table(&self)
        requires
            self.wf(),
        ensures
            is_table_of(self.table(), self.kernel(), self@),
            square_fits(self@.len() as int),
    {
    }

    /// The file image of a well-formed engine is one that `deserialize`
    /// accepts: it holds whole records, as many as the engine has centroids,
    /// and the table of so many can be indexed.
    pub proof fn lemma_image_reads_back(&self)
        requires
            self.wf(),
            W > 0,
        ensures
            centroid_file(self@).len() as int % (4 * W) == 0,
            centroid_file(self@).len() as int / (4 * W) == self@.len(),
            square_fits(centroid_file(self@).len() as int / (4 * W)),
    {
        lemma_centroid_file_faithful(self@, self@);
        let n = self@.len() as int;
        let width = 4 * W as int;
        assert((n * width) / width == n) by (nonlinear_arith)
            requires
                width > 0,
        ;
    }

    /// Builds the engine of a vocabulary, computing its pair table.
    pub fn new(centroids: Vec<[u32; W]>, kernel: K) -> (engine: Self)
        requires
            centroids.len() * centroids.len() <= usize::MAX,
        ensures
            engine.wf(),
            engine@ == centroids@,
            engine.kernel() == kernel,
    {
        let distances = MemoizedPartialDistances::new(&centroids, &kernel);
        CentroidComparator { distances, centroids, kernel }
    }

    /// The number of centroids.
    pub fn len(&self) -> (n: usize)
        ensures
            n == self@.len(),
    {
        self.centroids.len()
    }

    /// The memoized partial distance of the centroids with codes `i` and `j`:
    /// what the kernel gave for the pair when the table was last computed.
    pub fn partial_distance(&self, i: u16, j: u16) -> (d: u32)
        requires
            self.wf(),
            i < self@.len(),
            j < self@.len(),
        ensures
            d == self.entry(i as int, j as int),
            gives_partial(self.kernel(), self@[i as int], self@[j as int], d),
    {
        self.distances.partial_distance(i, j)
    }

    /// The root of the sum of a list of partial distances, by the engine's kernel.
    pub fn root_of_sum<const N: usize>(&self, parts: &[u32; N]) -> (d: u32)
        ensures
            gives_root(self.kernel(), *parts, d),
    {
        self.kernel.sum_and_root(parts)
    }

    /// The file image of the vocabulary: its centroids in order, and nothing else.
    pub fn serialize(&self) -> (bytes: Vec<u8>)
        requires
            4 * (self@.len() * W) <= usize::MAX,
        ensures
            bytes@ == centroid_file(self@),
    {
        encode_centroids(&self.centroids)
    }

    /// Rebuilds an engine from a file image: reads the centroid list and
    /// recomputes the pair table. Fails on an image that does not hold whole
    /// records, and where the table of so many centroids could not be indexed.
    pub fn deserialize(bytes: &Vec<u8>, kernel: K) -> (r: Result<Self, SerializationError>)
        requires
            0 < W <= usize::MAX / 4,
        ensures
            bytes.len() as int % (4 * W) != 0 ==> (r matches Err(e) && e
                == SerializationError::Format(
                FormatError { length: bytes.len(), record_width: (4 * W) as usize },
            )),
            bytes.len() as int % (4 * W) == 0 && square_fits(bytes.len() as int / (4 * W)) ==> (
            r matches Ok(engine) && engine.wf() && engine.kernel() == kernel && centroid_file(
                engine@,
            ) == bytes@),
            bytes.len() as int % (4 * W) == 0 && !square_fits(bytes.len() as int / (4 * W)) ==> (
            r matches Err(e) && e == SerializationError::TableTooLarge {
                centroids: (bytes.len() as int / (4 * W)) as usize,
            }),
    {
        match decode_centroids::<W>(bytes) {
            Err(e) => Err(SerializationError::Format(e)),
            Ok(centroids) => {
                let n: usize = centroids.len();
                match n.checked_mul(n) {
                    None => Err(SerializationError::TableTooLarge { centroids: n }),
                    Some(_) => Ok(CentroidComparator::new(centroids, kernel)),
                }
            },
        }
    }

    /// Appends centroids to the vocabulary and recomputes the whole pair table.
    /// Returns the identifiers given to the new centroids, in order.
    pub fn store(&mut self, vectors: Vec<[u32; W]>) -> (ids: Vec<VectorId>)
        requires
            old(self).wf(),
            square_fits((old(self)@.len() + vectors@.len()) as int),
        ensures
            final(self).wf(),
            final(self).kernel() == old(self).kernel(),
            final(self)@ == old(self)@ + vectors@,
            ids@.len() == vectors@.len(),
            forall|k: int| 0 <= k < ids@.len() ==> (#[trigger] ids@[k]).0 == old(self)@.len() + k,
    {
        let ghost first = self.centroids@.len();
        assert(first + vectors.len() <= usize::MAX) by (nonlinear_arith)
            requires
                square_fits((first + vectors.len()) as int),
        ;
        let mut ids: Vec<VectorId> = Vec::new();
        let mut k: usize = 0;
        while k < vectors.len()
            invariant
                k <= vectors.len(),
                first == old(self)@.len(),
                self.kernel == old(self).kernel,
                self.centroids@ == old(self).centroids@ + vectors@.subrange(0, k as int),
                ids@.len() == k,
                forall|m: int| 0 <= m < k ==> (#[trigger] ids@[m]).0 == first + m,
            decreases vectors.len() - k,
        {
            ids.push(VectorId(self.centroids.len()));
            self.centroids.push(vectors[k]);
            assert(self.centroids@ =~= old(self).centroids@ + vectors@.subrange(0, k + 1));
            k = k + 1;
        }
        assert(vectors@.subrange(0, vectors@.len() as int) =~= vectors@);
        self.distances = MemoizedPartialDistances::new(&self.centroids, &self.kernel);
        ids
    }
}

impl<const W: usize, K: DistanceKernel> Comparator for CentroidComparator<W, K> {
    type T = [u32; W];

    open spec fn inv(&self) -> bool {
        self.wf()
    }

    open spec fn count(&self) -> nat {
        self@.len()
    }

    open spec fn stored(&self, position: int) -> [u32; W] {
        self@[position]
    }

    open spec fn admits(&self, record: [u32; W]) -> bool {
        true
    }

    open spec fn scores(&self, a: [u32; W], b: [u32; W], d: u32) -> bool {
        gives_euclidean(self.kernel(), a, b, d)
    }

    fn lookup(&self, v: VectorId) -> (record: &[u32; W]) {
        &self.centroids[v.0]
    }

    fn compare_raw(&self, v1: &[u32; W], v2: &[u32; W]) -> (d: u32) {
        self.kernel.euclidean_distance(v1, v2)
    }
}

/// Under a kernel that is repeatable and symmetric, the memoized partial
/// distance does not depend on the order of the two codes.
pub proof fn lemma_partial_distance_symmetric<const W: usize, K: DistanceKernel>(
    engine: &CentroidComparator<W, K>,
    a: int,
    b: int,
)
    requires
        engine.wf(),
        0 <= a < engine@.len(),
        0 <= b < engine@.len(),
        repeatable::<K, W>(engine.kernel()),
        symmetric::<K, W>(engine.kernel()),
    ensures
        engine.entry(a, b) == engine.entry(b, a),
{
    engine.lemma_table();
    let k = engine.kernel();
    assert(gives_partial(k, engine@[a], engine@[b], engine.entry(a, b)));
    assert(gives_partial(k, engine@[b], engine@[a], engine.entry(b, a)));
    assert(gives_partial(k, engine@[b], engine@[a], engine.entry(a, b)));
}

/// A centroid that the kernel puts at partial distance zero from itself has
/// the memoized partial distance zero from itself.
pub proof fn lemma_partial_distance_to_self<const W: usize, K: DistanceKernel>(
    engine: &CentroidComparator<W, K>,
    a: int,
)
    requires
        engine.wf(),
        0 <= a < engine@.len(),
        zero_to_self(engine.kernel(), engine@[a]),
    ensures
        engine.entry(a, a) == ZERO_DISTANCE,
{
    engine.lemma_table();
    assert(gives_partial(engine.kernel(), engine@[a], engine@[a], engine.entry(a, a)));
}

/// Under a repeatable kernel, extending a vocabulary leaves the memoized
/// partial distance of every pair of earlier centroids as it was, and the
/// table grows to the square of the new count.
pub proof fn lemma_extension_keeps_distances<const W: usize, K: DistanceKernel>(
    before: &CentroidComparator<W, K>,
    after: &CentroidComparator<W, K>,
    added: Seq<[u32; W]>,
    i: int,
    j: int,
)
    requires
        before.wf(),
        after.wf(),
        after.kernel() == before.kernel(),
        after@ == before@ + added,
        repeatable::<K, W>(before.kernel()),
        0 <= i < before@.len(),
        0 <= j < before@.len(),
    ensures
        after.table().len() == (before@.len() + added.len()) * (before@.len() + added.len()),
        after.entry(i, j) == before.entry(i, j),
{
    before.lemma_table();
    after.lemma_table();
    let k = before.kernel();
    assert(after@[i] == before@[i]);
    assert(after@[j] == before@[j]);
    assert(gives_partial(k, before@[i], before@[j], before.entry(i, j)));
    assert(gives_partial(k, after@[i], after@[j], after.entry(i, j)));
}

/// Reading back the file image of a vocabulary gives the same centroid list
/// and, under a repeatable kernel, the same pair table: an engine whose image
/// equals the image of `written` has the centroids and the table of `written`.
pub proof fn lemma_centroid_round_trip<const W: usize, K: DistanceKernel>(
    written: &CentroidComparator<W, K>,
    read_back: &CentroidComparator<W, K>,
)
    requires
        W > 0,
        written.wf(),
        read_back.wf(),
        read_back.kernel() == written.kernel(),
        centroid_file(read_back@) == centroid_file(written@),
        repeatable::<K, W>(written.kernel()),
    ensures
        centroid_file(written@).len() as int % (4 * W) == 0,
        read_back@ == written@,
        read_back.table() == written.table(),
{
    lemma_centroid_file_faithful(read_back@, written@);
    lemma_centroid_file_faithful(written@, read_back@);
    written.lemma_table();
    read_back.lemma_table();
    let n = written@.len() as int;
    let k = written.kernel();
    assert forall|c: int| 0 <= c < written.table().len() implies written.table()[c]
        == read_back.table()[c] by {
        assert(n > 0) by (nonlinear_arith)
            requires
                0 <= c < n * n,
                n >= 0,
        ;
        lemma_position_record(c, n, n);
        let i = c / n;
        let j = c % n;
        assert(gives_partial(k, written@[i], written@[j], written.table()[i * n + j]));
        assert(gives_partial(k, written@[i], written@[j], read_back.table()[i * n + j]));
    }
    assert(read_back.table() =~= written.table());
}

/// Whether every code of a quantized record names a centroid of a vocabulary of `n`.
pub open spec fn codes_known<const L: usize>(record: [u16; L], n: nat) -> bool {
    forall|k: int| 0 <= k < L ==> (#[trigger] record@[k]) < n
}

/// Whether every record of a list names only centroids of a vocabulary of `n`.
pub open spec fn all_codes_known<const L: usize>(records: Seq<[u16; L]>, n: nat) -> bool {
    forall|r: int| 0 <= r < records.len() ==> codes_known(#[trigger] records[r], n)
}

/// `(record, position)` is the first place, in file order, where a code names no centroid.
pub open spec fn first_unknown_code<const L: usize>(
    records: Seq<[u16; L]>,
    n: nat,
    record: int,
    position: int,
) -> bool {
    &&& 0 <= record < records.len()
    &&& 0 <= position < L
    &&& records[record]@[position] >= n
    &&& all_codes_known(records.subrange(0, record), n)
    &&& forall|k: int| 0 <= k < position ==> (#[trigger] records[record]@[k]) < n
}

/// The list of quantized records that a file image holds.
pub open spec fn records_of_file<const L: usize>(bytes: Seq<u8>) -> Seq<[u16; L]> {
    choose|records: Seq<[u16; L]>| quantized_file(records) == bytes
}

/// The two artifacts under which a quantized comparator is persisted.
pub struct QuantizedArtifacts {
    /// The file image of the centroid vocabulary.
    pub index: Vec<u8>,
    /// The file image of the quantized records.
    pub vectors: Vec<u8>,
}

/// Embeddings stored as `L` codes each, over a vocabulary of `W`-wide centroids.
#[derive(Clone)]
pub struct QuantizedComparator<const W: usize, const L: usize, K: DistanceKernel> {
    pub cc: CentroidComparator<W, K>,
    pub data: Vec<[u16; L]>,
}

/// Embeddings quantized over narrow centroids.
pub type Quantized16Comparator<K> = QuantizedComparator<
    CENTROID_16_LENGTH,
    QUANTIZED_16_EMBEDDING_LENGTH,
    K,
>;

/// Embeddings quantized over wide centroids.
pub type Quantized32Comparator<K> = QuantizedComparator<
    CENTROID_32_LENGTH,
    QUANTIZED_32_EMBEDDING_LENGTH,
    K,
>;

impl<const W: usize, const L: usize, K: DistanceKernel> QuantizedComparator<W, L, K> {
    /// The vocabulary is well formed and every stored code names one of its centroids.
    pub open spec fn wf(&self) -> bool {
        &&& self.cc.wf()
        &&& all_codes_known(self.data@, self.cc@.len())
    }

    /// The memoized partial distances of two quantized records, chunk
    /// position by chunk position.
    pub open spec fn chunk_distances(&self, a: [u16; L], b: [u16; L]) -> Seq<u32> {
        Seq::new(L as nat, |k: int| self.cc.entry(a@[k] as int, b@[k] as int))
    }

    /// An empty store over a vocabulary.
    pub fn new(cc: CentroidComparator<W, K>) -> (store: Self)
        requires
            cc.wf(),
        ensures
            store.wf(),
            store.cc == cc,
            store.data@.len() == 0,
    {
        QuantizedComparator { cc, data: Vec::new() }
    }

    /// The memoized partial distance of the centroids with codes `i` and `j`.
    pub fn partial_distance(&self, i: u16, j: u16) -> (d: u32)
        requires
            self.cc.wf(),
            i < self.cc@.len(),
            j < self.cc@.len(),
        ensures
            d == self.cc.entry(i as int, j as int),
            gives_partial(self.cc.kernel(), self.cc@[i as int], self.cc@[j as int], d),
    {
        self.cc.partial_distance(i, j)
    }

    /// Whether every code of a record names a centroid of the vocabulary, so
    /// that the record can be stored and compared.
    pub fn knows(&self, record: &[u16; L]) -> (known: bool)
        ensures
            known == codes_known(*record, self.cc@.len()),
    {
        let n: usize = self.cc.len();
        let mut k: usize = 0;
        while k < L
            invariant
                k <= L,
                n == self.cc@.len(),
                forall|m: int| 0 <= m < k ==> (#[trigger] record@[m]) < n,
            decreases L - k,
        {
            if record[k] as usize >= n {
                return false;
            }
            k = k + 1;
        }
        true
    }

    /// Appends quantized records as `store` does, after making sure that
    /// every code names a centroid of the vocabulary. Where one does not,
    /// nothing is stored and the first such place is reported.
    pub fn store_checked(&mut self, records: Vec<[u16; L]>) -> (r: Result<
        Vec<VectorId>,
        SerializationError,
    >)
        requires
            old(self).wf(),
        ensures
            final(self).wf(),
            final(self).cc == old(self).cc,
            all_codes_known(records@, old(self).cc@.len()) <==> r is Ok,
            r matches Ok(ids) ==> {
                &&& final(self).data@ == old(self).data@ + records@
                &&& ids@.len() == records@.len()
                &&& forall|k: int|
                    0 <= k < ids@.len() ==> (#[trigger] ids@[k]).0 == old(self).data@.len() + k
            },
            r matches Err(e) ==> {
                &&& final(self).data@ == old(self).data@
                &&& e matches SerializationError::UnknownCentroid { record, position }
                &&& first_unknown_code(
                    records@,
                    old(self).cc@.len(),
                    record as int,
                    position as int,
                )
            },
    {
        match Self::find_unknown_code(&records, self.cc.len()) {
            Some((record, position)) => Err(
                SerializationError::UnknownCentroid { record, position },
            ),
            None => Ok(self.store(records)),
        }
    }

    /// Appends quantized records and returns their identifiers, in order,
    /// starting at the number of records held before.
    pub fn store(&mut self, records: Vec<[u16; L]>) -> (ids: Vec<VectorId>)
        requires
            old(self).wf(),
            all_codes_known(records@, old(self).cc@.len()),
        ensures
            final(self).wf(),
            final(self).cc == old(self).cc,
            final(self).data@ == old(self).data@ + records@,
            ids@.len() == records@.len(),
            forall|k: int|
                0 <= k < ids@.len() ==> (#[trigger] ids@[k]).0 == old(self).data@.len() + k,
    {
        let ghost first = self.data@.len();
        let mut ids: Vec<VectorId> = Vec::new();
        let mut k: usize = 0;
        while k < records.len()
            invariant
                k <= records.len(),
                first == old(self).data@.len(),
                self.cc == old(self).cc,
                self.data@ == old(self).data@ + records@.subrange(0, k as int),
                ids@.len() == k,
                forall|m: int| 0 <= m < k ==> (#[trigger] ids@[m]).0 == first + m,
            decreases records.len() - k,
        {
            ids.push(VectorId(self.data.len()));
            self.data.push(records[k]);
            assert(self.data@ =~= old(self).data@ + records@.subrange(0, k + 1));
            k = k + 1;
        }
        assert(records@.subrange(0, records@.len() as int) =~= records@);
        ids
    }

    /// The two file images of the comparator.
    pub fn serialize(&self) -> (artifacts: QuantizedArtifacts)
        requires
            4 * (self.cc@.len() * W) <= usize::MAX,
            2 * (self.data@.len() * L) <= usize::MAX,
        ensures
            artifacts.index@ == centroid_file(self.cc@),
            artifacts.vectors@ == quantized_file(self.data@),
    {
        QuantizedArtifacts { index: self.cc.serialize(), vectors: encode_quantized(&self.data) }
    }

    /// Looks for the first code, in file order, that names no centroid.
    fn find_unknown_code(records: &Vec<[u16; L]>, n: usize) -> (found: Option<(usize, usize)>)
        ensures
            found is None <==> all_codes_known(records@, n as nat),
            found matches Some(place) ==> first_unknown_code(
                records@,
                n as nat,
                place.0 as int,
                place.1 as int,
            ),
    {
        let mut r: usize = 0;
        while r < records.len()
            invariant
                r <= records.len(),
                all_codes_known(records@.subrange(0, r as int), n as nat),
            decreases records.len() - r,
        {
            let record: &[u16; L] = &records[r];
            let mut k: usize = 0;
            while k < L
                invariant
                    r < records.len(),
                    k <= L,
                    *record == records@[r as int],
                    all_codes_known(records@.subrange(0, r as int), n as nat),
                    forall|m: int| 0 <= m < k ==> (#[trigger] record@[m]) < n,
                decreases L - k,
            {
                if record[k] as usize >= n {
                    assert(!codes_known(records@[r as int], n as nat));
                    return Some((r, k));
                }
                k = k + 1;
            }
            assert forall|m: int| 0 <= m < r + 1 implies codes_known(
                #[trigger] records@.subrange(0, r + 1)[m],
                n as nat,
            ) by {
                if m < r {
                    assert(records@.subrange(0, r as int)[m] == records@[m]);
                }
            }
            r = r + 1;
        }
        assert(records@.subrange(0, records@.len() as int) =~= records@);
        None
    }

    /// Rebuilds a comparator from its two file images. The vocabulary is read
    /// first; then the records, which must be whole and must name only
    /// centroids of that vocabulary.
    pub fn deserialize(index: &Vec<u8>, vectors: &Vec<u8>, kernel: K) -> (r: Result<
        Self,
        SerializationError,
    >)
        requires
            0 < W <= usize::MAX / 4,
            0 < L <= usize::MAX / 2,
        ensures
            index.len() as int % (4 * W) != 0 ==> (r matches Err(e) && e
                == SerializationError::Format(
                FormatError { length: index.len(), record_width: (4 * W) as usize },
            )),
            index.len() as int % (4 * W) == 0 && !square_fits(index.len() as int / (4 * W)) ==> (
            r matches Err(e) && e == SerializationError::TableTooLarge {
                centroids: (index.len() as int / (4 * W)) as usize,
            }),
            index.len() as int % (4 * W) == 0 && square_fits(index.len() as int / (4 * W))
                && vectors.len() as int % (2 * L) != 0 ==> (r matches Err(e) && e
                == SerializationError::Format(
                FormatError { length: vectors.len(), record_width: (2 * L) as usize },
            )),
            index.len() as int % (4 * W) == 0 && square_fits(index.len() as int / (4 * W))
                && vectors.len() as int % (2 * L) == 0 ==> (match r {
                Ok(store) => {
                    &&& store.wf()
                    &&& store.cc.kernel() == kernel
                    &&& centroid_file(store.cc@) == index@
                    &&& quantized_file(store.data@) == vectors@
                },
                Err(SerializationError::UnknownCentroid { record, position }) => first_unknown_code(
                    records_of_file::<L>(vectors@),
                    (index.len() as int / (4 * W)) as nat,
                    record as int,
                    position as int,
                ),
                Err(_) => false,
            }),
            r is Ok ==> all_codes_known(
                records_of_file::<L>(vectors@),
                (index.len() as int / (4 * W)) as nat,
            ),
    {
        let cc = match CentroidComparator::<W, K>::deserialize(index, kernel) {
            Ok(cc) => cc,
            Err(e) => {
                return Err(e);
            },
        };
        proof {
            lemma_centroid_file_faithful(cc@, cc@);
            assert(cc@.len() == index.len() as int / (4 * W)) by (nonlinear_arith)
                requires
                    index.len() == cc@.len() * (4 * W),
                    W > 0,
            ;
        }
        let data = match decode_quantized::<L>(vectors) {
            Ok(data) => data,
            Err(e) => {
                return Err(SerializationError::Format(e));
            },
        };
        proof {
            lemma_quantized_file_faithful(data@, records_of_file::<L>(vectors@));
        }
        match Self::find_unknown_code(&data, cc.len()) {
            Some((record, position)) => Err(
                SerializationError::UnknownCentroid { record, position },
            ),
            None => Ok(QuantizedComparator { cc, data }),
        }
    }
}

impl<const W: usize, const L: usize, K: DistanceKernel> Comparator for QuantizedComparator<
    W,
    L,
    K,
> {
    type T = [u16; L];

    open spec fn inv(&self) -> bool {
        self.wf()
    }

    open spec fn count(&self) -> nat {
        self.data@.len()
    }

    open spec fn stored(&self, position: int) -> [u16; L] {
        self.data@[position]
    }

    open spec fn admits(&self, record: [u16; L]) -> bool {
        codes_known(record, self.cc@.len())
    }

    /// The score is a root that the kernel gives for the sum of the memoized
    /// partial distances of the two records' codes.
    open spec fn scores(&self, a: [u16; L], b: [u16; L], d: u32) -> bool {
        exists|parts: [u32; L]|
            parts@ == self.chunk_distances(a, b) && #[trigger] gives_root(
                self.cc.kernel(),
                parts,
                d,
            )
    }

    fn lookup(&self, v: VectorId) -> (record: &[u16; L]) {
        &self.data[v.0]
    }

    fn compare_raw(&self, v1: &[u16; L], v2: &[u16; L]) -> (d: u32) {
        let mut partial_distances: [u32; L] = array_fill_for_copy_types(ZERO_DISTANCE);
        let mut ix: usize = 0;
        while ix < L
            invariant
                ix <= L,
                self.cc.wf(),
                codes_known(*v1, self.cc@.len()),
                codes_known(*v2, self.cc@.len()),
                forall|k: int|
                    0 <= k < ix ==> partial_distances@[k] == self.chunk_distances(*v1, *v2)[k],
            decreases L - ix,
        {
            let partial_1: u16 = v1[ix];
            let partial_2: u16 = v2[ix];
            assert(v1@[ix as int] < self.cc@.len());
            assert(v2@[ix as int] < self.cc@.len());
            let partial_distance: u32 = self.cc.partial_distance(partial_1, partial_2);
            partial_distances[ix] = partial_distance;
            ix = ix + 1;
        }
        assert(partial_distances@ =~= self.chunk_distances(*v1, *v2));
        self.cc.root_of_sum(&partial_distances)
    }
}

/// A quantized record is at distance zero from itself, where the kernel puts
/// each centroid that the record names at partial distance zero from itself
/// and gives zero as the root of a sum of zeros.
pub proof fn lemma_quantized_distance_to_self<const W: usize, const L: usize, K: DistanceKernel>(
    store: &QuantizedComparator<W, L, K>,
    q: [u16; L],
    d: u32,
)
    requires
        store.wf(),
        codes_known(q, store.cc@.len()),
        forall|k: int|
            0 <= k < L ==> zero_to_self(store.cc.kernel(), #[trigger] store.cc@[q@[k] as int]),
        root_of_zeros_is_zero::<K, L>(store.cc.kernel()),
        store.scores(q, q, d),
    ensures
        d == ZERO_DISTANCE,
{
    let parts = choose|parts: [u32; L]|
        parts@ == store.chunk_distances(q, q) && #[trigger] gives_root(
            store.cc.kernel(),
            parts,
            d,
        );
    assert forall|k: int| 0 <= k < L implies parts@[k] == ZERO_DISTANCE by {
        assert(q@[k] < store.cc@.len());
        assert(zero_to_self(store.cc.kernel(), store.cc@[q@[k] as int]));
        lemma_partial_distance_to_self(&store.cc, q@[k] as int);
    }
}

/// The number of vectors in every chunk of a [`ChunkedVecIterator`] but the last.
pub const VECTOR_CHUNK_SIZE: usize = 16_384;

/// A pass over the vectors of a store in batches of 16,384, each batch
/// materialized when it is asked for.
pub struct ChunkedVecIterator<'a, T> {
    loader: SequentialVectorLoader<'a, T>,
}

impl<'a, T: Copy> ChunkedVecIterator<'a, T> {
    /// The vectors that the pass has not handed out yet.
    pub closed spec fn remaining(&self) -> Seq<T> {
        self.loader.remaining()
    }

    /// The batches are of the fixed size.
    pub closed spec fn wf(&self) -> bool {
        self.loader.chunk_len() == VECTOR_CHUNK_SIZE
    }

    /// A pass over all vectors of a store.
    pub fn new(file: &'a VectorFile<T>) -> (chunks: Self)
        ensures
            chunks.wf(),
            chunks.remaining() == file@,
    {
        ChunkedVecIterator { loader: file.chunks_of(VECTOR_CHUNK_SIZE) }
    }

    /// The next batch: the first 16,384 of the remaining vectors, or all of
    /// them if they are fewer; `None` once nothing remains, and so at once for
    /// an empty store.
    pub fn next(&mut self) -> (chunk: Option<Vec<T>>)
        requires
            old(self).wf(),
        ensures
            final(self).wf(),
            old(self).remaining().len() == 0 ==> chunk is None && final(self).remaining()
                == old(self).remaining(),
            old(self).remaining().len() > 0 ==> chunk is Some && chunk->Some_0@ == chunk_at(
                old(self).remaining(),
                0,
                VECTOR_CHUNK_SIZE as int,
            ) && final(self).remaining() == old(self).remaining().skip(chunk->Some_0@.len() as int),
    {
        self.loader.next()
    }
}

/// What is persisted of a raw-embedding comparator: enough to bind it to its
/// domain again.
pub struct ComparatorMeta {
    domain: String,
    size: usize,
}

impl ComparatorMeta {
    /// The metadata of a comparator over the domain `domain` of `size` vectors.
    pub fn new(domain: String, size: usize) -> (meta: Self)
        ensures
            meta.domain_name() == domain@,
            meta.size_hint() == size,
    {
        ComparatorMeta { domain, size }
    }

    /// The name of the domain.
    pub closed spec fn domain_name(&self) -> Seq<char> {
        self.domain@
    }

    /// The number of vectors that the domain held when the metadata was written.
    pub closed spec fn size_hint(&self) -> usize {
        self.size
    }

    /// The name of the domain.
    pub fn domain(&self) -> (name: &str)
        ensures
            name@ == self.domain_name(),
    {
        self.domain.as_str()
    }

    /// The number of vectors that the domain held when the metadata was written.
    pub fn size(&self) -> (size: usize)
        ensures
            size == self.size_hint(),
    {
        self.size
    }
}

/// Full-precision comparison over the embeddings of one domain.
#[derive(Clone)]
pub struct OpenAIComparator<'a, D, K> {
    pub domain: &'a Domain<Embedding, D>,
    pub kernel: K,
}

impl<'a, D: Deriver<From = Embedding>, K: DistanceKernel> OpenAIComparator<'a, D, K> {
    /// The comparator over a domain.
    pub fn new(domain: &'a Domain<Embedding, D>, kernel: K) -> (comparator: Self)
        ensures
            comparator.domain == domain,
            comparator.kernel == kernel,
    {
        OpenAIComparator { domain, kernel }
    }

    /// The metadata to persist: the domain's name and its present size.
    pub fn serialize(&self) -> (meta: ComparatorMeta)
        ensures
            meta.domain_name() == self.domain.name_view(),
            meta.size_hint() == self.domain.records().len(),
    {
        ComparatorMeta::new(String::from_str(self.domain.name()), self.domain.num_vecs())
    }

    /// Binds persisted metadata to a domain again; `None` unless the domain
    /// is the one that the metadata names.
    pub fn deserialize(meta: &ComparatorMeta, domain: &'a Domain<Embedding, D>, kernel: K) -> (r:
        Option<Self>)
        ensures
            meta.domain_name() == domain.name_view() <==> r is Some,
            r matches Some(comparator) ==> comparator.domain == domain && comparator.kernel
                == kernel,
    {
        let named = String::from_str(meta.domain());
        let actual = String::from_str(domain.name());
        if named == actual {
            Some(OpenAIComparator { domain, kernel })
        } else {
            None
        }
    }

    /// A training sample: the vectors at `size` positions of the domain, no
    /// position taken twice; the whole domain, in order, if it holds no more
    /// than `size`.
    pub fn selection(&self, size: usize) -> (sample: Vec<Embedding>)
        ensures
            size >= self.domain.records().len() ==> sample@ == self.domain.records(),
            size < self.domain.records().len() ==> sample@.len() == size,
            exists|positions: Seq<usize>|
                {
                    &&& distinct(positions)
                    &&& forall|k: int|
                        0 <= k < positions.len() ==> (#[trigger] positions[k])
                            < self.domain.records().len()
                    &&& sample@ == #[trigger] picked(self.domain.records(), positions)
                },
    {
        let indices = sample_indices(self.domain.num_vecs(), size);
        let sample = gather(self.domain.file(), &indices);
        if size >= self.domain.num_vecs() {
            assert(sample@ =~= self.domain.records());
        }
        sample
    }

    /// A pass over all embeddings of the domain in batches.
    pub fn vector_chunks(&self) -> (chunks: ChunkedVecIterator<'a, Embedding>)
        ensures
            chunks.wf(),
            chunks.remaining() == self.domain.records(),
    {
        ChunkedVecIterator::new(self.domain.file())
    }
}

impl<'a, D: Deriver<From = Embedding>, K: DistanceKernel> Comparator for OpenAIComparator<
    'a,
    D,
    K,
> {
    type T = Embedding;

    open spec fn inv(&self) -> bool {
        true
    }

    open spec fn count(&self) -> nat {
        self.domain.records().len()
    }

    open spec fn stored(&self, position: int) -> Embedding {
        self.domain.records()[position]
    }

    open spec fn admits(&self, record: Embedding) -> bool {
        true
    }

    open spec fn scores(&self, a: Embedding, b: Embedding, d: u32) -> bool {
        gives_cosine(self.kernel, a, b, d)
    }

    fn lookup(&self, v: VectorId) -> (record: &Embedding) {
        self.domain.file().get(v.0)
    }

    fn compare_raw(&self, v1: &Embedding, v2: &Embedding) -> (d: u32) {
        self.kernel.normalized_cosine_distance(v1, v2)
    }
}

} // verus!
