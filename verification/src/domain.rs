//! A domain: a named append-only store of vectors, and the derived stores
//! that are kept in step with it.
use crate::comparator::all_codes_known;
use crate::comparator::codes_known;
use crate::naming::derived_path;
use crate::naming::derived_path_name;
use crate::store::ImmutableVectorFile;
use crate::store::LoadedVectorRange;
use crate::store::SequentialVectorLoader;
use crate::store::StoreError;
use crate::store::VectorFile;
use crate::vecmath::Embedding;
use crate::vecmath::CENTROID_16_LENGTH;
use crate::vecmath::CENTROID_32_LENGTH;
use crate::vecmath::EMBEDDING_LENGTH;
use crate::vecmath::QUANTIZED_16_EMBEDDING_LENGTH;
use crate::vecmath::QUANTIZED_32_EMBEDDING_LENGTH;
use core::ops::Range;
use vstd::prelude::*;
use vstd::string::StringExecFns;

verus! {

/// Why a deriver could not take in new records.
#[derive(Debug, Clone, Copy, PartialEq, Eq, Structural)]
pub enum DeriveError {
    /// The transform produced a record that the derived store cannot hold.
    Transform,
    /// The derived store could not be written.
    Storage,
    /// The deriver asked to be fed in chunks of no records.
    EmptyChunk,
}

/// Why a deriver could not be trained.
#[derive(Debug, Clone, Copy, PartialEq, Eq, Structural)]
pub enum TrainingError {
    /// Clustering the sample failed.
    Clustering,
    /// The search index over the centroids could not be built.
    Index,
    /// The trained artifacts could not be written.
    Storage,
}

/// Why an operation on a domain failed.
#[derive(Debug, Clone, Copy, PartialEq, Eq, Structural)]
pub enum DomainError {
    /// A deriver is already registered under the name.
    DuplicateDerived,
    /// No deriver is registered under the name.
    UnknownDerived,
    /// The deriver registered under the name is not of the type the caller expects.
    DerivedTypeMismatch,
    /// Training the new deriver failed.
    Training(TrainingError),
    /// A registered deriver refused the new records.
    Derive(DeriveError),
}

/// What kind of records a derived store holds.
#[derive(Debug, Clone, Copy, PartialEq, Eq, Structural)]
pub struct DerivedType {
    /// Width of the centroids that the codes refer to.
    pub centroid_width: usize,
    /// Number of codes per derived record.
    pub quantized_length: usize,
}

/// The number of records that a deriver is fed at a time unless it asks otherwise.
pub const DEFAULT_CHUNK_SIZE: usize = 1_000;

/// What every domain offers, whatever its record type.
pub trait GenericDomain {
    /// The domain's name.
    fn name(&self) -> &str;

    /// The number of records in the primary store.
    fn num_vecs(&self) -> usize;
}

/// A transform with a store of its own, fed every record that its domain takes in.
pub trait Deriver {
    /// The records of the domain that the deriver belongs to.
    type From: Copy;

    /// Transforms every record that the loader still holds and appends the
    /// results to the deriver's store, in order.
    fn concatenate_derived(&mut self, loader: SequentialVectorLoader<'_, Self::From>) -> Result<
        (),
        DeriveError,
    >;

    /// Cuts the deriver's store down to its first `len` records.
    fn truncate_derived(&mut self, len: usize);

    /// The kind of records that the deriver holds.
    fn derived_type(&self) -> DerivedType;

    /// The number of records that the deriver wants to be fed at a time: a
    /// thousand, unless the deriver says otherwise.
    fn chunk_size(&self) -> (n: usize)
        default_ensures
            n == DEFAULT_CHUNK_SIZE,
    {
        DEFAULT_CHUNK_SIZE
    }
}

/// The recipe for a deriver: trains one on the vectors of a domain.
pub trait NewDeriver {
    /// The records of the domain.
    type T: Copy;

    /// The deriver that training gives.
    type Deriver: Deriver<From = Self::T>;

    /// Trains a deriver on the vectors of a domain. Its artifacts belong under
    /// `directory`, and its store starts out empty.
    fn new(&self, directory: &str, vectors: &VectorFile<Self::T>) -> Result<
        Self::Deriver,
        TrainingError,
    >;
}

/// Maps a vector to the codes of the centroids nearest to its chunks.
pub trait Quantizer<const SIZE: usize, const QUANTIZED_SIZE: usize> {
    /// The codes of one vector.
    fn quantize(&self, vec: &[u32; SIZE]) -> [u16; QUANTIZED_SIZE];
}

/// The product-quantized image of a domain of `SIZE`-wide vectors: one record
/// of `QUANTIZED_SIZE` codes, over centroids of width `CENTROID_SIZE`, for
/// every vector taken in.
pub struct PqDerivedDomain<
    const SIZE: usize,
    const CENTROID_SIZE: usize,
    const QUANTIZED_SIZE: usize,
    Q,
> {
    file: VectorFile<[u16; QUANTIZED_SIZE]>,
    quantizer: Q,
    vocabulary: usize,
}

impl<
    const SIZE: usize,
    const CENTROID_SIZE: usize,
    const QUANTIZED_SIZE: usize,
    Q: Quantizer<SIZE, QUANTIZED_SIZE>,
> PqDerivedDomain<SIZE, CENTROID_SIZE, QUANTIZED_SIZE, Q> {
    /// The derived records, in order.
    pub closed spec fn records(&self) -> Seq<[u16; QUANTIZED_SIZE]> {
        self.file@
    }

    /// The number of centroids that a code may name.
    pub closed spec fn vocabulary_size(&self) -> nat {
        self.vocabulary as nat
    }

    /// The quantizer that codes the vectors.
    pub closed spec fn quantizer(&self) -> Q {
        self.quantizer
    }

    /// `codes[i]` is what the quantizer gives for `vectors[i]`, for every `i`.
    pub open spec fn quantized(
        quantizer: Q,
        vectors: Seq<[u32; SIZE]>,
        codes: Seq<[u16; QUANTIZED_SIZE]>,
    ) -> bool {
        &&& codes.len() == vectors.len()
        &&& forall|i: int|
            0 <= i < vectors.len() ==> call_ensures(
                Q::quantize,
                (&quantizer, &vectors[i]),
                #[trigger] codes[i],
            )
    }

    /// Every stored code names a centroid of the vocabulary.
    pub open spec fn wf(&self) -> bool {
        all_codes_known(self.records(), self.vocabulary_size())
    }

    /// What taking in the vectors `incoming` makes of the derived domain
    /// `before`, with the result `r`. On success `after` holds, behind the
    /// records of `before`, the codes that the quantizer gives for the
    /// vectors, in order. It fails only where the quantizer gives a vector a
    /// code that names no centroid, and then `after` holds what `before`
    /// held; so no vectors never fail.
    pub open spec fn took_in(
        before: Self,
        after: Self,
        incoming: Seq<[u32; SIZE]>,
        r: Result<(), DeriveError>,
    ) -> bool {
        &&& after.vocabulary_size() == before.vocabulary_size()
        &&& after.quantizer() == before.quantizer()
        &&& before.wf() ==> after.wf()
        &&& r is Ok ==> exists|codes: Seq<[u16; QUANTIZED_SIZE]>|
            #![trigger Self::quantized(before.quantizer(), incoming, codes)]
            Self::quantized(before.quantizer(), incoming, codes) && after.records()
                == before.records() + codes
        &&& r is Err ==> r == Err::<(), DeriveError>(DeriveError::Transform) && after.records()
            == before.records()
        &&& incoming.len() == 0 ==> r is Ok
        &&& r is Err ==> exists|i: int, codes: [u16; QUANTIZED_SIZE]|
            0 <= i < incoming.len() && #[trigger] call_ensures(
                Q::quantize,
                (&before.quantizer(), &incoming[i]),
                codes,
            ) && !codes_known(codes, before.vocabulary_size())
    }

    /// What cutting the derived domain `before` down to `len` records makes
    /// of it: `after` holds the first `len` records, or all of them if they
    /// are no more.
    pub open spec fn cut_down(before: Self, after: Self, len: usize) -> bool {
        &&& after.vocabulary_size() == before.vocabulary_size()
        &&& after.quantizer() == before.quantizer()
        &&& before.wf() ==> after.wf()
        &&& len <= before.records().len() ==> after.records() == before.records().subrange(
            0,
            len as int,
        )
        &&& len > before.records().len() ==> after.records() == before.records()
    }

    /// A derived domain with an empty store, over a quantizer whose
    /// vocabulary has `vocabulary` centroids.
    pub fn create(quantizer: Q, vocabulary: usize) -> (derived: Self)
        ensures
            derived.wf(),
            derived.records().len() == 0,
            derived.vocabulary_size() == vocabulary,
            derived.quantizer() == quantizer,
    {
        PqDerivedDomain { file: VectorFile::create(), quantizer, vocabulary }
    }

    /// A derived domain over the records that its file holds; `None` if one
    /// of them names a centroid that the vocabulary does not have.
    pub fn new(file: VectorFile<[u16; QUANTIZED_SIZE]>, quantizer: Q, vocabulary: usize) -> (r:
        Option<Self>)
        ensures
            all_codes_known(file@, vocabulary as nat) <==> r is Some,
            r matches Some(derived) ==> derived.wf() && derived.records() == file@
                && derived.vocabulary_size() == vocabulary && derived.quantizer() == quantizer,
    {
        let mut i: usize = 0;
        while i < file.num_vecs()
            invariant
                i <= file@.len(),
                all_codes_known(file@.subrange(0, i as int), vocabulary as nat),
            decreases file@.len() - i,
        {
            if !Self::codes_in_range(file.get(i), vocabulary) {
                assert(!codes_known(file@[i as int], vocabulary as nat));
                return None;
            }
            assert forall|m: int| 0 <= m < i + 1 implies codes_known(
                #[trigger] file@.subrange(0, i + 1)[m],
                vocabulary as nat,
            ) by {
                if m < i {
                    assert(file@.subrange(0, i as int)[m] == file@[m]);
                }
            }
            i = i + 1;
        }
        assert(file@.subrange(0, file@.len() as int) =~= file@);
        Some(PqDerivedDomain { file, quantizer, vocabulary })
    }

    /// Whether every code of a record names a centroid of a vocabulary of `vocabulary`.
    fn codes_in_range(record: &[u16; QUANTIZED_SIZE], vocabulary: usize) -> (ok: bool)
        ensures
            ok == codes_known(*record, vocabulary as nat),
    {
        let mut k: usize = 0;
        while k < QUANTIZED_SIZE
            invariant
                k <= QUANTIZED_SIZE,
                forall|m: int| 0 <= m < k ==> (#[trigger] record@[m]) < vocabulary,
            decreases QUANTIZED_SIZE - k,
        {
            if record[k] as usize >= vocabulary {
                return false;
            }
            k = k + 1;
        }
        true
    }

    /// The store of derived records.
    pub fn file(&self) -> (file: &VectorFile<[u16; QUANTIZED_SIZE]>)
        ensures
            file@ == self.records(),
    {
        &self.file
    }

    /// Quantizes the vectors of one chunk, in order. Gives the codes of all
    /// of them, unless the quantizer gave one of them a code that names no
    /// centroid: then `None`.
    fn quantize_chunk(&self, chunk: &Vec<[u32; SIZE]>) -> (r: Option<Vec<[u16; QUANTIZED_SIZE]>>)
        ensures
            r matches Some(codes) ==> Self::quantized(self.quantizer(), chunk@, codes@)
                && all_codes_known(codes@, self.vocabulary_size()),
            r is None ==> exists|i: int, codes: [u16; QUANTIZED_SIZE]|
                0 <= i < chunk@.len() && #[trigger] call_ensures(
                    Q::quantize,
                    (&self.quantizer(), &chunk@[i]),
                    codes,
                ) && !codes_known(codes, self.vocabulary_size()),
    {
        let mut result: Vec<[u16; QUANTIZED_SIZE]> = Vec::new();
        let mut i: usize = 0;
        while i < chunk.len()
            invariant
                i <= chunk.len(),
                Self::quantized(self.quantizer(), chunk@.subrange(0, i as int), result@),
                all_codes_known(result@, self.vocabulary_size()),
            decreases chunk.len() - i,
        {
            let codes = self.quantizer.quantize(&chunk[i]);
            if !Self::codes_in_range(&codes, self.vocabulary) {
                return None;
            }
            result.push(codes);
            i = i + 1;
        }
        assert(chunk@.subrange(0, chunk@.len() as int) =~= chunk@);
        Some(result)
    }
}

impl<
    const SIZE: usize,
    const CENTROID_SIZE: usize,
    const QUANTIZED_SIZE: usize,
    Q: Quantizer<SIZE, QUANTIZED_SIZE>,
> Deriver for PqDerivedDomain<SIZE, CENTROID_SIZE, QUANTIZED_SIZE, Q> {
    type From = [u32; SIZE];

    /// Quantizes chunk after chunk and appends each chunk's codes: for every
    /// vector that the loader holds, in order, the record that the quantizer
    /// gives for it. It fails only where the quantizer gives a vector a code
    /// that names no centroid; what this call appended is then dropped again
    /// and the store is as before. A loader that holds nothing always succeeds.
    fn concatenate_derived(&mut self, loader: SequentialVectorLoader<'_, [u32; SIZE]>) -> (r:
        Result<(), DeriveError>)
        ensures
            Self::took_in(*old(self), *final(self), loader.remaining(), r),
    {
        let mut rest = loader;
        let start: usize = self.file.num_vecs();
        let ghost incoming = loader.remaining();
        let ghost appended: Seq<[u16; QUANTIZED_SIZE]> = Seq::empty();
        assert(self.records() =~= old(self).records() + appended);
        assert(incoming.skip(0) =~= incoming);
        loop
            invariant
                old(self).wf() ==> self.wf(),
                self.vocabulary == old(self).vocabulary,
                self.quantizer == old(self).quantizer,
                start == old(self).records().len(),
                incoming == loader.remaining(),
                appended.len() <= incoming.len(),
                rest.remaining() == incoming.skip(appended.len() as int),
                Self::quantized(
                    self.quantizer(),
                    incoming.subrange(0, appended.len() as int),
                    appended,
                ),
                self.records() == old(self).records() + appended,
            decreases rest.remaining().len(),
        {
            let ghost left = rest.remaining();
            match rest.next() {
                None => {
                    assert(incoming.subrange(0, appended.len() as int) =~= incoming);
                    return Ok(());
                },
                Some(chunk) => {
                    match self.quantize_chunk(&chunk) {
                        None => {
                            proof {
                                let (at, codes) = choose|at: int, codes: [u16; QUANTIZED_SIZE]|
                                    0 <= at < chunk@.len() && #[trigger] call_ensures(
                                        Q::quantize,
                                        (&self.quantizer(), &chunk@[at]),
                                        codes,
                                    ) && !codes_known(codes, self.vocabulary_size());
                                let i = appended.len() + at;
                                assert(chunk@[at] == left[at]);
                                assert(left[at] == incoming[i]);
                                assert(call_ensures(
                                    Q::quantize,
                                    (&old(self).quantizer(), &loader.remaining()[i]),
                                    codes,
                                ));
                            }
                            self.file.truncate(start);
                            assert(self.records() =~= old(self).records());
                            return Err(DeriveError::Transform);
                        },
                        Some(codes) => {
                            let ghost held = self.records();
                            let ghost done = appended;
                            self.file.append_vector_range(&codes);
                            proof {
                                appended = done + codes@;
                                assert(self.records() =~= old(self).records() + appended);
                                assert(rest.remaining() =~= incoming.skip(appended.len() as int));
                                let fed = incoming.subrange(0, appended.len() as int);
                                assert forall|i: int| 0 <= i < appended.len() implies call_ensures(
                                    Q::quantize,
                                    (&self.quantizer(), &fed[i]),
                                    #[trigger] appended[i],
                                ) by {
                                    if i < done.len() {
                                        assert(appended[i] == done[i]);
                                        assert(incoming.subrange(0, done.len() as int)[i]
                                            == incoming[i]);
                                    } else {
                                        assert(appended[i] == codes@[i - done.len()]);
                                        assert(chunk@[i - done.len()] == incoming[i]);
                                    }
                                }
                                if old(self).wf() {
                                    assert forall|m: int|
                                        0 <= m < self.records().len() implies codes_known(
                                        #[trigger] self.records()[m],
                                        self.vocabulary_size(),
                                    ) by {
                                        if m < held.len() {
                                            assert(self.records()[m] == held[m]);
                                        } else {
                                            assert(self.records()[m] == codes@[m - held.len()]);
                                        }
                                    }
                                }
                            }
                        },
                    }
                },
            }
        }
    }

    /// Cuts the store down to its first `len` records; a store that holds no
    /// more is left as it is.
    fn truncate_derived(&mut self, len: usize)
        ensures
            Self::cut_down(*old(self), *final(self), len),
    {
        if len <= self.file.num_vecs() {
            self.file.truncate(len);
        }
    }

    fn derived_type(&self) -> (kind: DerivedType)
        ensures
            kind == (DerivedType {
                centroid_width: CENTROID_SIZE,
                quantized_length: QUANTIZED_SIZE,
            }),
    {
        DerivedType { centroid_width: CENTROID_SIZE, quantized_length: QUANTIZED_SIZE }
    }
}

/// The narrow product-quantized image of a domain of embeddings.
pub type PqNarrow<Q> = PqDerivedDomain<
    EMBEDDING_LENGTH,
    CENTROID_16_LENGTH,
    QUANTIZED_16_EMBEDDING_LENGTH,
    Q,
>;

/// The wide product-quantized image of a domain of embeddings.
pub type PqWide<Q> = PqDerivedDomain<
    EMBEDDING_LENGTH,
    CENTROID_32_LENGTH,
    QUANTIZED_32_EMBEDDING_LENGTH,
    Q,
>;

/// A deriver of a domain of embeddings that registers narrow and wide
/// product-quantized images side by side.
pub enum PqDeriver<N, W> {
    /// An image over narrow centroids.
    Narrow(PqNarrow<N>),
    /// An image over wide centroids.
    Wide(PqWide<W>),
}

impl<
    N: Quantizer<EMBEDDING_LENGTH, QUANTIZED_16_EMBEDDING_LENGTH>,
    W: Quantizer<EMBEDDING_LENGTH, QUANTIZED_32_EMBEDDING_LENGTH>,
> PqDeriver<N, W> {
    /// The number of derived records.
    pub open spec fn len(&self) -> nat {
        match self {
            PqDeriver::Narrow(image) => image.records().len(),
            PqDeriver::Wide(image) => image.records().len(),
        }
    }

    /// The image's invariant.
    pub open spec fn wf(&self) -> bool {
        match self {
            PqDeriver::Narrow(image) => image.wf(),
            PqDeriver::Wide(image) => image.wf(),
        }
    }

    /// The narrow image, if this is one.
    pub fn narrow(&self) -> (image: Option<&PqNarrow<N>>)
        ensures
            match *self {
                PqDeriver::Narrow(held) => image == Some(&held),
                PqDeriver::Wide(_) => image is None,
            },
    {
        match self {
            PqDeriver::Narrow(image) => Some(image),
            PqDeriver::Wide(_) => None,
        }
    }

    /// The wide image, if this is one.
    pub fn wide(&self) -> (image: Option<&PqWide<W>>)
        ensures
            match *self {
                PqDeriver::Wide(held) => image == Some(&held),
                PqDeriver::Narrow(_) => image is None,
            },
    {
        match self {
            PqDeriver::Wide(image) => Some(image),
            PqDeriver::Narrow(_) => None,
        }
    }
}

impl<
    N: Quantizer<EMBEDDING_LENGTH, QUANTIZED_16_EMBEDDING_LENGTH>,
    W: Quantizer<EMBEDDING_LENGTH, QUANTIZED_32_EMBEDDING_LENGTH>,
> Deriver for PqDeriver<N, W> {
    type From = Embedding;

    /// Feeds the image, which stays of its kind.
    fn concatenate_derived(&mut self, loader: SequentialVectorLoader<'_, Embedding>) -> (r: Result<
        (),
        DeriveError,
    >)
        ensures
            match (*old(self), *final(self)) {
                (PqDeriver::Narrow(before), PqDeriver::Narrow(after)) => PqNarrow::<N>::took_in(
                    before,
                    after,
                    loader.remaining(),
                    r,
                ),
                (PqDeriver::Wide(before), PqDeriver::Wide(after)) => PqWide::<W>::took_in(
                    before,
                    after,
                    loader.remaining(),
                    r,
                ),
                _ => false,
            },
    {
        match self {
            PqDeriver::Narrow(image) => image.concatenate_derived(loader),
            PqDeriver::Wide(image) => image.concatenate_derived(loader),
        }
    }

    /// Cuts the image down, which stays of its kind.
    fn truncate_derived(&mut self, len: usize)
        ensures
            match (*old(self), *final(self)) {
                (PqDeriver::Narrow(before), PqDeriver::Narrow(after)) => PqNarrow::<N>::cut_down(
                    before,
                    after,
                    len,
                ),
                (PqDeriver::Wide(before), PqDeriver::Wide(after)) => PqWide::<W>::cut_down(
                    before,
                    after,
                    len,
                ),
                _ => false,
            },
    {
        match self {
            PqDeriver::Narrow(image) => image.truncate_derived(len),
            PqDeriver::Wide(image) => image.truncate_derived(len),
        }
    }

    fn derived_type(&self) -> (kind: DerivedType)
        ensures
            kind == match *self {
                PqDeriver::Narrow(_) => DerivedType {
                    centroid_width: CENTROID_16_LENGTH,
                    quantized_length: QUANTIZED_16_EMBEDDING_LENGTH,
                },
                PqDeriver::Wide(_) => DerivedType {
                    centroid_width: CENTROID_32_LENGTH,
                    quantized_length: QUANTIZED_32_EMBEDDING_LENGTH,
                },
            },
    {
        match self {
            PqDeriver::Narrow(image) => image.derived_type(),
            PqDeriver::Wide(image) => image.derived_type(),
        }
    }
}

/// A deriver as a domain keeps it.
pub struct Registered<D> {
    /// The name under which the deriver was registered.
    pub name: String,
    /// The kind of records it derives, as it reported when it was registered.
    pub derived_type: DerivedType,
    /// The number of records that the domain held when the deriver was registered.
    pub base: usize,
    /// The number of records that the domain has fed to the deriver since,
    /// in appends that succeeded.
    pub derived: usize,
    /// The deriver.
    pub deriver: D,
}

/// What a domain records of a registered deriver.
pub struct Registration {
    /// The name under which the deriver was registered.
    pub name: Seq<char>,
    /// The kind of records it derives.
    pub derived_type: DerivedType,
    /// The number of records that the domain held when the deriver was registered.
    pub base: nat,
    /// The number of records that the domain has fed to the deriver since,
    /// in appends that succeeded.
    pub derived: nat,
}

/// What a domain records of one deriver.
pub open spec fn registration<D>(entry: Registered<D>) -> Registration {
    Registration {
        name: entry.name@,
        derived_type: entry.derived_type,
        base: entry.base as nat,
        derived: entry.derived as nat,
    }
}

/// No name is registered twice.
pub open spec fn names_distinct(registry: Seq<Registration>) -> bool {
    forall|i: int, j: int|
        0 <= i < registry.len() && 0 <= j < registry.len() && i != j ==> (
        #[trigger] registry[i]).name != (#[trigger] registry[j]).name
}

/// Whether `i` is one of the first `count` positions of a list.
pub open spec fn position_below(i: int, count: int) -> bool {
    0 <= i < count
}

/// The reference `fed` is to the deriver `before`, and `loader` holds
/// `source`, to be handed out in chunks of the positive size that `before`
/// asks for.
pub open spec fn offered<T: Copy, D: Deriver<From = T>>(
    fed: &mut D,
    loader: SequentialVectorLoader<T>,
    before: D,
    source: Seq<T>,
) -> bool {
    &&& *fed == before
    &&& loader.remaining() == source
    &&& loader.chunk_len() > 0
    &&& call_ensures(D::chunk_size, (&before,), loader.chunk_len())
}

/// Whether a name is registered.
pub open spec fn registered(registry: Seq<Registration>, name: Seq<char>) -> bool {
    exists|i: int| 0 <= i < registry.len() && (#[trigger] registry[i]).name == name
}

/// The counts on record agree with a primary store of `count` records: for
/// every deriver, the records that the store held at its registration and
/// the records fed to it since make `count`. This speaks of what the domain
/// has on record, not of what a deriver holds in a store of its own.
pub open spec fn counts_agree(registry: Seq<Registration>, count: nat) -> bool {
    forall|i: int|
        0 <= i < registry.len() ==> (#[trigger] registry[i]).derived + registry[i].base == count
}

/// The registry `before` with `grown` more records on record as fed to every deriver.
pub open spec fn grown_by(before: Seq<Registration>, grown: nat) -> Seq<Registration> {
    Seq::new(
        before.len(),
        |i: int|
            Registration {
                name: before[i].name,
                derived_type: before[i].derived_type,
                base: before[i].base,
                derived: before[i].derived + grown,
            },
    )
}

/// A named append-only store of vectors with the derivers registered on it.
pub struct Domain<T, D> {
    name: String,
    file: VectorFile<T>,
    derived_domains: Vec<Registered<D>>,
}

impl<T, D> Domain<T, D> {
    /// The domain's name.
    pub closed spec fn name_view(&self) -> Seq<char> {
        self.name@
    }

    /// The records of the primary store.
    pub closed spec fn records(&self) -> Seq<T> {
        self.file@
    }

    /// What the domain records of its derivers, in the order of their registration.
    pub closed spec fn registry(&self) -> Seq<Registration> {
        Seq::new(self.derived_domains@.len(), |i: int| registration(self.derived_domains@[i]))
    }

    /// The primary store.
    pub closed spec fn store(&self) -> VectorFile<T> {
        self.file
    }

    /// The registered derivers, in the order of their registration.
    pub closed spec fn derivers(&self) -> Seq<D> {
        Seq::new(self.derived_domains@.len(), |i: int| self.derived_domains@[i].deriver)
    }

    /// Whether a deriver is registered under a name.
    pub open spec fn has_derived(&self, name: Seq<char>) -> bool {
        registered(self.registry(), name)
    }

    /// Names are registered once, and the counts on record agree with the
    /// primary store.
    pub open spec fn wf(&self) -> bool {
        &&& names_distinct(self.registry())
        &&& counts_agree(self.registry(), self.records().len())
    }

    /// In a well-formed domain the count on record for a deriver is never
    /// behind the primary store: it is the number of records that the store
    /// took in since the deriver was registered. Every operation that changes
    /// a domain leaves it well formed, whether it succeeds or fails. What a
    /// deriver itself holds after an append is stated by `concatenate_file`.
    pub proof fn lemma_counts_on_record(&self, i: int)
        requires
            self.wf(),
            0 <= i < self.registry().len(),
        ensures
            self.registry()[i].base + self.registry()[i].derived == self.records().len(),
            self.registry()[i].base <= self.records().len(),
    {
    }

    /// The primary store holds the domain's records.
    pub proof fn lemma_store_holds_records(&self)
        ensures
            self.store()@ == self.records(),
    {
    }

    /// The domain has something on record for each of its derivers.
    pub proof fn lemma_one_registration_each(&self)
        ensures
            self.derivers().len() == self.registry().len(),
    {
    }
}

impl<T: Copy, D: Deriver<From = T>> Domain<T, D> {
    /// The domain `name` over the records that its file holds, with no deriver registered.
    pub fn open(name: &str, file: VectorFile<T>) -> (domain: Self)
        ensures
            domain.wf(),
            domain.name_view() == name@,
            domain.records() == file@,
            domain.registry().len() == 0,
    {
        Domain { name: String::from_str(name), file, derived_domains: Vec::new() }
    }

    /// The domain's name.
    pub fn name(&self) -> (name: &str)
        ensures
            name@ == self.name_view(),
    {
        self.name.as_str()
    }

    /// The number of records in the primary store.
    pub fn num_vecs(&self) -> (n: usize)
        ensures
            n == self.records().len(),
    {
        self.file.num_vecs()
    }

    /// The primary store.
    pub fn file(&self) -> (file: &VectorFile<T>)
        ensures
            *file == self.store(),
            file@ == self.records(),
    {
        &self.file
    }

    /// A read-only handle on the primary store.
    pub fn immutable_file(&self) -> (handle: ImmutableVectorFile<'_, T>)
        ensures
            handle@ == self.records(),
    {
        self.file.as_immutable()
    }

    /// The record under an identifier; refused unless the identifier is below the count.
    pub fn vec(&self, id: usize) -> (r: Result<T, StoreError>)
        ensures
            id < self.records().len() ==> r == Ok::<T, StoreError>(self.records()[id as int]),
            id >= self.records().len() ==> r == Err::<T, StoreError>(
                StoreError::OutOfRange { index: id, count: self.records().len() as usize },
            ),
    {
        self.file.vec(id)
    }

    /// The records of a half-open range of identifiers; refused unless the
    /// range lies within the store.
    pub fn vec_range(&self, range: Range<usize>) -> (r: Result<LoadedVectorRange<T>, StoreError>)
        ensures
            range.start <= range.end <= self.records().len() ==> r is Ok && r->Ok_0@
                == self.records().subrange(range.start as int, range.end as int),
            !(range.start <= range.end <= self.records().len()) ==> r == Err::<
                Vec<T>,
                StoreError,
            >(
                StoreError::BadRange {
                    start: range.start,
                    end: range.end,
                    count: self.records().len() as usize,
                },
            ),
    {
        self.file.vector_range(range)
    }

    /// All records of the primary store, in order.
    pub fn all_vecs(&self) -> (all: LoadedVectorRange<T>)
        ensures
            all@ == self.records(),
    {
        self.file.all_vectors()
    }

    /// A pass over the primary store in chunks of `chunk_size`; refused for a
    /// chunk size of zero.
    pub fn vector_chunks(&self, chunk_size: usize) -> (r: Result<
        SequentialVectorLoader<'_, T>,
        StoreError,
    >)
        ensures
            chunk_size > 0 ==> r is Ok && r->Ok_0.remaining() == self.records()
                && r->Ok_0.chunk_len() == chunk_size,
            chunk_size == 0 ==> r is Err && r->Err_0 == StoreError::EmptyChunk,
    {
        self.file.vector_chunks(chunk_size)
    }

    /// The position at which a name is registered, if it is.
    fn find(&self, name: &String) -> (found: Option<usize>)
        ensures
            found is Some <==> self.has_derived(name@),
            found matches Some(i) ==> i < self.registry().len() && self.registry()[i as int].name
                == name@,
    {
        let mut i: usize = 0;
        while i < self.derived_domains.len()
            invariant
                i <= self.derived_domains@.len(),
                forall|j: int| 0 <= j < i ==> (#[trigger] self.registry()[j]).name != name@,
            decreases self.derived_domains.len() - i,
        {
            if self.derived_domains[i].name == *name {
                assert(self.registry()[i as int].name == name@);
                return Some(i);
            }
            assert(self.registry()[i as int].name != name@);
            i = i + 1;
        }
        None
    }

    /// The deriver registered under `name`, for a caller that expects it to
    /// derive records of the kind `expected`. An unknown name and a deriver of
    /// another kind are told apart.
    pub fn derived_domain(&self, name: &str, expected: DerivedType) -> (r: Result<&D, DomainError>)
        ensures
            match r {
                Ok(deriver) => exists|i: int|
                    0 <= i < self.registry().len() && (#[trigger] self.registry()[i]).name == name@
                        && self.registry()[i].derived_type == expected && *deriver
                        == self.derivers()[i],
                Err(DomainError::UnknownDerived) => !self.has_derived(name@),
                Err(DomainError::DerivedTypeMismatch) => exists|i: int|
                    0 <= i < self.registry().len() && (#[trigger] self.registry()[i]).name == name@
                        && self.registry()[i].derived_type != expected,
                Err(_) => false,
            },
    {
        let key = String::from_str(name);
        match self.find(&key) {
            None => Err(DomainError::UnknownDerived),
            Some(i) => {
                let entry = &self.derived_domains[i];
                assert(self.registry()[i as int].derived_type == entry.derived_type);
                assert(self.derivers()[i as int] == entry.deriver);
                if entry.derived_type == expected {
                    Ok(&entry.deriver)
                } else {
                    Err(DomainError::DerivedTypeMismatch)
                }
            },
        }
    }

    /// Trains a deriver on the vectors of the domain and registers it under
    /// `name`, as having taken in nothing yet. Refused if the name is taken; a
    /// failed training registers nothing.
    pub fn create_derived<N: NewDeriver<T = T, Deriver = D>>(
        &mut self,
        name: String,
        deriver: N,
    ) -> (r: Result<(), DomainError>)
        requires
            old(self).wf(),
        ensures
            final(self).wf(),
            final(self).name_view() == old(self).name_view(),
            final(self).records() == old(self).records(),
            old(self).has_derived(name@) ==> r == Err::<(), DomainError>(
                DomainError::DuplicateDerived,
            ),
            !old(self).has_derived(name@) ==> (r is Ok || r matches Err(
                DomainError::Training(_),
            )),
            r is Err ==> final(self).registry() == old(self).registry() && final(self).derivers()
                == old(self).derivers(),
            r is Ok ==> {
                let entry = final(self).registry().last();
                let trained = final(self).derivers().last();
                &&& final(self).registry() == old(self).registry().push(entry)
                &&& entry.name == name@
                &&& entry.base == old(self).records().len()
                &&& entry.derived == 0
                &&& final(self).derivers().drop_last() == old(self).derivers()
                &&& call_ensures(D::derived_type, (&trained,), entry.derived_type)
                &&& exists|directory: &str|
                    directory@ == derived_path(old(self).name_view(), name@)
                        && #[trigger] call_ensures(
                        N::new,
                        (&deriver, directory, &old(self).store()),
                        Ok::<D, TrainingError>(trained),
                    )
            },
            r matches Err(DomainError::Training(e)) ==> exists|directory: &str|
                directory@ == derived_path(old(self).name_view(), name@)
                    && #[trigger] call_ensures(
                    N::new,
                    (&deriver, directory, &old(self).store()),
                    Err::<D, TrainingError>(e),
                ),
    {
        if self.find(&name).is_some() {
            return Err(DomainError::DuplicateDerived);
        }
        let directory = derived_path_name(self.name.as_str(), name.as_str());
        let place: &str = directory.as_str();
        let outcome = deriver.new(place, &self.file);
        assert(call_ensures(N::new, (&deriver, place, &old(self).store()), outcome));
        match outcome {
            Err(e) => Err(DomainError::Training(e)),
            Ok(trained) => {
                let derived_type = trained.derived_type();
                let base: usize = self.file.num_vecs();
                let entry = Registered { name, derived_type, base, derived: 0, deriver: trained };
                self.derived_domains.push(entry);
                proof {
                    let added = registration(entry);
                    assert(final(self).registry() =~= old(self).registry().push(added));
                    assert(final(self).derivers().drop_last() =~= old(self).derivers());
                    assert(final(self).derivers().last() == trained);
                    assert(call_ensures(
                        N::new,
                        (&deriver, place, &old(self).store()),
                        Ok::<D, TrainingError>(final(self).derivers().last()),
                    ));
                    assert forall|i: int, j: int|
                        0 <= i < final(self).registry().len()
                            && 0 <= j < final(self).registry().len() && i != j implies (
                    #[trigger] final(self).registry()[i]).name != (
                    #[trigger] final(self).registry()[j]).name by {
                        if i < old(self).registry().len() {
                            assert(final(self).registry()[i] == old(self).registry()[i]);
                        }
                        if j < old(self).registry().len() {
                            assert(final(self).registry()[j] == old(self).registry()[j]);
                        }
                    }
                }
                Ok(())
            },
        }
    }

    /// Cuts the derivers up to and including position `torn` back to the
    /// number of records that the domain has on record for them: each of
    /// them is as `truncate_derived` leaves it when asked for that number.
    /// The later derivers, and what the domain has on record, are untouched.
    fn roll_back(&mut self, torn: usize)
        requires
            torn < old(self).registry().len(),
        ensures
            final(self).name_view() == old(self).name_view(),
            final(self).records() == old(self).records(),
            final(self).registry() == old(self).registry(),
            final(self).derivers().len() == old(self).derivers().len(),
            forall|i: int|
                torn < i < old(self).derivers().len() ==> (#[trigger] final(self).derivers()[i])
                    == old(self).derivers()[i],
            forall|i: int| #[trigger]
                position_below(i, torn + 1) ==> exists|cut: &mut D|
                    *cut == old(self).derivers()[i] && *final(cut) == final(self).derivers()[i]
                        && #[trigger] call_ensures(
                        D::truncate_derived,
                        (cut, old(self).registry()[i].derived as usize),
                        (),
                    ),
    {
        let mut k: usize = 0;
        while k <= torn
            invariant
                k <= torn + 1,
                torn < self.derived_domains@.len(),
                self.name == old(self).name,
                self.file == old(self).file,
                self.registry() == old(self).registry(),
                self.derived_domains@.len() == old(self).derived_domains@.len(),
                forall|i: int|
                    k <= i < self.derived_domains@.len() ==> (
                    #[trigger] self.derived_domains@[i]).deriver == old(self).derivers()[i],
                forall|i: int| #[trigger]
                    position_below(i, k as int) ==> exists|cut: &mut D|
                        *cut == old(self).derivers()[i] && *final(cut)
                            == self.derived_domains@[i].deriver && #[trigger] call_ensures(
                            D::truncate_derived,
                            (cut, old(self).registry()[i].derived as usize),
                            (),
                        ),
            decreases torn + 1 - k,
        {
            let ghost held = self.derived_domains@;
            let count: usize = self.derived_domains.len();
            let derived: usize = self.derived_domains[k].derived;
            assert(derived == old(self).registry()[k as int].derived) by {
                assert(self.registry()[k as int] == registration(held[k as int]));
            }
            assert(held[k as int].deriver == old(self).derivers()[k as int]);
            self.derived_domains[k].deriver.truncate_derived(derived);
            assert(self.registry() =~= old(self).registry()) by {
                assert forall|i: int| 0 <= i < count implies registration(
                    self.derived_domains@[i],
                ) == registration(held[i]) by {}
            }
            assert forall|i: int| 0 <= i < count && i != k implies self.derived_domains@[i]
                == held[i] by {}
            assert((old(self).registry()[k as int].derived as usize) == derived);
            assert forall|i: int| #[trigger] position_below(i, k + 1) implies exists|cut: &mut D|
                *cut == old(self).derivers()[i] && *final(cut) == self.derived_domains@[i].deriver
                    && #[trigger] call_ensures(
                    D::truncate_derived,
                    (cut, old(self).registry()[i].derived as usize),
                    (),
                ) by {
                if i < k {
                    assert(position_below(i, k as int));
                    let cut = choose|cut: &mut D|
                        *cut == old(self).derivers()[i] && *final(cut) == held[i].deriver
                            && #[trigger] call_ensures(
                            D::truncate_derived,
                            (cut, old(self).registry()[i].derived as usize),
                            (),
                        );
                    assert(self.derived_domains@[i] == held[i]);
                    assert(*final(cut) == self.derived_domains@[i].deriver);
                }
            }
            k = k + 1;
        }
        assert forall|i: int| #[trigger] position_below(i, torn + 1) implies exists|cut: &mut D|
            *cut == old(self).derivers()[i] && *final(cut) == final(self).derivers()[i]
                && #[trigger] call_ensures(
                D::truncate_derived,
                (cut, old(self).registry()[i].derived as usize),
                (),
            ) by {
            assert(position_below(i, k as int));
            let cut = choose|cut: &mut D|
                *cut == old(self).derivers()[i] && *final(cut) == self.derived_domains@[i].deriver
                    && #[trigger] call_ensures(
                    D::truncate_derived,
                    (cut, old(self).registry()[i].derived as usize),
                    (),
                );
            assert(final(self).derivers()[i] == self.derived_domains@[i].deriver);
            assert(*final(cut) == final(self).derivers()[i]);
        }
    }

    /// Appends all records of `source` to the domain and returns the
    /// half-open range of identifiers given to them. Every registered deriver
    /// is fed the new records first, in the order of registration and in
    /// chunks of the size it asks for; the primary store grows only once all
    /// of them have taken the records in, and only then are they on record as
    /// taken in. If a deriver refuses, or asks for chunks of no records, its
    /// error is returned, it and every deriver fed before it are cut back to
    /// the number of records on record for them, the later derivers are not
    /// fed, and the primary store and the registry are as before.
    pub fn concatenate_file(&mut self, source: &VectorFile<T>) -> (r: Result<
        (usize, usize),
        DomainError,
    >)
        requires
            old(self).wf(),
        ensures
            final(self).wf(),
            final(self).name_view() == old(self).name_view(),
            final(self).derivers().len() == old(self).derivers().len(),
            match r {
                Ok((first, end)) => {
                    &&& first == old(self).records().len()
                    &&& end == first + source@.len()
                    &&& final(self).records() == old(self).records() + source@
                    &&& final(self).registry() == grown_by(old(self).registry(), source@.len())
                },
                Err(DomainError::Derive(_)) => {
                    &&& final(self).records() == old(self).records()
                    &&& final(self).registry() == old(self).registry()
                },
                Err(_) => false,
            },
            old(self).registry().len() == 0 ==> r is Ok,
            r is Ok ==> forall|i: int| #[trigger]
                position_below(i, old(self).derivers().len() as int) ==> exists|
                    fed: &mut D,
                    loader: SequentialVectorLoader<T>,
                |
                    {
                        &&& offered(fed, loader, old(self).derivers()[i], source@)
                        &&& *final(fed) == final(self).derivers()[i]
                        &&& #[trigger] call_ensures(
                            D::concatenate_derived,
                            (fed, loader),
                            Ok::<(), DeriveError>(()),
                        )
                    },
            r matches Err(DomainError::Derive(e)) ==> exists|at: int|
                {
                    &&& #[trigger] position_below(at, old(self).derivers().len() as int)
                    &&& {
                        ||| {
                            &&& e == DeriveError::EmptyChunk
                            &&& call_ensures(
                                D::chunk_size,
                                (&old(self).derivers()[at],),
                                0usize,
                            )
                            &&& exists|cut: &mut D|
                                {
                                    &&& *cut == old(self).derivers()[at]
                                    &&& *final(cut) == final(self).derivers()[at]
                                    &&& #[trigger] call_ensures(
                                        D::truncate_derived,
                                        (cut, old(self).registry()[at].derived as usize),
                                        (),
                                    )
                                }
                        }
                        ||| exists|
                            fed: &mut D,
                            loader: SequentialVectorLoader<T>,
                        |
                            {
                                &&& offered(fed, loader, old(self).derivers()[at], source@)
                                &&& #[trigger] call_ensures(
                                    D::concatenate_derived,
                                    (fed, loader),
                                    Err::<(), DeriveError>(e),
                                )
                                &&& exists|cut: &mut D|
                                    {
                                        &&& *cut == *final(fed)
                                        &&& *final(cut) == final(self).derivers()[at]
                                        &&& #[trigger] call_ensures(
                                            D::truncate_derived,
                                            (cut, old(self).registry()[at].derived as usize),
                                            (),
                                        )
                                    }
                            }
                    }
                    &&& forall|j: int|
                        at < j < old(self).derivers().len() ==> (
                        #[trigger] final(self).derivers()[j]) == old(self).derivers()[j]
                    &&& forall|j: int| #[trigger]
                        position_below(j, at) ==> exists|
                            fed: &mut D,
                            loader: SequentialVectorLoader<T>,
                        |
                            {
                                &&& offered(fed, loader, old(self).derivers()[j], source@)
                                &&& #[trigger] call_ensures(
                                    D::concatenate_derived,
                                    (fed, loader),
                                    Ok::<(), DeriveError>(()),
                                )
                                &&& exists|cut: &mut D|
                                    {
                                        &&& *cut == *final(fed)
                                        &&& *final(cut) == final(self).derivers()[j]
                                        &&& #[trigger] call_ensures(
                                            D::truncate_derived,
                                            (cut, old(self).registry()[j].derived as usize),
                                            (),
                                        )
                                    }
                            }
                },
    {
        let old_size: usize = self.file.num_vecs();
        let count: usize = self.derived_domains.len();
        let mut i: usize = 0;
        while i < count
            invariant
                i <= count,
                old(self).wf(),
                count == self.derived_domains@.len(),
                count == old(self).derivers().len(),
                self.name == old(self).name,
                self.file == old(self).file,
                self.registry() == old(self).registry(),
                forall|j: int|
                    i <= j < count ==> (#[trigger] self.derived_domains@[j]).deriver
                        == old(self).derivers()[j],
                forall|j: int| #[trigger]
                    position_below(j, i as int) ==> exists|
                        fed: &mut D,
                        loader: SequentialVectorLoader<T>,
                    |
                        {
                            &&& offered(fed, loader, old(self).derivers()[j], source@)
                            &&& *final(fed) == self.derived_domains@[j].deriver
                            &&& #[trigger] call_ensures(
                                D::concatenate_derived,
                                (fed, loader),
                                Ok::<(), DeriveError>(()),
                            )
                        },
            decreases count - i,
        {
            let ghost held = self.derived_domains@;
            assert(held[i as int].deriver == old(self).derivers()[i as int]);
            let chunk_size: usize = self.derived_domains[i].deriver.chunk_size();
            if chunk_size == 0 {
                self.roll_back(i);
                proof {
                    let at = i as int;
                    assert(position_below(at, old(self).derivers().len() as int));
                    assert(position_below(at, i + 1));
                    assert(final(self).derivers()[at] == self.derived_domains@[at].deriver);
                    assert(exists|cut: &mut D|
                        {
                            &&& *cut == old(self).derivers()[at]
                            &&& *final(cut) == final(self).derivers()[at]
                            &&& #[trigger] call_ensures(
                                D::truncate_derived,
                                (cut, old(self).registry()[at].derived as usize),
                                (),
                            )
                        }) by {
                        let cut = choose|cut: &mut D|
                            {
                                &&& *cut == held[at].deriver
                                &&& *final(cut) == self.derived_domains@[at].deriver
                                &&& #[trigger] call_ensures(
                                    D::truncate_derived,
                                    (cut, old(self).registry()[at].derived as usize),
                                    (),
                                )
                            };
                        assert(*final(cut) == final(self).derivers()[at]);
                    }
                    assert forall|j: int| #[trigger]
                        position_below(j, at) implies
                        exists|
                            fed: &mut D,
                            loader: SequentialVectorLoader<T>,
                        |
                            {
                                &&& offered(fed, loader, old(self).derivers()[j], source@)
                                &&& #[trigger] call_ensures(
                                    D::concatenate_derived,
                                    (fed, loader),
                                    Ok::<(), DeriveError>(()),
                                )
                                &&& exists|cut: &mut D|
                                    {
                                        &&& *cut == *final(fed)
                                        &&& *final(cut) == final(self).derivers()[j]
                                        &&& #[trigger] call_ensures(
                                            D::truncate_derived,
                                            (cut, old(self).registry()[j].derived as usize),
                                            (),
                                        )
                                    }
                            } by {
                        assert(position_below(j, i + 1));
                        let (fed, loader) = choose|
                            fed: &mut D,
                            loader: SequentialVectorLoader<T>,
                        |
                            {
                                &&& offered(fed, loader, old(self).derivers()[j], source@)
                                &&& *final(fed) == held[j].deriver
                                &&& #[trigger] call_ensures(
                                    D::concatenate_derived,
                                    (fed, loader),
                                    Ok::<(), DeriveError>(()),
                                )
                            };
                        let cut = choose|cut: &mut D|
                            {
                                &&& *cut == held[j].deriver
                                &&& *final(cut) == self.derived_domains@[j].deriver
                                &&& #[trigger] call_ensures(
                                    D::truncate_derived,
                                    (cut, old(self).registry()[j].derived as usize),
                                    (),
                                )
                            };
                        assert(final(self).derivers()[j] == self.derived_domains@[j].deriver);
                        assert(*cut == *final(fed) && *final(cut) == final(self).derivers()[j]);
                    }
                    assert forall|j: int| at < j < old(self).derivers().len() implies (
                    #[trigger] final(self).derivers()[j]) == old(self).derivers()[j] by {
                        assert(final(self).derivers()[j] == self.derived_domains@[j].deriver);
                        assert(held[j].deriver == old(self).derivers()[j]);
                    }
                }
                return Err(DomainError::Derive(DeriveError::EmptyChunk));
            }
            let loader = source.chunks_of(chunk_size);
            let fed = self.derived_domains[i].deriver.concatenate_derived(loader);
            let ghost given = self.derived_domains@;
            assert(self.registry() =~= old(self).registry()) by {
                assert forall|j: int| 0 <= j < count implies registration(
                    self.derived_domains@[j],
                ) == registration(held[j]) by {}
            }
            assert forall|j: int| 0 <= j < count && j != i implies self.derived_domains@[j]
                == held[j] by {}
            match fed {
                Ok(done) => {
                    let ghost at = i as int;
                    assert(done == ());
                    assert(exists|
                        fed: &mut D,
                        loader: SequentialVectorLoader<T>,
                    |
                        {
                            &&& offered(fed, loader, old(self).derivers()[at], source@)
                            &&& *final(fed) == self.derived_domains@[at].deriver
                            &&& #[trigger] call_ensures(
                                D::concatenate_derived,
                                (fed, loader),
                                Ok::<(), DeriveError>(()),
                            )
                        });
                    assert forall|j: int| #[trigger]
                        position_below(j, i + 1) implies
                        exists|
                            fed: &mut D,
                            loader: SequentialVectorLoader<T>,
                        |
                            {
                                &&& offered(fed, loader, old(self).derivers()[j], source@)
                                &&& *final(fed) == self.derived_domains@[j].deriver
                                &&& #[trigger] call_ensures(
                                    D::concatenate_derived,
                                    (fed, loader),
                                    Ok::<(), DeriveError>(()),
                                )
                            } by {
                        if j < i {
                            assert(position_below(j, i as int));
                            let (fed, loader) = choose|
                                fed: &mut D,
                                loader: SequentialVectorLoader<T>,
                            |
                                {
                                    &&& offered(fed, loader, old(self).derivers()[j], source@)
                                    &&& *final(fed) == held[j].deriver
                                    &&& #[trigger] call_ensures(
                                        D::concatenate_derived,
                                        (fed, loader),
                                        Ok::<(), DeriveError>(()),
                                    )
                                };
                            assert(*final(fed) == self.derived_domains@[j].deriver);
                        }
                    }
                },
                Err(e) => {
                    self.roll_back(i);
                    proof {
                        let at = i as int;
                        assert(position_below(at, old(self).derivers().len() as int));
                        assert(position_below(at, i + 1));
                        assert(final(self).derivers()[at] == self.derived_domains@[at].deriver);
                        assert(exists|
                            fed: &mut D,
                            loader: SequentialVectorLoader<T>,
                        |
                            {
                                &&& offered(fed, loader, old(self).derivers()[at], source@)
                                &&& #[trigger] call_ensures(
                                    D::concatenate_derived,
                                    (fed, loader),
                                    Err::<(), DeriveError>(e),
                                )
                                &&& exists|cut: &mut D|
                                    {
                                        &&& *cut == *final(fed)
                                        &&& *final(cut) == final(self).derivers()[at]
                                        &&& #[trigger] call_ensures(
                                            D::truncate_derived,
                                            (cut, old(self).registry()[at].derived as usize),
                                            (),
                                        )
                                    }
                            }) by {
                            let cut = choose|cut: &mut D|
                                {
                                    &&& *cut == given[at].deriver
                                    &&& *final(cut) == self.derived_domains@[at].deriver
                                    &&& #[trigger] call_ensures(
                                        D::truncate_derived,
                                        (cut, old(self).registry()[at].derived as usize),
                                        (),
                                    )
                                };
                            assert(*final(cut) == final(self).derivers()[at]);
                        }
                        assert forall|j: int| #[trigger]
                            position_below(j, at) implies
                            exists|
                                fed: &mut D,
                                loader: SequentialVectorLoader<T>,
                            |
                                {
                                    &&& offered(fed, loader, old(self).derivers()[j], source@)
                                    &&& #[trigger] call_ensures(
                                        D::concatenate_derived,
                                        (fed, loader),
                                        Ok::<(), DeriveError>(()),
                                    )
                                    &&& exists|cut: &mut D|
                                        {
                                            &&& *cut == *final(fed)
                                            &&& *final(cut) == final(self).derivers()[j]
                                            &&& #[trigger] call_ensures(
                                                D::truncate_derived,
                                                (cut, old(self).registry()[j].derived as usize),
                                                (),
                                            )
                                        }
                                } by {
                            assert(position_below(j, i + 1));
                            let (fed, loader) = choose|
                                fed: &mut D,
                                loader: SequentialVectorLoader<T>,
                            |
                                {
                                    &&& offered(fed, loader, old(self).derivers()[j], source@)
                                    &&& *final(fed) == held[j].deriver
                                    &&& #[trigger] call_ensures(
                                        D::concatenate_derived,
                                        (fed, loader),
                                        Ok::<(), DeriveError>(()),
                                    )
                                };
                            let cut = choose|cut: &mut D|
                                {
                                    &&& *cut == given[j].deriver
                                    &&& *final(cut) == self.derived_domains@[j].deriver
                                    &&& #[trigger] call_ensures(
                                        D::truncate_derived,
                                        (cut, old(self).registry()[j].derived as usize),
                                        (),
                                    )
                                };
                            assert(given[j] == held[j]);
                            assert(final(self).derivers()[j] == self.derived_domains@[j].deriver);
                            assert(*cut == *final(fed) && *final(cut) == final(self).derivers()[j]);
                        }
                        assert forall|j: int| at < j < old(self).derivers().len() implies (
                        #[trigger] final(self).derivers()[j]) == old(self).derivers()[j] by {
                            assert(final(self).derivers()[j] == self.derived_domains@[j].deriver);
                            assert(given[j] == held[j]);
                        }
                    }
                    return Err(DomainError::Derive(e));
                },
            }
            i = i + 1;
        }
        let new_size: usize = self.file.append_vector_file(source);
        let mut k: usize = 0;
        while k < count
            invariant
                k <= count,
                count == self.derived_domains@.len(),
                count == old(self).registry().len(),
                count == old(self).derivers().len(),
                self.name == old(self).name,
                self.file@ == old(self).file@ + source@,
                new_size == old(self).file@.len() + source@.len(),
                old(self).wf(),
                forall|j: int| #[trigger]
                    position_below(j, count as int) ==> exists|
                        fed: &mut D,
                        loader: SequentialVectorLoader<T>,
                    |
                        {
                            &&& offered(fed, loader, old(self).derivers()[j], source@)
                            &&& *final(fed) == self.derived_domains@[j].deriver
                            &&& #[trigger] call_ensures(
                                D::concatenate_derived,
                                (fed, loader),
                                Ok::<(), DeriveError>(()),
                            )
                        },
                forall|j: int|
                    0 <= j < count ==> {
                        &&& (#[trigger] self.registry()[j]).name == old(self).registry()[j].name
                        &&& self.registry()[j].derived_type == old(self).registry()[j].derived_type
                        &&& self.registry()[j].base == old(self).registry()[j].base
                        &&& j < k ==> self.registry()[j].derived == old(self).registry()[j].derived
                            + source@.len()
                        &&& j >= k ==> self.registry()[j].derived == old(self).registry()[j].derived
                    },
            decreases count - k,
        {
            let ghost held = self.derived_domains@;
            assert(old(self).registry()[k as int].derived + old(self).registry()[k as int].base
                == old(self).records().len());
            assert(self.registry()[k as int].base == held[k as int].base);
            let base: usize = self.derived_domains[k].base;
            self.derived_domains[k].derived = new_size - base;
            assert forall|j: int| 0 <= j < count implies {
                &&& (#[trigger] self.registry()[j]).name == old(self).registry()[j].name
                &&& self.registry()[j].derived_type == old(self).registry()[j].derived_type
                &&& self.registry()[j].base == old(self).registry()[j].base
                &&& j < k + 1 ==> self.registry()[j].derived == old(self).registry()[j].derived
                    + source@.len()
                &&& j >= k + 1 ==> self.registry()[j].derived == old(self).registry()[j].derived
            } by {
                let was = Seq::new(held.len(), |i: int| registration(held[i]));
                assert(was[j] == registration(held[j]));
                if j != k {
                    assert(self.derived_domains@[j] == held[j]);
                }
            }
            assert forall|j: int| #[trigger]
                position_below(j, count as int) implies
                exists|
                    fed: &mut D,
                    loader: SequentialVectorLoader<T>,
                |
                    {
                        &&& offered(fed, loader, old(self).derivers()[j], source@)
                        &&& *final(fed) == self.derived_domains@[j].deriver
                        &&& #[trigger] call_ensures(
                            D::concatenate_derived,
                            (fed, loader),
                            Ok::<(), DeriveError>(()),
                        )
                    } by {
                let (fed, loader) = choose|
                    fed: &mut D,
                    loader: SequentialVectorLoader<T>,
                |
                    {
                        &&& offered(fed, loader, old(self).derivers()[j], source@)
                        &&& *final(fed) == held[j].deriver
                        &&& #[trigger] call_ensures(
                            D::concatenate_derived,
                            (fed, loader),
                            Ok::<(), DeriveError>(()),
                        )
                    };
                assert(self.derived_domains@[j].deriver == held[j].deriver);
            }
            k = k + 1;
        }
        assert(self.registry() =~= grown_by(old(self).registry(), source@.len()));
        assert forall|j: int| #[trigger]
            position_below(j, old(self).derivers().len() as int) implies
            exists|
                fed: &mut D,
                loader: SequentialVectorLoader<T>,
            |
                {
                    &&& offered(fed, loader, old(self).derivers()[j], source@)
                    &&& *final(fed) == final(self).derivers()[j]
                    &&& #[trigger] call_ensures(
                        D::concatenate_derived,
                        (fed, loader),
                        Ok::<(), DeriveError>(()),
                    )
                } by {
            assert(position_below(j, count as int));
            let (fed, loader) = choose|
                fed: &mut D,
                loader: SequentialVectorLoader<T>,
            |
                {
                    &&& offered(fed, loader, old(self).derivers()[j], source@)
                    &&& *final(fed) == self.derived_domains@[j].deriver
                    &&& #[trigger] call_ensures(
                        D::concatenate_derived,
                        (fed, loader),
                        Ok::<(), DeriveError>(()),
                    )
                };
            assert(final(self).derivers()[j] == self.derived_domains@[j].deriver);
            assert(*final(fed) == final(self).derivers()[j]);
        }
        Ok((old_size, new_size))
    }
}

impl<
    N: Quantizer<EMBEDDING_LENGTH, QUANTIZED_16_EMBEDDING_LENGTH>,
    W: Quantizer<EMBEDDING_LENGTH, QUANTIZED_32_EMBEDDING_LENGTH>,
> Domain<Embedding, PqDeriver<N, W>> {
    /// Every image holds exactly as many records as the domain has on record
    /// as fed to it: one for each record that the primary store took in
    /// since the image was registered.
    pub open spec fn images_in_step(&self) -> bool {
        forall|i: int|
            0 <= i < self.registry().len() ==> (#[trigger] self.derivers()[i]).len()
                == self.registry()[i].derived
    }

    /// Appends as `concatenate_file` does. Images that were in step with the
    /// primary store are so afterwards, whether the append succeeds or
    /// fails: after a success every image holds `source.len()` records more,
    /// after a failure every image holds as many as before.
    pub fn concatenate_images(&mut self, source: &VectorFile<Embedding>) -> (r: Result<
        (usize, usize),
        DomainError,
    >)
        requires
            old(self).wf(),
            old(self).images_in_step(),
        ensures
            final(self).wf(),
            final(self).images_in_step(),
            final(self).derivers().len() == old(self).derivers().len(),
            r matches Ok((first, end)) ==> {
                &&& first == old(self).records().len()
                &&& end == first + source@.len()
                &&& final(self).records() == old(self).records() + source@
                &&& final(self).registry() == grown_by(old(self).registry(), source@.len())
                &&& forall|i: int|
                    0 <= i < old(self).derivers().len() ==> (
                    #[trigger] final(self).derivers()[i]).len() == old(self).derivers()[i].len()
                        + source@.len()
            },
            r is Err ==> {
                &&& final(self).records() == old(self).records()
                &&& final(self).registry() == old(self).registry()
                &&& forall|i: int|
                    0 <= i < old(self).derivers().len() ==> (
                    #[trigger] final(self).derivers()[i]).len() == old(self).derivers()[i].len()
            },
    {
        proof {
            self.lemma_one_registration_each();
        }
        let r = self.concatenate_file(source);
        proof {
            final(self).lemma_one_registration_each();
            let count = old(self).derivers().len() as int;
            match r {
                Ok(_) => {
                    assert forall|i: int| 0 <= i < count implies (
                    #[trigger] final(self).derivers()[i]).len() == old(self).derivers()[i].len()
                        + source@.len() by {
                        assert(position_below(i, count));
                    }
                },
                Err(DomainError::Derive(e)) => {
                    let at = choose|at: int|
                        {
                        &&& #[trigger] position_below(at, count)
                        &&& {
                            ||| {
                                &&& e == DeriveError::EmptyChunk
                                &&& call_ensures(
                                    PqDeriver::<N, W>::chunk_size,
                                    (&old(self).derivers()[at],),
                                    0usize,
                                )
                                &&& exists|cut: &mut PqDeriver<N, W>|
                                    {
                                        &&& *cut == old(self).derivers()[at]
                                        &&& *final(cut) == final(self).derivers()[at]
                                        &&& #[trigger] call_ensures(
                                            PqDeriver::<N, W>::truncate_derived,
                                            (cut, old(self).registry()[at].derived as usize),
                                            (),
                                        )
                                    }
                            }
                            ||| exists|
                                fed: &mut PqDeriver<N, W>,
                                loader: SequentialVectorLoader<Embedding>,
                            |
                                {
                                    &&& offered(fed, loader, old(self).derivers()[at], source@)
                                    &&& #[trigger] call_ensures(
                                        PqDeriver::<N, W>::concatenate_derived,
                                        (fed, loader),
                                        Err::<(), DeriveError>(e),
                                    )
                                    &&& exists|cut: &mut PqDeriver<N, W>|
                                        {
                                            &&& *cut == *final(fed)
                                            &&& *final(cut) == final(self).derivers()[at]
                                            &&& #[trigger] call_ensures(
                                                PqDeriver::<N, W>::truncate_derived,
                                                (cut, old(self).registry()[at].derived as usize),
                                                (),
                                            )
                                        }
                                }
                        }
                        &&& forall|j: int|
                            at < j < old(self).derivers().len() ==> (
                            #[trigger] final(self).derivers()[j]) == old(self).derivers()[j]
                        &&& forall|j: int| #[trigger]
                            position_below(j, at) ==> exists|
                                fed: &mut PqDeriver<N, W>,
                                loader: SequentialVectorLoader<Embedding>,
                            |
                                {
                                    &&& offered(fed, loader, old(self).derivers()[j], source@)
                                    &&& #[trigger] call_ensures(
                                        PqDeriver::<N, W>::concatenate_derived,
                                        (fed, loader),
                                        Ok::<(), DeriveError>(()),
                                    )
                                    &&& exists|cut: &mut PqDeriver<N, W>|
                                        {
                                            &&& *cut == *final(fed)
                                            &&& *final(cut) == final(self).derivers()[j]
                                            &&& #[trigger] call_ensures(
                                                PqDeriver::<N, W>::truncate_derived,
                                                (cut, old(self).registry()[j].derived as usize),
                                                (),
                                            )
                                        }
                                }
                    };
                    assert forall|i: int| 0 <= i < count implies (
                    #[trigger] final(self).derivers()[i]).len()
                        == old(self).derivers()[i].len() by {
                        assert(old(self).derivers()[i].len() == old(self).registry()[i].derived);
                        if i < at {
                            assert(position_below(i, at));
                        }
                    }
                },
                Err(_) => {},
            }
        }
        r
    }
}

impl<T: Copy, D: Deriver<From = T>> GenericDomain for Domain<T, D> {
    fn name(&self) -> (name: &str)
        ensures
            name@ == self.name_view(),
    {
        self.name.as_str()
    }

    fn num_vecs(&self) -> (n: usize)
        ensures
            n == self.records().len(),
    {
        self.file.num_vecs()
    }
}

} // verus!
