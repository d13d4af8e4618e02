//! The contract that every distance space offers to an index built over it.
use crate::codec::FormatError;
use vstd::prelude::*;

verus! {

/// The position of a record in the collection that handed the identifier out.
#[derive(Debug, Clone, Copy, PartialEq, Eq, Structural)]
pub struct VectorId(pub usize);

/// One side of a comparison: a record of the collection, or a value held by the caller.
pub enum AbstractVector<'a, T> {
    /// The record stored under an identifier.
    Stored(VectorId),
    /// A value that the collection does not hold.
    Unstored(&'a T),
}

/// Why a persisted comparator could not be read back.
#[derive(Debug, Clone, Copy, PartialEq, Eq, Structural)]
pub enum SerializationError {
    /// An artifact does not hold a whole number of records.
    Format(FormatError),
    /// The pair table of so many centroids cannot be addressed on this machine.
    TableTooLarge { centroids: usize },
    /// A quantized record names a centroid that the vocabulary does not have.
    UnknownCentroid { record: usize, position: usize },
}

/// A space of records with a dissimilarity score.
///
/// `scores` says which values the space may give as the score of two records;
/// `compare_raw` returns one of them.
pub trait Comparator {
    /// The records of the space.
    type T;

    /// The invariant of the space's representation.
    spec fn inv(&self) -> bool;

    /// How many records the space stores.
    spec fn count(&self) -> nat;

    /// The record stored at a position below `count`.
    spec fn stored(&self, position: int) -> Self::T;

    /// Whether a record can be compared in this space.
    spec fn admits(&self, record: Self::T) -> bool;

    /// Whether `d` is a score of two records that the space admits.
    spec fn scores(&self, a: Self::T, b: Self::T, d: u32) -> bool;

    /// Hands out the record stored under an identifier, without copying it.
    fn lookup(&self, v: VectorId) -> (record: &Self::T)
        requires
            self.inv(),
            v.0 < self.count(),
        ensures
            *record == self.stored(v.0 as int),
            self.admits(*record),
    ;

    /// Scores two records.
    fn compare_raw(&self, v1: &Self::T, v2: &Self::T) -> (d: u32)
        requires
            self.inv(),
            self.admits(*v1),
            self.admits(*v2),
        ensures
            self.scores(*v1, *v2, d),
    ;

    /// Scores two sides, each a stored record or a value of the caller.
    fn compare_vec(&self, v1: AbstractVector<'_, Self::T>, v2: AbstractVector<'_, Self::T>) -> (d:
        u32)
        requires
            self.inv(),
            match v1 {
                AbstractVector::Stored(id) => id.0 < self.count(),
                AbstractVector::Unstored(record) => self.admits(*record),
            },
            match v2 {
                AbstractVector::Stored(id) => id.0 < self.count(),
                AbstractVector::Unstored(record) => self.admits(*record),
            },
        ensures
            self.scores(
                match v1 {
                    AbstractVector::Stored(id) => self.stored(id.0 as int),
                    AbstractVector::Unstored(record) => *record,
                },
                match v2 {
                    AbstractVector::Stored(id) => self.stored(id.0 as int),
                    AbstractVector::Unstored(record) => *record,
                },
                d,
            ),
    {
        let a: &Self::T = match v1 {
            AbstractVector::Stored(id) => self.lookup(id),
            AbstractVector::Unstored(record) => record,
        };
        let b: &Self::T = match v2 {
            AbstractVector::Stored(id) => self.lookup(id),
            AbstractVector::Unstored(record) => record,
        };
        self.compare_raw(a, b)
    }
}

} // verus!
