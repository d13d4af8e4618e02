//! The append-only store of fixed-width records behind a domain.
//!
//! A `VectorFile` is the store as the library sees it: the ordered list of
//! records that the backing file holds. Reading the file into it and writing
//! appended records back are left to the caller.
use core::ops::Range;
use vstd::prelude::*;

verus! {

/// Why a read from a store was refused.
#[derive(Debug, Clone, Copy, PartialEq, Eq, Structural)]
pub enum StoreError {
    /// The position is not below the number of records.
    OutOfRange { index: usize, count: usize },
    /// The range does not lie within the records, or ends before it starts.
    BadRange { start: usize, end: usize, count: usize },
    /// Records cannot be streamed in chunks of no records.
    EmptyChunk,
}

/// The records of `s` from position `from` on, at most `limit` of them.
pub open spec fn chunk_at<T>(s: Seq<T>, from: int, limit: int) -> Seq<T> {
    s.subrange(from, if from + limit <= s.len() { from + limit } else { s.len() as int })
}

/// An ordered, append-only list of records of one type.
pub struct VectorFile<T> {
    records: Vec<T>,
}

impl<T> View for VectorFile<T> {
    type V = Seq<T>;

    closed spec fn view(&self) -> Seq<T> {
        self.records@
    }
}

/// A contiguous run of records read from a store.
pub type LoadedVectorRange<T> = Vec<T>;

/// A read-only handle on a store.
pub struct ImmutableVectorFile<'a, T> {
    file: &'a VectorFile<T>,
}

/// A pass over the records of a store in chunks of a fixed size.
pub struct SequentialVectorLoader<'a, T> {
    file: &'a VectorFile<T>,
    chunk_size: usize,
    position: usize,
}

impl<T: Copy> VectorFile<T> {
    /// A store with no records.
    pub fn create() -> (file: Self)
        ensures
            file@ == Seq::<T>::empty(),
    {
        VectorFile { records: Vec::new() }
    }

    /// The store that holds the given records, in their order.
    pub fn from_records(records: Vec<T>) -> (file: Self)
        ensures
            file@ == records@,
    {
        VectorFile { records }
    }

    /// The number of records.
    pub fn num_vecs(&self) -> (n: usize)
        ensures
            n == self@.len(),
    {
        self.records.len()
    }

    /// The record at a position; refused unless the position is below the count.
    pub fn vec(&self, index: usize) -> (r: Result<T, StoreError>)
        ensures
            index < self@.len() ==> r == Ok::<T, StoreError>(self@[index as int]),
            index >= self@.len() ==> r == Err::<T, StoreError>(
                StoreError::OutOfRange { index, count: self@.len() as usize },
            ),
    {
        if index < self.records.len() {
            Ok(self.records[index])
        } else {
            Err(StoreError::OutOfRange { index, count: self.records.len() })
        }
    }

    /// The record at a position below the count, without copying it.
    pub fn get(&self, index: usize) -> (record: &T)
        requires
            index < self@.len(),
        ensures
            *record == self@[index as int],
    {
        &self.records[index]
    }

    /// The records of a half-open range of positions; refused unless the range
    /// lies within the store.
    pub fn vector_range(&self, range: Range<usize>) -> (r: Result<LoadedVectorRange<T>, StoreError>)
        ensures
            range.start <= range.end <= self@.len() ==> r is Ok && r->Ok_0@ == self@.subrange(
                range.start as int,
                range.end as int,
            ),
            !(range.start <= range.end <= self@.len()) ==> r == Err::<Vec<T>, StoreError>(
                StoreError::BadRange {
                    start: range.start,
                    end: range.end,
                    count: self@.len() as usize,
                },
            ),
    {
        let start: usize = range.start;
        let end: usize = range.end;
        if start > end || end > self.records.len() {
            return Err(StoreError::BadRange { start, end, count: self.records.len() });
        }
        let mut loaded: Vec<T> = Vec::new();
        let mut i: usize = start;
        while i < end
            invariant
                start <= i <= end,
                end <= self.records@.len(),
                loaded@ == self.records@.subrange(start as int, i as int),
            decreases end - i,
        {
            loaded.push(self.records[i]);
            assert(loaded@ =~= self.records@.subrange(start as int, i + 1));
            i = i + 1;
        }
        Ok(loaded)
    }

    /// All records, in order.
    pub fn all_vectors(&self) -> (all: LoadedVectorRange<T>)
        ensures
            all@ == self@,
    {
        let mut loaded: Vec<T> = Vec::new();
        let mut i: usize = 0;
        while i < self.records.len()
            invariant
                i <= self.records@.len(),
                loaded@ == self.records@.subrange(0, i as int),
            decreases self.records.len() - i,
        {
            loaded.push(self.records[i]);
            assert(loaded@ =~= self.records@.subrange(0, i + 1));
            i = i + 1;
        }
        assert(self.records@.subrange(0, self.records@.len() as int) =~= self.records@);
        loaded
    }

    /// A pass over all records in chunks of `chunk_size`; refused for a chunk size of zero.
    pub fn vector_chunks(&self, chunk_size: usize) -> (r: Result<
        SequentialVectorLoader<'_, T>,
        StoreError,
    >)
        ensures
            chunk_size > 0 ==> r is Ok && r->Ok_0.remaining() == self@ && r->Ok_0.chunk_len()
                == chunk_size,
            chunk_size == 0 ==> r is Err && r->Err_0 == StoreError::EmptyChunk,
    {
        if chunk_size == 0 {
            Err(StoreError::EmptyChunk)
        } else {
            Ok(self.chunks_of(chunk_size))
        }
    }

    /// A pass over all records in chunks of a positive size.
    pub fn chunks_of(&self, chunk_size: usize) -> (loader: SequentialVectorLoader<'_, T>)
        requires
            chunk_size > 0,
        ensures
            loader.remaining() == self@,
            loader.chunk_len() == chunk_size,
    {
        let loader = SequentialVectorLoader { file: self, chunk_size, position: 0 };
        assert(loader.remaining() =~= self@);
        loader
    }

    /// Appends records and returns the new number of records.
    pub fn append_vector_range(&mut self, vectors: &Vec<T>) -> (count: usize)
        ensures
            final(self)@ == old(self)@ + vectors@,
            count == final(self)@.len(),
    {
        let mut i: usize = 0;
        while i < vectors.len()
            invariant
                i <= vectors.len(),
                self.records@ == old(self).records@ + vectors@.subrange(0, i as int),
            decreases vectors.len() - i,
        {
            self.records.push(vectors[i]);
            assert(self.records@ =~= old(self).records@ + vectors@.subrange(0, i + 1));
            i = i + 1;
        }
        assert(vectors@.subrange(0, vectors@.len() as int) =~= vectors@);
        self.records.len()
    }

    /// Appends all records of another store and returns the new number of records.
    pub fn append_vector_file(&mut self, other: &VectorFile<T>) -> (count: usize)
        ensures
            final(self)@ == old(self)@ + other@,
            count == final(self)@.len(),
    {
        self.append_vector_range(&other.records)
    }

    /// Drops the records from position `count` on.
    pub fn truncate(&mut self, count: usize)
        requires
            count <= old(self)@.len(),
        ensures
            final(self)@ == old(self)@.subrange(0, count as int),
    {
        self.records.truncate(count);
    }

    /// A read-only handle on this store.
    pub fn as_immutable(&self) -> (handle: ImmutableVectorFile<'_, T>)
        ensures
            handle@ == self@,
    {
        ImmutableVectorFile { file: self }
    }
}

impl<'a, T> View for ImmutableVectorFile<'a, T> {
    type V = Seq<T>;

    closed spec fn view(&self) -> Seq<T> {
        self.file@
    }
}

impl<'a, T: Copy> ImmutableVectorFile<'a, T> {
    /// The number of records.
    pub fn num_vecs(&self) -> (n: usize)
        ensures
            n == self@.len(),
    {
        self.file.num_vecs()
    }

    /// The record at a position; refused unless the position is below the count.
    pub fn vec(&self, index: usize) -> (r: Result<T, StoreError>)
        ensures
            index < self@.len() ==> r == Ok::<T, StoreError>(self@[index as int]),
            index >= self@.len() ==> r == Err::<T, StoreError>(
                StoreError::OutOfRange { index, count: self@.len() as usize },
            ),
    {
        self.file.vec(index)
    }
}

impl<'a, T> SequentialVectorLoader<'a, T> {
    /// A chunk holds at least one record.
    #[verifier::type_invariant]
    spec fn positive_chunks(&self) -> bool {
        self.chunk_size > 0
    }
}

impl<'a, T: Copy> SequentialVectorLoader<'a, T> {
    /// The records that the pass has not handed out yet.
    pub closed spec fn remaining(&self) -> Seq<T> {
        if self.position <= self.file@.len() {
            self.file@.subrange(self.position as int, self.file@.len() as int)
        } else {
            Seq::empty()
        }
    }

    /// The size of every chunk but the last.
    pub closed spec fn chunk_len(&self) -> usize {
        self.chunk_size
    }

    /// The number of records still to come.
    pub fn remaining_len(&self) -> (n: usize)
        ensures
            n == self.remaining().len(),
    {
        let total: usize = self.file.num_vecs();
        if self.position <= total {
            total - self.position
        } else {
            0
        }
    }

    /// Hands out the next chunk: as many of the remaining records as a chunk
    /// holds, or all of them if they are fewer. `None` once nothing remains.
    pub fn next(&mut self) -> (chunk: Option<Vec<T>>)
        ensures
            final(self).chunk_len() == old(self).chunk_len(),
            final(self).chunk_len() > 0,
            old(self).remaining().len() == 0 ==> chunk is None && final(self).remaining()
                == old(self).remaining(),
            old(self).remaining().len() > 0 ==> chunk is Some && chunk->Some_0@ == chunk_at(
                old(self).remaining(),
                0,
                old(self).chunk_len() as int,
            ) && final(self).remaining() == old(self).remaining().skip(chunk->Some_0@.len() as int),
    {
        proof {
            use_type_invariant(&*self);
        }
        let total: usize = self.file.num_vecs();
        if self.position >= total {
            return None;
        }
        let left: usize = total - self.position;
        let take: usize = if self.chunk_size < left {
            self.chunk_size
        } else {
            left
        };
        let start: usize = self.position;
        let mut chunk: Vec<T> = Vec::new();
        let mut i: usize = 0;
        while i < take
            invariant
                i <= take,
                start + take <= total,
                total == self.file@.len(),
                self.position == start,
                self.chunk_size == old(self).chunk_size,
                self.file == old(self).file,
                chunk@ == self.file@.subrange(start as int, start + i),
            decreases take - i,
        {
            chunk.push(self.file.records[start + i]);
            assert(chunk@ =~= self.file@.subrange(start as int, start + i + 1));
            i = i + 1;
        }
        self.position = start + take;
        assert(chunk@ =~= chunk_at(old(self).remaining(), 0, old(self).chunk_len() as int));
        assert(self.remaining() =~= old(self).remaining().skip(chunk@.len() as int));
        Some(chunk)
    }
}

} // verus!
