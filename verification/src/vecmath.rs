//! Record shapes and the numeric primitives the comparators rest on.
//!
//! The library never does arithmetic on a vector component or on a distance:
//! both are carried as the bit pattern of an IEEE-754 single-precision number,
//! and every numeric operation is delegated to a [`DistanceKernel`].
use vstd::prelude::*;

verus! {

/// Number of components of a raw embedding.
pub const EMBEDDING_LENGTH: usize = 1536;

/// Number of components of a narrow centroid.
pub const CENTROID_16_LENGTH: usize = 16;

/// Number of components of a wide centroid.
pub const CENTROID_32_LENGTH: usize = 32;

/// Size in bytes of a persisted narrow centroid.
pub const CENTROID_16_BYTE_LENGTH: usize = 64;

/// Size in bytes of a persisted wide centroid.
pub const CENTROID_32_BYTE_LENGTH: usize = 128;

/// Number of codes in an embedding quantized over narrow centroids.
pub const QUANTIZED_16_EMBEDDING_LENGTH: usize = 96;

/// Number of codes in an embedding quantized over wide centroids.
pub const QUANTIZED_32_EMBEDDING_LENGTH: usize = 48;

/// The bit pattern of the distance zero.
pub const ZERO_DISTANCE: u32 = 0;

/// A raw embedding, one bit pattern per component.
pub type Embedding = [u32; EMBEDDING_LENGTH];

/// A narrow cluster centre.
pub type Centroid16 = [u32; CENTROID_16_LENGTH];

/// A wide cluster centre.
pub type Centroid32 = [u32; CENTROID_32_LENGTH];

/// An embedding as codes of narrow centroids.
pub type Quantized16Embedding = [u16; QUANTIZED_16_EMBEDDING_LENGTH];

/// An embedding as codes of wide centroids.
pub type Quantized32Embedding = [u16; QUANTIZED_32_EMBEDDING_LENGTH];

/// The numeric primitives over bit patterns.
///
/// The library states what it does with the values that a kernel gives; what
/// the values are is the kernel's matter. Where a guarantee needs more of the
/// kernel (that it gives the same bits for the same arguments, that its
/// partial distance is symmetric) the guarantee says so.
pub trait DistanceKernel {
    /// The partial distance of two chunks: the summand that a pair of chunks
    /// contributes to the distance of the vectors they are cut from.
    fn euclidean_partial_distance<const N: usize>(&self, a: &[u32; N], b: &[u32; N]) -> u32;

    /// The Euclidean distance of two vectors.
    fn euclidean_distance<const N: usize>(&self, a: &[u32; N], b: &[u32; N]) -> u32;

    /// The normalized cosine distance of two vectors.
    fn normalized_cosine_distance<const N: usize>(&self, a: &[u32; N], b: &[u32; N]) -> u32;

    /// The square root of the sum of a list of partial distances.
    fn sum_and_root<const N: usize>(&self, parts: &[u32; N]) -> u32;
}

/// `d` is a value that the kernel gives as the partial distance of `a` and `b`.
pub open spec fn gives_partial<K: DistanceKernel, const N: usize>(
    kernel: K,
    a: [u32; N],
    b: [u32; N],
    d: u32,
) -> bool {
    call_ensures(K::euclidean_partial_distance::<N>, (&kernel, &a, &b), d)
}

/// `d` is a value that the kernel gives as the Euclidean distance of `a` and `b`.
pub open spec fn gives_euclidean<K: DistanceKernel, const N: usize>(
    kernel: K,
    a: [u32; N],
    b: [u32; N],
    d: u32,
) -> bool {
    call_ensures(K::euclidean_distance::<N>, (&kernel, &a, &b), d)
}

/// `d` is a value that the kernel gives as the cosine distance of `a` and `b`.
pub open spec fn gives_cosine<K: DistanceKernel, const N: usize>(
    kernel: K,
    a: [u32; N],
    b: [u32; N],
    d: u32,
) -> bool {
    call_ensures(K::normalized_cosine_distance::<N>, (&kernel, &a, &b), d)
}

/// `d` is a value that the kernel gives as the root of the sum of `parts`.
pub open spec fn gives_root<K: DistanceKernel, const N: usize>(
    kernel: K,
    parts: [u32; N],
    d: u32,
) -> bool {
    call_ensures(K::sum_and_root::<N>, (&kernel, &parts), d)
}

/// The kernel gives one partial distance for each pair of `N`-wide chunks.
pub open spec fn repeatable<K: DistanceKernel, const N: usize>(kernel: K) -> bool {
    forall|a: [u32; N], b: [u32; N], d1: u32, d2: u32|
        #![trigger gives_partial(kernel, a, b, d1), gives_partial(kernel, a, b, d2)]
        gives_partial(kernel, a, b, d1) && gives_partial(kernel, a, b, d2) ==> d1 == d2
}

/// What the kernel gives for a pair of `N`-wide chunks, it gives for the pair reversed.
pub open spec fn symmetric<K: DistanceKernel, const N: usize>(kernel: K) -> bool {
    forall|a: [u32; N], b: [u32; N], d: u32| #[trigger]
        gives_partial(kernel, a, b, d) ==> gives_partial(kernel, b, a, d)
}

/// The kernel gives the chunk `a` the partial distance zero from itself, and no other.
pub open spec fn zero_to_self<K: DistanceKernel, const N: usize>(kernel: K, a: [u32; N]) -> bool {
    forall|d: u32| #[trigger] gives_partial(kernel, a, a, d) ==> d == ZERO_DISTANCE
}

/// The kernel gives zero, and nothing else, as the root of a sum of `N` zeros.
pub open spec fn root_of_zeros_is_zero<K: DistanceKernel, const N: usize>(kernel: K) -> bool {
    forall|parts: [u32; N], d: u32|
        (forall|k: int| 0 <= k < N ==> parts@[k] == ZERO_DISTANCE) && #[trigger] gives_root(
            kernel,
            parts,
            d,
        ) ==> d == ZERO_DISTANCE
}

} // verus!
