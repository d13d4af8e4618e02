//! Comparators and product quantization for approximate nearest-neighbour
//! search over embedding vectors.
//!
//! * [`protocol`]: what every distance space offers to an index built over it.
//! * [`vecmath`]: record shapes, and the numeric primitives that the caller supplies.
//! * [`comparator`]: centroid vocabularies with their memoized pair table,
//!   quantized embeddings, raw embeddings.
//! * [`codec`]: the byte layout of persisted centroids and quantized records.
//! * [`store`]: the append-only store of records behind a domain.
//! * [`domain`]: a named store and the derived stores kept in step with it.
//! * [`training`]: sampling, and the steps from a sample to a vocabulary.
//! * [`naming`]: how a domain's name becomes the name of its files.
//!
//! Vector components and distances are carried as the bit patterns of
//! single-precision numbers; the library moves, stores and looks them up, and
//! leaves every computation on them to a [`vecmath::DistanceKernel`].
pub mod codec;
pub mod comparator;
pub mod domain;
pub mod naming;
pub mod protocol;
pub mod store;
pub mod training;
pub mod vecmath;
