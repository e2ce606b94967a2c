//! Online segment optimization for a vector collection.
//!
//! A collection keeps its points in segments. The optimizer replaces a set of
//! segments by one merged segment while writes and deletes keep arriving:
//! it puts a proxy in front of every segment it merges, builds the merged
//! segment from frozen copies, and reconciles the deletes that arrived in the
//! meantime before it swaps the result in.
//!
//! The crate is sequential: one `&mut SegmentHolder` stands for the holder's
//! exclusive lock, so the steps of a run are separate functions between which
//! a caller may apply any number of client operations. The laws in [`laws`]
//! are proved for all such interleavings.
//!
//! A point is known by its id and by the version of the write that produced
//! it; vectors and payloads stay with the segments and do not pass through
//! this crate.
//!
//! Every function is proved to meet its contract, except for the items of
//! [`shared_cell`], which state what the crate `atomic_refcell` does.

pub mod types;
pub mod point_map;
pub mod model;
pub mod listing;
pub mod entry;
pub mod segment;
pub mod proxy_segment;
pub mod segment_holder;
pub mod segment_optimizer;
pub mod laws;
pub mod shared_cell;
pub mod index;
pub mod plain_index;
