//! Chunked traversal of an ordered, single-pass source that may never end:
//! the position of the first item that meets a condition, and the sum of a
//! transform over all items.
//!
//! A source is cut into chunks of a fixed size, a bounded number of chunks is
//! kept in flight, and the results of the chunks are combined so that the
//! answer is the one a plain left-to-right pass would give, in whatever order
//! the chunks report.
//!
//! The parts:
//!
//! - a [`Source`] is pulled item by item; a [`Stream`] is its model;
//! - a [`Dispatcher`] cuts a source into [`Chunk`]s;
//! - a chunk is worked on by [`Chunk::search`] or [`Chunk::tally`], which
//!   touch nothing but the chunk, so that chunks can be worked on side by
//!   side;
//! - a [`SearchAggregator`] or a [`ReduceAggregator`] takes each result as
//!   it arrives, counts the chunks in flight and says when a new chunk is
//!   due;
//! - [`ParallelPosition::find`] and [`ParallelSum::map_sum`] put the parts
//!   together. They work on the chunks themselves, in the order of
//!   dispatch. A host that owns threads hands each chunk to a thread and
//!   feeds the results to the aggregator in the order in which they come
//!   back; the laws say that the answer is the same.

pub mod applied;
pub mod config;
pub mod dispatch;
pub mod laws;
pub mod parallel_position;
pub mod parallel_sum;
pub mod reduce;
pub mod search;
pub mod stream;

pub use config::{check_config, ConfigError};
pub use dispatch::{Chunk, Dispatcher};
pub use parallel_position::ParallelPosition;
pub use parallel_sum::ParallelSum;
pub use reduce::{Aggregate, ReduceAggregator};
pub use search::{Phase, SearchAggregator};
pub use stream::{Counter, Items, Source, Span, Stream};
