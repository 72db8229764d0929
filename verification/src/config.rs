//! The two numbers that shape a traversal, and their check.

use vstd::prelude::*;

verus! {

/// Why a pair of thread cap and chunk size is refused.
#[derive(Clone, Copy, PartialEq, Eq, Debug, Structural)]
pub enum ConfigError {
    /// The thread cap is zero: no chunk could ever be in flight.
    ZeroThreads,
    /// The chunk size is zero: no chunk could ever hold an item.
    ZeroChunkSize,
}

/// At least one chunk may be in flight, and a chunk holds at least one item.
pub open spec fn valid_config(num_threads: usize, chunk_size: usize) -> bool {
    num_threads > 0 && chunk_size > 0
}

/// Checks a thread cap and a chunk size. Where both are zero, the thread
/// cap is the one named.
pub fn check_config(num_threads: usize, chunk_size: usize) -> (r: Result<(), ConfigError>)
    ensures
        r is Ok <==> valid_config(num_threads, chunk_size),
        r == Err::<(), ConfigError>(ConfigError::ZeroThreads) <==> num_threads == 0,
        r == Err::<(), ConfigError>(ConfigError::ZeroChunkSize) <==> num_threads != 0 && chunk_size
            == 0,
{
    if num_threads == 0 {
        Err(ConfigError::ZeroThreads)
    } else if chunk_size == 0 {
        Err(ConfigError::ZeroChunkSize)
    } else {
        Ok(())
    }
}

} // verus!
