use crate::error::CountError;
use vstd::prelude::*;

verus! {

/// The chunk size that is used where none is chosen: 8 MiB.
pub const DEFAULT_CHUNK_SIZE: u64 = 8388608;

/// The delimiter that is counted where none is chosen: the line feed.
pub const DEFAULT_DELIMITER: u8 = 10;

/// What a count can be tuned with.
#[derive(Clone, Copy, Debug, PartialEq, Eq, Structural)]
pub struct CountConfig {
    /// The size of a chunk of the chunked count, and of the buffer that a
    /// stream is read through, in bytes.
    pub chunk_size: u64,
    /// The byte that is counted.
    pub delimiter: u8,
}

impl Default for CountConfig {
    fn default() -> (config: CountConfig)
        ensures
            config.chunk_size == DEFAULT_CHUNK_SIZE,
            config.delimiter == DEFAULT_DELIMITER,
    {
        CountConfig { chunk_size: DEFAULT_CHUNK_SIZE, delimiter: DEFAULT_DELIMITER }
    }
}

impl CountConfig {
    /// Whether a buffer of one chunk size can be made on this machine.
    pub open spec fn valid(self) -> bool {
        0 < self.chunk_size <= usize::MAX
    }

    /// The length of the buffer that holds one chunk. A chunk size of zero,
    /// or one that no buffer on this machine can have, is refused.
    pub fn buffer_len(&self) -> (result: Result<usize, CountError>)
        ensures
            result is Ok <==> self.valid(),
            result matches Ok(length) ==> length == self.chunk_size,
            result matches Err(error) ==> error == CountError::InvalidConfig,
    {
        if self.chunk_size == 0 || self.chunk_size > usize::MAX as u64 {
            Err(CountError::InvalidConfig)
        } else {
            Ok(self.chunk_size as usize)
        }
    }
}

} // verus!
