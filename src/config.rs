use vstd::prelude::*;

verus! {

/// Number of samples in one processing block.
pub const BLOCK_SIZE: usize = 1024;

/// Sample rate, in Hz, that the model expects.
pub const EXPECTED_SAMPLE_RATE: u32 = 16000;

/// Largest number of blocks that may wait at the worker before the
/// processor reports starvation.
pub const STARVATION_THRESHOLD: usize = 1;

/// Settings of one processing pipeline.
#[derive(Clone, Copy, Debug, PartialEq, Eq)]
pub struct ProcessorConfig {
    pub block_size: usize,
    pub sample_rate: u32,
    pub starvation_threshold: usize,
}

impl ProcessorConfig {
    /// A configuration is usable when a block holds at least one sample.
    pub open spec fn valid(&self) -> bool {
        self.block_size > 0
    }

    /// The standard configuration: blocks of `BLOCK_SIZE` samples at
    /// `EXPECTED_SAMPLE_RATE`.
    pub fn standard() -> (r: ProcessorConfig)
        ensures
            r.valid(),
            r.block_size == BLOCK_SIZE,
            r.sample_rate == EXPECTED_SAMPLE_RATE,
            r.starvation_threshold == STARVATION_THRESHOLD,
    {
        ProcessorConfig {
            block_size: BLOCK_SIZE,
            sample_rate: EXPECTED_SAMPLE_RATE,
            starvation_threshold: STARVATION_THRESHOLD,
        }
    }
}

} // verus!
