//! Search settings and the results of sample encodes.
//!
//! VMAF scores and size percentages are held as whole numbers of thousandths
//! (a VMAF of 95.5 is `95_500`, 80% is `80_000`).
use vstd::prelude::*;

verus! {

/// Thousandths in one VMAF point or one percent.
pub const MILLI: u64 = 1000;

/// Settings of one crf search.
#[derive(Clone, Copy, Debug, PartialEq, Eq, Structural)]
pub struct SearchConfig {
    /// Encoder preset handed to each sample encode.
    pub preset: u8,
    /// Lowest acceptable VMAF, in thousandths.
    pub min_vmaf: u64,
    /// Highest acceptable encoded size as a percentage of the input, in thousandths.
    pub max_encoded_percent: u64,
    /// Lowest (highest quality) crf to try.
    pub min_crf: u8,
    /// Highest (lowest quality) crf to try.
    pub max_crf: u8,
    /// Number of samples of a full sample run.
    pub samples: u64,
}

/// What one sample run predicts of a full encode.
#[derive(Clone, Copy, Debug, PartialEq, Eq, Structural)]
pub struct SampleOutput {
    /// Mean VMAF of the samples, in thousandths.
    pub vmaf: u64,
    /// Predicted size of the full encode in bytes.
    pub predicted_encode_size: u64,
    /// Predicted size as a percentage of the input, in thousandths.
    pub predicted_encode_percent: u64,
    /// Predicted duration of the full encode in milliseconds.
    pub predicted_encode_time_ms: u64,
}

/// One finished sample run: the crf tried, how many samples it used and
/// what it measured.
#[derive(Clone, Copy, Debug, PartialEq, Eq, Structural)]
pub struct Sample {
    pub crf: u8,
    pub samples: u64,
    pub enc: SampleOutput,
}

/// The sample reaches the VMAF target.
pub open spec fn vmaf_met(s: Sample, min_vmaf: u64) -> bool {
    s.enc.vmaf >= min_vmaf
}

/// The sample predicts an encode larger than allowed.
pub open spec fn size_exceeded(s: Sample, max_encoded_percent: u64) -> bool {
    s.enc.predicted_encode_percent > max_encoded_percent
}

impl Sample {
    /// Whether this sample reaches `min_vmaf`.
    pub fn meets_vmaf(&self, min_vmaf: u64) -> (r: bool)
        ensures
            r == vmaf_met(*self, min_vmaf),
    {
        self.enc.vmaf >= min_vmaf
    }

    /// Whether this sample predicts an encoded size above `max_encoded_percent`.
    pub fn exceeds_size(&self, max_encoded_percent: u64) -> (r: bool)
        ensures
            r == size_exceeded(*self, max_encoded_percent),
    {
        self.enc.predicted_encode_percent > max_encoded_percent
    }
}

/// How a search result is written out.
#[derive(Clone, Copy, Debug, PartialEq, Eq, Structural)]
pub enum StdoutFormat {
    Human,
}

} // verus!
