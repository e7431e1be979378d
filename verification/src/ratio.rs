use vstd::prelude::*;

verus! {

/// A compression ratio: compressed bytes over original bytes, clamped so
/// that it never exceeds one. A zero-length input is defined to have
/// ratio one (no compression possible or needed).
#[derive(Clone, Copy, Debug, PartialEq, Eq, Structural)]
pub struct Ratio {
    /// Compressed size, clamped to at most `den`.
    pub num: u64,
    /// Original (fed) size; at least one.
    pub den: u64,
}

impl Ratio {
    /// A well-formed ratio lies in the closed interval from zero to one.
    pub open spec fn wf(self) -> bool {
        self.num <= self.den && 1 <= self.den
    }

    /// True exactly when the ratio is one, the value reported for inputs
    /// that do not shrink at all (or that are empty).
    pub fn is_one(&self) -> (b: bool)
        ensures
            b == (self.num == self.den),
    {
        self.num == self.den
    }
}

/// The ratio reported for `compressed` output bytes measured over `fed`
/// input bytes: one when nothing was fed, otherwise `compressed / fed`
/// clamped to at most one.
pub open spec fn spec_ratio(compressed: int, fed: int) -> Ratio
    recommends
        0 <= compressed,
        0 <= fed <= u64::MAX,
{
    if fed == 0 {
        Ratio { num: 1, den: 1 }
    } else if compressed <= fed {
        Ratio { num: compressed as u64, den: fed as u64 }
    } else {
        Ratio { num: fed as u64, den: fed as u64 }
    }
}

/// The reported ratio is always clamped: its numerator never exceeds its
/// denominator and its denominator is positive, so as a real number it
/// lies between zero and one inclusive.
pub proof fn lemma_ratio_clamped(compressed: int, fed: int)
    requires
        0 <= compressed,
        0 <= fed <= u64::MAX,
    ensures
        spec_ratio(compressed, fed).wf(),
{
}

/// Highly compressible content is reported well below one: whenever the
/// compressor shrinks the fed bytes to under a tenth of their size, the
/// reported ratio is below one tenth.
pub proof fn lemma_ratio_below_tenth(compressed: int, fed: int)
    requires
        0 <= compressed,
        0 < fed <= u64::MAX,
        10 * compressed < fed,
    ensures
        10 * spec_ratio(compressed, fed).num < spec_ratio(compressed, fed).den,
{
}

/// Content the compressor cannot shrink is reported as exactly one: when at
/// least as many bytes come out as went in, the clamp takes over and the
/// numerator equals the denominator.
pub proof fn lemma_ratio_capped_at_one(compressed: int, fed: int)
    requires
        0 < fed <= u64::MAX,
        fed <= compressed,
    ensures
        spec_ratio(compressed, fed).num == spec_ratio(compressed, fed).den,
{
}

/// Builds the reported ratio from a measured compressed size and the number
/// of bytes that were fed to the compressor.
pub fn ratio_of_counts(compressed: u64, fed: u64) -> (r: Ratio)
    ensures
        r == spec_ratio(compressed as int, fed as int),
        r.wf(),
{
    if fed == 0 {
        Ratio { num: 1, den: 1 }
    } else if compressed <= fed {
        Ratio { num: compressed, den: fed }
    } else {
        Ratio { num: fed, den: fed }
    }
}

} // verus!
