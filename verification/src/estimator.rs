use vstd::prelude::*;

use crate::compress::{lz4_frame_len, lz4_output_len};
use crate::confidence::Confidence;
use crate::ratio::{ratio_of_counts, spec_ratio, Ratio};
use crate::sample::{lemma_sample_size_bounds, sample_size, spec_sample_size};
use vstd::arithmetic::div_mod::{
    lemma_basic_div, lemma_div_by_self, lemma_div_is_ordered, lemma_div_nonincreasing,
    lemma_div_pos_is_pos, lemma_fundamental_div_mod, lemma_mod_bound,
};
use vstd::arithmetic::mul::{
    lemma_mul_inequality, lemma_mul_is_associative, lemma_mul_is_commutative,
    lemma_mul_is_distributive_add, lemma_mul_nonnegative,
};

verus! {

/// An estimation failed.
#[derive(Debug)]
pub enum EstimError {
    /// A sampled block reached past the end of the input: the supplied
    /// length was larger than the bytes actually available.
    ShortRead,
    /// The compressor itself reported a failure.
    Compress(std::io::Error),
}

/// How the sampler will read an input of a given length: either all of it,
/// or `samples` blocks spaced `step` bytes apart.
#[derive(Clone, Copy, Debug, PartialEq, Eq, Structural)]
pub enum SamplePlan {
    /// Read the whole input sequentially.
    All,
    /// Read `samples` whole blocks, the i-th starting at offset `step * i`.
    Strided { samples: u64, step: u64 },
}

/// The number of whole blocks available in `len` bytes.
pub open spec fn spec_blocks(len: int, block: int) -> int {
    len / block
}

/// The number of blocks the sampler wants for this input length.
pub open spec fn spec_samples(len: int, block: int, m: int, c: Confidence) -> int {
    spec_sample_size(spec_blocks(len, block), m, c)
}

/// The threshold rule: the whole input is read when there is nothing to
/// sample, or when sampling would touch at least a quarter of it anyway.
pub open spec fn spec_read_all(len: int, block: int, m: int, c: Confidence) -> bool {
    let s = spec_samples(len, block, m, c);
    s == 0 || len < s * block * 4
}

/// The byte distance between the starts of consecutive sampled blocks:
/// blocks are spread as evenly as possible, truncating any remainder.
pub open spec fn spec_step(len: int, block: int, m: int, c: Confidence) -> int {
    block * (spec_blocks(len, block) / spec_samples(len, block, m, c))
}

/// How the sampler reads `len` bytes with the given configuration.
pub open spec fn spec_plan(len: int, block: int, m: int, c: Confidence) -> SamplePlan {
    if spec_read_all(len, block, m, c) {
        SamplePlan::All
    } else {
        SamplePlan::Strided {
            samples: spec_samples(len, block, m, c) as u64,
            step: spec_step(len, block, m, c) as u64,
        }
    }
}

/// How many bytes a sequential read of `len` bytes actually yields when
/// only `data_len` are available.
pub open spec fn spec_take_len(data_len: int, len: int) -> int {
    if len <= data_len {
        len
    } else {
        data_len
    }
}

/// The concatenation of the first `count` sampled blocks of `data`, the
/// i-th being the `block` bytes starting at offset `step * i`.
pub open spec fn spec_strided_fed(data: Seq<u8>, step: int, block: int, count: nat) -> Seq<u8>
    decreases count,
{
    if count == 0 {
        Seq::empty()
    } else {
        spec_strided_fed(data, step, block, (count - 1) as nat) + data.subrange(
            step * (count - 1),
            step * (count - 1) + block,
        )
    }
}

/// Exactly the bytes the sampler feeds to the compressor for an input
/// `data` declared to be `len` bytes long.
pub open spec fn spec_fed(data: Seq<u8>, len: int, block: int, m: int, c: Confidence) -> Seq<u8> {
    if spec_read_all(len, block, m, c) {
        data.take(spec_take_len(data.len() as int, len))
    } else {
        spec_strided_fed(
            data,
            spec_step(len, block, m, c),
            block,
            spec_samples(len, block, m, c) as nat,
        )
    }
}

/// The sampler fails with a short read exactly when it samples blocks and
/// the last one would reach past the bytes actually available.
pub open spec fn spec_short_read(
    data_len: int,
    len: int,
    block: int,
    m: int,
    c: Confidence,
) -> bool {
    &&& !spec_read_all(len, block, m, c)
    &&& spec_step(len, block, m, c) * (spec_samples(len, block, m, c) - 1) + block > data_len
}

/// The exact ratio obtained by compressing all of `data`.
pub open spec fn spec_exhaustive(data: Seq<u8>) -> Ratio {
    spec_ratio(lz4_output_len(data) as int, data.len() as int)
}

/// The ratio the estimator reports: the exhaustive ratio of exactly the
/// bytes the sampler feeds to the compressor.
pub open spec fn spec_estimate(data: Seq<u8>, len: int, block: int, m: int, c: Confidence) -> Ratio {
    spec_exhaustive(spec_fed(data, len, block, m, c))
}

/// When the sampler does sample, its geometry is well behaved: at least one
/// block is read, blocks do not overlap (the step is at least a block), and
/// every sampled byte lies below `len`.
pub proof fn lemma_strided_facts(len: int, block: int, m: int, c: Confidence)
    requires
        1 <= block,
        1 <= m < 1000,
        0 <= len,
        !spec_read_all(len, block, m, c),
    ensures
        ({
            let s = spec_samples(len, block, m, c);
            let step = spec_step(len, block, m, c);
            &&& 1 <= s <= spec_blocks(len, block)
            &&& block <= step <= len
            &&& s <= len
            &&& step * s <= len
            &&& step * (s - 1) + block <= len
        }),
{
    let blocks = spec_blocks(len, block);
    lemma_div_pos_is_pos(len, block);
    lemma_sample_size_bounds(blocks, m, c);
    let s = spec_samples(len, block, m, c);
    let q = blocks / s;
    let step = spec_step(len, block, m, c);
    // blocks fit in len bytes: block * blocks <= len
    lemma_fundamental_div_mod(len, block);
    lemma_mod_bound(len, block);
    // q >= 1 since s <= blocks
    lemma_div_is_ordered(s, blocks, s);
    lemma_div_by_self(s);
    // step >= block
    lemma_mul_inequality(1, q, block);
    lemma_mul_is_commutative(q, block);
    // q * s <= blocks
    lemma_fundamental_div_mod(blocks, s);
    lemma_mod_bound(blocks, s);
    lemma_mul_is_commutative(s, q);
    // step * s == block * (q * s) <= block * blocks <= len
    lemma_mul_is_associative(block, q, s);
    lemma_mul_inequality(q * s, blocks, block);
    lemma_mul_is_commutative(q * s, block);
    lemma_mul_is_commutative(blocks, block);
    // step * (s - 1) + step == step * s, and block <= step
    assert(step * (s - 1) + step == step * s) by (nonlinear_arith);
    assert(step * (s - 1) >= 0) by (nonlinear_arith)
        requires
            step >= 0,
            s >= 1,
    ;
    // s <= blocks <= len and step <= step * s <= len
    lemma_div_nonincreasing(len, block);
    lemma_mul_inequality(1, s, step);
    lemma_mul_is_commutative(s, step);
}

/// The estimator: a block size in bytes, a margin of error in per-mille
/// (thousandths), and a confidence level.
#[derive(Clone, Copy, Debug)]
pub struct Compresstimator {
    /// Bytes per sampled block; positive, ideally a multiple of the
    /// underlying storage's natural block size.
    pub block: u64,
    /// Margin of error as a fraction in per-mille, strictly between 0
    /// and 1000 (that is, strictly between 0 and 1).
    pub margin_per_mille: u64,
    /// The statistical confidence level of the estimate.
    pub confidence: Confidence,
}

/// The default block size in bytes.
pub const DEFAULT_BLOCK_SIZE: u64 = 4096;

impl Compresstimator {
    /// A valid configuration: a positive block size and a margin of error
    /// strictly between 0 and 1.
    pub open spec fn wf(self) -> bool {
        &&& 1 <= self.block
        &&& 1 <= self.margin_per_mille < 1000
    }
}

impl Default for Compresstimator {
    /// A `Compresstimator` with a default block size of 4096 bytes, 10%
    /// margin of error, and 95% confidence level.
    fn default() -> (c: Self)
        ensures
            c.block == DEFAULT_BLOCK_SIZE,
            c.margin_per_mille == 100,
            c.confidence == Confidence::C95,
            c.wf(),
    {
        Compresstimator { block: DEFAULT_BLOCK_SIZE, margin_per_mille: 100, confidence: Confidence::C95 }
    }
}

impl Compresstimator {
    /// Alias for `default()`.
    pub fn new() -> (c: Self)
        ensures
            c.block == DEFAULT_BLOCK_SIZE,
            c.margin_per_mille == 100,
            c.confidence == Confidence::C95,
            c.wf(),
    {
        Compresstimator::default()
    }

    /// A default configuration with the given block size. The block size
    /// should be some reasonable multiple of the underlying filesystem
    /// block size.
    pub fn with_block_size(block_size: u64) -> (c: Self)
        requires
            1 <= block_size,
        ensures
            c.block == block_size,
            c.margin_per_mille == 100,
            c.confidence == Confidence::C95,
            c.wf(),
    {
        Compresstimator { block: block_size, margin_per_mille: 100, confidence: Confidence::C95 }
    }

    /// Use the given block size from now on.
    pub fn block_size(&mut self, block_size: u64)
        requires
            1 <= block_size,
        ensures
            final(self).block == block_size,
            final(self).margin_per_mille == old(self).margin_per_mille,
            final(self).confidence == old(self).confidence,
    {
        self.block = block_size;
    }

    /// Set the margin of error, in per-mille. A margin outside the open
    /// interval (0, 1) is a caller error and is excluded up front.
    pub fn error_margin(&mut self, margin_per_mille: u64)
        requires
            1 <= margin_per_mille < 1000,
        ensures
            final(self).margin_per_mille == margin_per_mille,
            final(self).block == old(self).block,
            final(self).confidence == old(self).confidence,
    {
        self.margin_per_mille = margin_per_mille;
    }

    /// Set the margin of error, in per-mille, rejecting a margin outside
    /// the open interval (0, 1): on rejection nothing changes and `false`
    /// comes back, so a bad margin fails fast, before any estimation.
    pub fn try_error_margin(&mut self, margin_per_mille: u64) -> (ok: bool)
        ensures
            ok == (1 <= margin_per_mille < 1000),
            ok ==> final(self).margin_per_mille == margin_per_mille && final(self).block == old(
                self,
            ).block && final(self).confidence == old(self).confidence,
            !ok ==> *final(self) == *old(self),
    {
        if 1 <= margin_per_mille && margin_per_mille < 1000 {
            self.margin_per_mille = margin_per_mille;
            true
        } else {
            false
        }
    }

    /// Set the confidence level. No validation is needed: the enumeration
    /// is closed.
    pub fn confidence_level(&mut self, confidence: Confidence)
        ensures
            final(self).confidence == confidence,
            final(self).block == old(self).block,
            final(self).margin_per_mille == old(self).margin_per_mille,
    {
        self.confidence = confidence;
    }

    /// Decide how to read an input of `len` bytes: everything, or an even
    /// stride of whole blocks.
    pub fn sampling_plan(&self, len: u64) -> (p: SamplePlan)
        requires
            self.wf(),
        ensures
            p == spec_plan(
                len as int,
                self.block as int,
                self.margin_per_mille as int,
                self.confidence,
            ),
    {
        let blocks = len / self.block;
        let samples = sample_size(blocks, self.margin_per_mille, self.confidence);
        if samples == 0 {
            return SamplePlan::All;
        }
        proof {
            lemma_fundamental_div_mod(len as int, self.block as int);
            lemma_mod_bound(len as int, self.block as int);
            lemma_mul_is_commutative(blocks as int, self.block as int);
            lemma_mul_inequality(samples as int, blocks as int, self.block as int);
        }
        let touched: u128 = (samples as u128) * (self.block as u128) * 4;
        if (len as u128) < touched {
            SamplePlan::All
        } else {
            let q = blocks / samples;
            proof {
                lemma_div_nonincreasing(blocks as int, samples as int);
                lemma_mul_inequality(q as int, blocks as int, self.block as int);
                lemma_mul_is_commutative(q as int, self.block as int);
                lemma_mul_is_commutative(blocks as int, self.block as int);
            }
            let step = self.block * q;
            SamplePlan::Strided { samples, step }
        }
    }

    /// Estimate the compression ratio of the first `len` bytes of `input`,
    /// reading either everything or a deterministic stride of blocks and
    /// compressing exactly those bytes. `len` may exceed the bytes actually
    /// available: a sequential read then just ends early, but a sampled
    /// block reaching past the end is a short read and fails.
    #[verifier::loop_isolation(false)]
    pub fn compresstimate_len(&self, input: &[u8], len: u64) -> (r: Result<Ratio, EstimError>)
        requires
            self.wf(),
        ensures
            r matches Ok(rat) ==> rat == spec_estimate(
                input@,
                len as int,
                self.block as int,
                self.margin_per_mille as int,
                self.confidence,
            ),
            r matches Ok(rat) ==> rat.wf(),
            (r matches Err(EstimError::ShortRead)) <==> spec_short_read(
                input@.len() as int,
                len as int,
                self.block as int,
                self.margin_per_mille as int,
                self.confidence,
            ),
            (r is Ok) <==> !spec_short_read(
                input@.len() as int,
                len as int,
                self.block as int,
                self.margin_per_mille as int,
                self.confidence,
            ),
    {
        let ghost gl: int = len as int;
        let ghost gb: int = self.block as int;
        let ghost gm: int = self.margin_per_mille as int;
        let plan = self.sampling_plan(len);
        let mut fed: Vec<u8> = Vec::new();
        match plan {
            SamplePlan::All => {
                let take: usize = if len <= input.len() as u64 {
                    len as usize
                } else {
                    input.len()
                };
                assert(take as int == spec_take_len(input@.len() as int, gl));
                let mut k: usize = 0;
                while k < take
                    invariant
                        k <= take,
                        fed@ == input@.take(k as int),
                    decreases take - k,
                {
                    fed.push(input[k]);
                    proof {
                        assert(fed@ =~= input@.take(k as int + 1));
                    }
                    k = k + 1;
                }
            },
            SamplePlan::Strided { samples, step } => {
                proof {
                    lemma_strided_facts(gl, gb, gm, self.confidence);
                }
                let last_end: u128 = (step as u128) * ((samples - 1) as u128) + (
                self.block as u128);
                if last_end > input.len() as u128 {
                    return Err(EstimError::ShortRead);
                }
                let mut i: u64 = 0;
                while i < samples
                    invariant
                        i <= samples,
                        fed@ == spec_strided_fed(input@, step as int, gb, i as nat),
                    decreases samples - i,
                {
                    proof {
                        lemma_mul_inequality(i as int, samples as int - 1, step as int);
                        lemma_mul_is_commutative(i as int, step as int);
                        lemma_mul_is_commutative(samples as int - 1, step as int);
                    }
                    let start: usize = (step * i) as usize;
                    let ghost fed_before: Seq<u8> = fed@;
                    let mut k: usize = 0;
                    let block_len: usize = self.block as usize;
                    while k < block_len
                        invariant
                            k <= block_len,
                            fed@ == fed_before + input@.subrange(
                                start as int,
                                start as int + k as int,
                            ),
                        decreases block_len - k,
                    {
                        fed.push(input[start + k]);
                        proof {
                            assert(fed@ =~= fed_before + input@.subrange(
                                start as int,
                                start as int + k as int + 1,
                            ));
                        }
                        k = k + 1;
                    }
                    proof {
                        assert(fed@ =~= spec_strided_fed(
                            input@,
                            step as int,
                            gb,
                            (i + 1) as nat,
                        ));
                    }
                    i = i + 1;
                }
            },
        }
        let written: u64 = fed.len() as u64;
        match lz4_frame_len(fed.as_slice()) {
            Ok(compressed) => Ok(ratio_of_counts(compressed, written)),
            Err(e) => Err(EstimError::Compress(e)),
        }
    }

    /// Estimate the compression ratio of `input` from its start to its end.
    pub fn compresstimate(&self, input: &[u8]) -> (r: Result<Ratio, EstimError>)
        requires
            self.wf(),
        ensures
            r matches Ok(rat) ==> rat == spec_estimate(
                input@,
                input@.len() as int,
                self.block as int,
                self.margin_per_mille as int,
                self.confidence,
            ),
            r matches Ok(rat) ==> rat.wf(),
            r is Ok,
            r matches Ok(rat) ==> (spec_read_all(
                input@.len() as int,
                self.block as int,
                self.margin_per_mille as int,
                self.confidence,
            ) ==> rat == spec_exhaustive(input@)),
    {
        proof {
            assert(input@.take(input@.len() as int) =~= input@);
            if !spec_read_all(
                input@.len() as int,
                self.block as int,
                self.margin_per_mille as int,
                self.confidence,
            ) {
                lemma_strided_facts(
                    input@.len() as int,
                    self.block as int,
                    self.margin_per_mille as int,
                    self.confidence,
                );
            }
        }
        self.compresstimate_len(input, input.len() as u64)
    }

    /// Exhaustively compress `input` and return the exact achieved ratio:
    /// the reference value that the sampled estimate approximates.
    pub fn base_truth(&self, input: &[u8]) -> (r: Result<Ratio, EstimError>)
        ensures
            r matches Ok(rat) ==> rat == spec_exhaustive(input@),
            r matches Ok(rat) ==> rat.wf(),
            r is Ok,
    {
        let written: u64 = input.len() as u64;
        match lz4_frame_len(input) {
            Ok(compressed) => Ok(ratio_of_counts(compressed, written)),
            Err(e) => Err(EstimError::Compress(e)),
        }
    }
}

/// An empty input always has ratio exactly one: with a declared length of
/// zero nothing is fed to the compressor, whatever the configuration and
/// whatever bytes the stream holds.
pub proof fn lemma_empty_input_is_one(data: Seq<u8>, block: int, m: int, c: Confidence)
    requires
        1 <= block,
        1 <= m < 1000,
    ensures
        spec_estimate(data, 0, block, m, c) == (Ratio { num: 1, den: 1 }),
{
    lemma_div_pos_is_pos(0, block);
    lemma_div_nonincreasing(0, block);
    assert(spec_blocks(0, block) == 0);
    assert(spec_fed(data, 0, block, m, c) =~= data.take(0));
}

/// The estimate is deterministic: identical configuration and identical
/// input content and length give the identical ratio. There is no
/// randomness in block selection, and the executable entry points pin
/// every successful result to this same function of the input.
pub proof fn lemma_estimate_deterministic(
    data1: Seq<u8>,
    len1: int,
    data2: Seq<u8>,
    len2: int,
    block: int,
    m: int,
    c: Confidence,
)
    requires
        data1 == data2,
        len1 == len2,
    ensures
        spec_estimate(data1, len1, block, m, c) == spec_estimate(data2, len2, block, m, c),
{
}

/// As long as every sampled block is in range, the concatenation of the
/// first `count` sampled blocks holds exactly `count` whole blocks.
proof fn lemma_strided_fed_len(data: Seq<u8>, step: int, block: int, count: nat)
    requires
        0 <= step,
        1 <= block,
        count >= 1 ==> step * (count - 1) + block <= data.len(),
    ensures
        spec_strided_fed(data, step, block, count).len() == count * block,
    decreases count,
{
    if count == 0 {
        assert(count * block == 0);
    } else {
        if count >= 2 {
            lemma_mul_inequality(count - 2, count - 1, step);
            lemma_mul_is_commutative(count - 2, step);
            lemma_mul_is_commutative(count - 1, step);
        }
        lemma_strided_fed_len(data, step, block, (count - 1) as nat);
        lemma_mul_nonnegative(step, count - 1);
        lemma_mul_is_distributive_add(block, count - 1, 1);
        lemma_mul_is_commutative(block, count - 1);
        lemma_mul_is_commutative(block, count as int);
    }
}

/// The reported estimate is always clamped: whenever an estimation can
/// succeed at all (no sampled block reaches past the available bytes), the
/// resulting ratio lies between zero and one inclusive.
pub proof fn lemma_estimate_clamped(data: Seq<u8>, len: int, block: int, m: int, c: Confidence)
    requires
        1 <= block,
        1 <= m < 1000,
        0 <= len <= u64::MAX,
        data.len() <= u64::MAX,
        !spec_short_read(data.len() as int, len, block, m, c),
    ensures
        spec_estimate(data, len, block, m, c).wf(),
{
    let fed = spec_fed(data, len, block, m, c);
    if spec_read_all(len, block, m, c) {
        crate::ratio::lemma_ratio_clamped(lz4_output_len(fed) as int, fed.len() as int);
    } else {
        lemma_strided_facts(len, block, m, c);
        let s = spec_samples(len, block, m, c);
        let step = spec_step(len, block, m, c);
        lemma_strided_fed_len(data, step, block, s as nat);
        lemma_mul_inequality(block, step, s);
        lemma_mul_is_commutative(block, s);
        lemma_mul_is_commutative(step, s);
        crate::ratio::lemma_ratio_clamped(lz4_output_len(fed) as int, fed.len() as int);
    }
}

/// An input shorter than one block has no whole blocks to sample from, so
/// the sampler wants no samples and reads the entire input.
pub proof fn lemma_sub_block_input_reads_everything(len: int, block: int, m: int, c: Confidence)
    requires
        0 <= len < block,
        1 <= m < 1000,
    ensures
        spec_blocks(len, block) == 0,
        spec_samples(len, block, m, c) == 0,
        spec_read_all(len, block, m, c),
{
    lemma_basic_div(len, block);
}

/// Threshold correctness: whenever the threshold rule says to read the
/// whole input — no samples, or sampling would touch at least a quarter of
/// it — the estimate equals the exhaustive ratio of the bytes actually
/// read, exactly.
pub proof fn lemma_full_read_matches_exhaustive(
    data: Seq<u8>,
    len: int,
    block: int,
    m: int,
    c: Confidence,
)
    requires
        spec_read_all(len, block, m, c),
    ensures
        spec_estimate(data, len, block, m, c) == spec_exhaustive(
            data.take(spec_take_len(data.len() as int, len)),
        ),
{
}

} // verus!
