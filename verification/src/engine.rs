//! The resampling engine and its data containers.
//!
//! The engine fills a caller-owned output block with the source signal
//! linearly interpolated at the fractional positions
//! `playhead + i * ratio`, where `ratio` is the source sample rate divided
//! by the output sample rate, and then advances the playhead to the
//! position one step past the last produced sample, so that consecutive
//! calls continue the same continuous time axis.

use vstd::prelude::*;

use crate::rational::Rat;
use crate::rational::Rational;
use crate::rational::q_add;
use crate::rational::q_div;
use crate::rational::q_eq;
use crate::rational::q_floor;
use crate::rational::q_fract;
use crate::rational::q_int;
use crate::rational::q_is_int;
use crate::rational::q_mul;
use crate::rational::q_sub;
use crate::rational::q_wf;

verus! {

/// One normalized mono sample.
#[derive(Clone, Copy)]
pub struct MonoFrame {
    pub value: Rat,
}

impl MonoFrame {
    /// The zero-valued (silent) sample.
    pub fn silence() -> (r: MonoFrame)
        ensures
            r.value@ == q_int(0),
            r.value.wf(),
    {
        MonoFrame { value: Rat::zero() }
    }
}

/// The amplitudes of a frame sequence, as ghost rationals.
pub open spec fn frames_seq(a: Seq<MonoFrame>) -> Seq<Rational> {
    a.map_values(|f: MonoFrame| f.value@)
}

/// The sample at `idx`, or silence when `idx` lies outside the sequence.
pub open spec fn sample_or_silence(s: Seq<Rational>, idx: int) -> Rational {
    if 0 <= idx < s.len() {
        s[idx]
    } else {
        q_int(0)
    }
}

/// The fractional source position of output sample `i`:
/// `start + i * step`.
pub open spec fn position_of(start: Rational, step: Rational, i: int) -> Rational {
    q_add(start, q_mul(q_int(i), step))
}

/// Source samples consumed per output sample produced.
pub open spec fn conversion_ratio(source_rate: Rational, output_rate: Rational) -> Rational {
    q_div(source_rate, output_rate)
}

/// The source linearly interpolated at fractional position `pos`.
///
/// A position that lands exactly on an integer index returns that sample
/// unchanged; otherwise the two neighbouring samples (silence outside the
/// sequence) are interpolated with the one-multiply form
/// `before + fract(pos) * (after - before)`, the two indices being one
/// apart.
pub open spec fn interpolated(s: Seq<Rational>, pos: Rational) -> Rational {
    let before = sample_or_silence(s, q_floor(pos));
    if q_is_int(pos) {
        before
    } else {
        let after = sample_or_silence(s, q_floor(pos) + 1);
        q_add(before, q_mul(q_fract(pos), q_sub(after, before)))
    }
}

/// A fully-materialized source signal with its read position.
pub struct SourceAudio {
    pub sample_rate: Rat,
    pub audio: Vec<MonoFrame>,
    pub playhead_position_in_fractional_samples: Rat,
}

impl SourceAudio {
    /// Positive sample rate, non-negative playhead, well-formed samples.
    pub open spec fn wf(self) -> bool {
        &&& self.sample_rate.wf()
        &&& self.sample_rate@.n > 0
        &&& self.playhead_position_in_fractional_samples.wf()
        &&& self.playhead_position_in_fractional_samples@.n >= 0
        &&& forall|i: int|
            0 <= i < self.audio@.len() ==> self.audio@[i].value.wf()
    }

    /// The amplitudes of the source, as ghost rationals.
    pub open spec fn frames(self) -> Seq<Rational> {
        frames_seq(self.audio@)
    }

    /// The playhead, as a ghost rational.
    pub open spec fn playhead(self) -> Rational {
        self.playhead_position_in_fractional_samples@
    }
}

/// A caller-owned block of output slots and the target sample rate.
pub struct OutputAudio {
    pub sample_rate: Rat,
    pub buffer: Vec<MonoFrame>,
}

impl OutputAudio {
    /// Positive sample rate.
    pub open spec fn wf(self) -> bool {
        self.sample_rate.wf() && self.sample_rate@.n > 0
    }
}

/// Numeric range for a sample rate: at most `2^20` in numerator and
/// denominator. Every machine-word overflow bound below follows from
/// these ranges.
pub open spec fn rate_in_range(q: Rational) -> bool {
    1 <= q.n <= 0x10_0000 && 1 <= q.d <= 0x10_0000
}

/// Numeric range for a sample amplitude: at most `2^16` in numerator
/// magnitude and denominator (enough for any 16-bit PCM value).
pub open spec fn frame_in_range(q: Rational) -> bool {
    -0x1_0000 <= q.n <= 0x1_0000 && 1 <= q.d <= 0x1_0000
}

/// Numeric range for the playhead: numerator at most `2^40`, denominator
/// at most `2^24`.
pub open spec fn playhead_in_range(q: Rational) -> bool {
    0 <= q.n <= 0x100_0000_0000 && 1 <= q.d <= 0x100_0000
}

/// The ranges under which one `resample` call is free of overflow in the
/// 128-bit words that carry the exact rationals. These are machine limits,
/// not limits of the resampling itself.
pub open spec fn resample_fits(source: SourceAudio, output: OutputAudio) -> bool {
    &&& rate_in_range(source.sample_rate@)
    &&& rate_in_range(output.sample_rate@)
    &&& playhead_in_range(source.playhead())
    &&& forall|i: int|
        0 <= i < source.audio@.len() ==> frame_in_range(source.audio@[i].value@)
    &&& output.buffer.len() <= 0x1000
}

/// `|x| <= bx` and `|y| <= by` bound the product by `bx * by`.
proof fn lemma_mul_bound(x: int, y: int, bx: int, by: int)
    by (nonlinear_arith)
    requires
        -bx <= x <= bx,
        -by <= y <= by,
    ensures
        -(bx * by) <= x * y <= bx * by,
{
}

/// Bounds on the numerator and denominator of `position_of(p, r, i)`
/// under the ranges of `resample_fits`.
proof fn lemma_position_fits(pn: int, pd: int, rn: int, rd: int, i: int)
    by (nonlinear_arith)
    requires
        0 <= pn <= 0x100_0000_0000,
        1 <= pd <= 0x100_0000,
        1 <= rn <= 0x100_0000_0000,
        1 <= rd <= 0x100_0000_0000,
        0 <= i <= 0x1000,
    ensures
        0 <= pn * rd + (i * rn) * pd <= 0x2_0000_0000_0000_0000_0000,
        1 <= pd * rd <= 0x1_0000_0000_0000_0000,
{
}

/// The polynomial identity behind `lemma_position_step`: one more step of
/// size `r` scales the position numerator by the step denominator.
proof fn lemma_step_identity(pn: int, pd: int, rn: int, rd: int, i: int)
    by (nonlinear_arith)
    ensures
        (pn * rd + (i * rn) * pd) * rd + rn * (pd * rd) == (pn * rd + ((i + 1) * rn) * pd)
            * rd,
{
}

/// Advancing one more step from position `i` reaches position `i + 1`:
/// `position_of(p, r, i) + r == position_of(p, r, i + 1)` as numbers.
pub proof fn lemma_position_step(p: Rational, r: Rational, i: int)
    requires
        q_wf(p),
        q_wf(r),
    ensures
        q_eq(q_add(position_of(p, r, i), r), position_of(p, r, i + 1)),
{
    let a = q_add(position_of(p, r, i), r);
    let b = position_of(p, r, i + 1);
    assert(a.n == (p.n * r.d + (i * r.n) * p.d) * r.d + r.n * (p.d * r.d));
    assert(a.d == (p.d * r.d) * r.d);
    assert(b.n == p.n * r.d + ((i + 1) * r.n) * p.d);
    assert(b.d == p.d * r.d);
    lemma_step_identity(p.n, p.d, r.n, r.d, i);
    assert(a.n == b.n * r.d);
    assert((b.n * r.d) * b.d == b.n * (b.d * r.d)) by (nonlinear_arith);
}

/// The source value at a fractional index, silence outside the signal.
fn frame_at(audio: &Vec<MonoFrame>, idx: i128) -> (r: MonoFrame)
    requires
        forall|i: int| 0 <= i < audio@.len() ==> audio@[i].value.wf(),
        forall|i: int| 0 <= i < audio@.len() ==> frame_in_range(audio@[i].value@),
    ensures
        r.value@ == sample_or_silence(frames_seq(audio@), idx as int),
        r.value.wf(),
        frame_in_range(r.value@),
{
    if 0 <= idx && idx < audio.len() as i128 {
        audio[idx as usize]
    } else {
        MonoFrame::silence()
    }
}

/// One-multiply linear interpolation between two unit-spaced samples,
/// evaluated at fractional offset `t`: `before + t * (after - before)`.
fn lerp_unit(before: &Rat, after: &Rat, t: &Rat) -> (r: Rat)
    requires
        before.wf(),
        after.wf(),
        t.wf(),
        frame_in_range(before@),
        frame_in_range(after@),
        0 <= t@.n <= t@.d,
        t@.d <= 0x1_0000_0000_0000_0000,
    ensures
        r@ == q_add(before@, q_mul(t@, q_sub(after@, before@))),
        r.wf(),
{
    proof {
        lemma_mul_bound(after@.n, before@.d, 0x1_0000, 0x1_0000);
        lemma_mul_bound(before@.n, after@.d, 0x1_0000, 0x1_0000);
        lemma_mul_bound(after@.d, before@.d, 0x1_0000, 0x1_0000);
    }
    let diff = after.sub_rat(before);
    proof {
        lemma_mul_bound(t@.n, diff@.n, 0x1_0000_0000_0000_0000, 0x2_0000_0000);
        lemma_mul_bound(t@.d, diff@.d, 0x1_0000_0000_0000_0000, 0x1_0000_0000);
    }
    let scaled = t.mul_rat(&diff);
    proof {
        lemma_mul_bound(
            before@.n,
            scaled@.d,
            0x1_0000,
            0x1_0000_0000_0000_0000_0000_0000,
        );
        lemma_mul_bound(
            scaled@.n,
            before@.d,
            0x2_0000_0000_0000_0000_0000_0000,
            0x1_0000,
        );
        lemma_mul_bound(
            before@.d,
            scaled@.d,
            0x1_0000,
            0x1_0000_0000_0000_0000_0000_0000,
        );
    }
    before.add_rat(&scaled)
}

/// The engine: a reusable scratch buffer of fractional source positions,
/// one per output slot, sized once at construction.
pub struct Resampler {
    source_buffer_positions_in_fractional_samples: Vec<Rat>,
}

impl Resampler {
    /// The block length this engine was built for.
    pub closed spec fn block_size(self) -> nat {
        self.source_buffer_positions_in_fractional_samples@.len()
    }

    /// Builds an engine for blocks of `buffer_size` output samples.
    pub fn new(buffer_size: usize) -> (r: Resampler)
        ensures
            r.block_size() == buffer_size,
    {
        let mut positions: Vec<Rat> = Vec::new();
        let mut i: usize = 0;
        while i < buffer_size
            invariant
                i <= buffer_size,
                positions@.len() == i,
            decreases buffer_size - i,
        {
            positions.push(Rat::zero());
            i += 1;
        }
        Resampler { source_buffer_positions_in_fractional_samples: positions }
    }

    /// Fills every slot of `output` with the source linearly interpolated
    /// at `playhead + i * ratio` (`ratio` = source rate / output rate) and
    /// advances the playhead to the position one past the last produced
    /// sample, so the next call continues the same continuous time axis.
    ///
    /// The block must have the length the engine was built for; positions
    /// past the end of the source yield exact silence.
    #[verifier::loop_isolation(false)]
    pub fn resample(&mut self, source: &mut SourceAudio, output: &mut OutputAudio)
        requires
            old(source).wf(),
            old(output).wf(),
            old(output).buffer.len() == old(self).block_size(),
            old(output).buffer.len() >= 1,
            resample_fits(*old(source), *old(output)),
        ensures
            final(self).block_size() == old(self).block_size(),
            final(source).wf(),
            final(source).sample_rate == old(source).sample_rate,
            final(source).audio == old(source).audio,
            final(output).wf(),
            final(output).sample_rate == old(output).sample_rate,
            final(output).buffer.len() == old(output).buffer.len(),
            forall|i: int|
                0 <= i < old(output).buffer.len() ==> final(output).buffer@[i].value.wf(),
            forall|i: int|
                0 <= i < old(output).buffer.len() ==> final(output).buffer@[i].value@
                    == interpolated(
                    old(source).frames(),
                    position_of(
                        old(source).playhead(),
                        conversion_ratio(old(source).sample_rate@, old(output).sample_rate@),
                        i,
                    ),
                ),
            q_eq(
                final(source).playhead(),
                position_of(
                    old(source).playhead(),
                    conversion_ratio(old(source).sample_rate@, old(output).sample_rate@),
                    old(output).buffer.len() as int,
                ),
            ),
    {
        let n = output.buffer.len();
        let ghost p0 = source.playhead();
        proof {
            lemma_mul_bound(source.sample_rate@.n, output.sample_rate@.d, 0x10_0000, 0x10_0000);
            lemma_mul_bound(source.sample_rate@.d, output.sample_rate@.n, 0x10_0000, 0x10_0000);
            vstd::arithmetic::mul::lemma_mul_strictly_positive(
                source.sample_rate@.n,
                output.sample_rate@.d,
            );
            vstd::arithmetic::mul::lemma_mul_strictly_positive(
                source.sample_rate@.d,
                output.sample_rate@.n,
            );
        }
        let ratio = source.sample_rate.div_rat(&output.sample_rate);
        let ghost r = ratio@;

        // Record the fractional source position of every output slot.
        let mut i: usize = 0;
        while i < n
            invariant
                i <= n,
                self.source_buffer_positions_in_fractional_samples@.len() == n,
                forall|j: int|
                    0 <= j < i ==> self.source_buffer_positions_in_fractional_samples@[j].wf(),
                forall|j: int|
                    0 <= j < i ==> self.source_buffer_positions_in_fractional_samples@[j]@
                        == position_of(p0, r, j),
            decreases n - i,
        {
            proof {
                lemma_mul_bound(i as int, r.n, 0x1000, 0x100_0000_0000);
                lemma_mul_bound(p0.n, r.d, 0x100_0000_0000, 0x100_0000_0000);
                lemma_mul_bound(i as int * r.n, p0.d, 0x10_0000_0000_0000, 0x100_0000);
                lemma_position_fits(p0.n, p0.d, r.n, r.d, i as int);
            }
            let term = Rat::from_int(i as i128).mul_rat(&ratio);
            let pos = source.playhead_position_in_fractional_samples.add_rat(&term);
            self.source_buffer_positions_in_fractional_samples.set(i, pos);
            i += 1;
        }

        // Interpolate the source at each recorded position.
        let ghost frames = source.frames();
        let mut k: usize = 0;
        while k < n
            invariant
                k <= n,
                self.source_buffer_positions_in_fractional_samples@.len() == n,
                forall|j: int|
                    0 <= j < n ==> self.source_buffer_positions_in_fractional_samples@[j].wf(),
                forall|j: int|
                    0 <= j < n ==> self.source_buffer_positions_in_fractional_samples@[j]@
                        == position_of(p0, r, j),
                output.buffer@.len() == n,
                output.sample_rate == old(output).sample_rate,
                forall|j: int| 0 <= j < k ==> output.buffer@[j].value.wf(),
                forall|j: int|
                    0 <= j < k ==> output.buffer@[j].value@ == interpolated(
                        frames,
                        position_of(p0, r, j),
                    ),
            decreases n - k,
        {
            let pos = self.source_buffer_positions_in_fractional_samples[k];
            proof {
                assert(pos@ == position_of(p0, r, k as int));
                lemma_position_fits(p0.n, p0.d, r.n, r.d, k as int);
                assert(pos@.n == p0.n * r.d + (k as int * r.n) * p0.d);
                assert(pos@.n >= 0);
                assert(pos@.n <= 0x2_0000_0000_0000_0000_0000);
            }
            let before = pos.floor();
            let frame_before = frame_at(&source.audio, before);
            if pos.is_integer() {
                output.buffer.set(k, frame_before);
            } else {
                let frame_after = frame_at(&source.audio, before + 1);
                proof {
                    vstd::arithmetic::div_mod::lemma_mod_division_less_than_divisor(
                        pos@.n,
                        pos@.d,
                    );
                }
                let t = pos.fract_part();
                let value = lerp_unit(&frame_before.value, &frame_after.value, &t);
                output.buffer.set(k, MonoFrame { value });
            }
            k += 1;
        }

        // Leave the playhead one step past the last produced sample.
        proof {
            lemma_position_fits(p0.n, p0.d, r.n, r.d, n - 1 as int);
        }
        let last = self.source_buffer_positions_in_fractional_samples[n - 1];
        proof {
            assert(last@ == position_of(p0, r, n - 1 as int));
            assert(last@.n == p0.n * r.d + ((n - 1 as int) * r.n) * p0.d);
            assert(last@.d == p0.d * r.d);
            lemma_mul_bound(last@.n, r.d, 0x2_0000_0000_0000_0000_0000, 0x100_0000_0000);
            lemma_mul_bound(r.n, last@.d, 0x100_0000_0000, 0x1_0000_0000_0000_0000);
            lemma_mul_bound(last@.d, r.d, 0x1_0000_0000_0000_0000, 0x100_0000_0000);
            vstd::arithmetic::mul::lemma_mul_nonnegative(last@.n, r.d);
            vstd::arithmetic::mul::lemma_mul_nonnegative(r.n, last@.d);
        }
        let advanced = last.add_rat(&ratio);
        source.playhead_position_in_fractional_samples = advanced;
        proof {
            lemma_position_step(p0, r, n - 1 as int);
        }
    }
}

} // verus!
