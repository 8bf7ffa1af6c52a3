//! The integer side of the loudness analysis: how a decoded frame is cut into
//! channel blocks, the sum of squares of a block, and where the 95th
//! percentile of the sorted frame loudnesses lies.

use vstd::prelude::*;

verus! {

/// The sum of the squares of the samples.
pub open spec fn squares_sum(samples: Seq<i16>) -> int
    decreases samples.len(),
{
    if samples.len() == 0 {
        0
    } else {
        squares_sum(samples.drop_last()) + samples.last() * samples.last()
    }
}

/// The sum of the squares of the samples of a block, exactly.
pub fn sum_of_squares(samples: &[i16]) -> (sum: u128)
    ensures
        sum == squares_sum(samples@),
{
    let n = samples.len();
    let mut sum: u128 = 0;
    let mut i: usize = 0;
    while i < n
        invariant
            n == samples@.len(),
            i <= n,
            sum == squares_sum(samples@.take(i as int)),
            sum <= i * 0x4000_0000,
        decreases n - i,
    {
        let v = samples[i] as i64;
        assert(v * v <= 0x4000_0000) by (nonlinear_arith)
            requires
                -32768 <= v <= 32767,
        ;
        assert(v * v >= 0) by (nonlinear_arith);
        assert(samples@.take(i + 1).drop_last() =~= samples@.take(i as int));
        assert(samples@.take(i + 1).last() == samples@[i as int]);
        sum = sum + (v * v) as u128;
        i = i + 1;
    }
    assert(samples@.take(n as int) =~= samples@);
    sum
}

/// The magnitude of a sample.
pub open spec fn magnitude(v: i16) -> int {
    if v < 0 {
        -v
    } else {
        v as int
    }
}

/// The largest magnitude among the samples; 0 for none.
pub open spec fn max_magnitude(samples: Seq<i16>) -> int
    decreases samples.len(),
{
    if samples.len() == 0 {
        0
    } else {
        let rest = max_magnitude(samples.drop_last());
        let last = magnitude(samples.last());
        if last > rest {
            last
        } else {
            rest
        }
    }
}

/// The peak amplitude of a block: the largest magnitude of its samples.
pub fn peak_amplitude(samples: &[i16]) -> (peak: u32)
    ensures
        peak == max_magnitude(samples@),
        peak <= 32768,
        forall|i: int|
            0 <= i < samples@.len() ==> peak >= (if samples@[i] < 0 {
                -samples@[i]
            } else {
                samples@[i] as int
            }),
        samples@.len() > 0 ==> exists|i: int|
            0 <= i < samples@.len() && peak == (if samples@[i] < 0 {
                -samples@[i]
            } else {
                samples@[i] as int
            }),
        samples@.len() == 0 ==> peak == 0,
{
    let n = samples.len();
    let mut peak: u32 = 0;
    let mut i: usize = 0;
    while i < n
        invariant
            n == samples@.len(),
            i <= n,
            peak == max_magnitude(samples@.take(i as int)),
            peak <= 32768,
        decreases n - i,
    {
        let v = samples[i];
        let m: u32 = if v < 0 {
            (0 - (v as i32)) as u32
        } else {
            v as u32
        };
        assert(samples@.take(i + 1).drop_last() =~= samples@.take(i as int));
        assert(samples@.take(i + 1).last() == v);
        if m > peak {
            peak = m;
        }
        i = i + 1;
    }
    assert(samples@.take(n as int) =~= samples@);
    proof {
        law_peak_is_the_largest_magnitude(samples@);
    }
    peak
}

/// The peak of some samples is the largest absolute value among them, of
/// negative samples as of positive ones: at least that of every sample, and
/// that of one of them (0 for no samples).
pub proof fn law_peak_is_the_largest_magnitude(samples: Seq<i16>)
    ensures
        forall|i: int|
            0 <= i < samples.len() ==> max_magnitude(samples) >= (if samples[i] < 0 {
                -samples[i]
            } else {
                samples[i] as int
            }),
        samples.len() > 0 ==> exists|i: int|
            0 <= i < samples.len() && max_magnitude(samples) == (if samples[i] < 0 {
                -samples[i]
            } else {
                samples[i] as int
            }),
        samples.len() == 0 ==> max_magnitude(samples) == 0,
    decreases samples.len(),
{
    if samples.len() > 0 {
        let rest = samples.drop_last();
        law_peak_is_the_largest_magnitude(rest);
        assert forall|i: int|
            0 <= i < samples.len() implies max_magnitude(samples) >= (if samples[i] < 0 {
                -samples[i]
            } else {
                samples[i] as int
            }) by {
            if i < samples.len() - 1 {
                assert(samples[i] == rest[i]);
            }
        }
        let last = samples.len() - 1;
        if magnitude(samples.last()) > max_magnitude(rest) {
            assert(max_magnitude(samples) == (if samples[last] < 0 {
                -samples[last]
            } else {
                samples[last] as int
            }));
        } else if rest.len() > 0 {
            let k = choose|k: int|
                0 <= k < rest.len() && max_magnitude(rest) == (if rest[k] < 0 {
                    -rest[k]
                } else {
                    rest[k] as int
                });
            assert(samples[k] == rest[k]);
        } else {
            assert(max_magnitude(samples) == (if samples[last] < 0 {
                -samples[last]
            } else {
                samples[last] as int
            }));
        }
    }
}

/// The blocks that a decoded frame of `len` interleaved samples is cut into:
/// blocks of `len / channels` consecutive samples, as many as fit whole, each
/// as its start and end position.
pub open spec fn spec_blocks(len: int, channels: int) -> Seq<(usize, usize)> {
    let size = len / channels;
    Seq::new((len / size) as nat, |k: int| ((k * size) as usize, (k * size + size) as usize))
}

/// Cuts a frame of `len` samples into its channel blocks (see `spec_blocks`).
/// A frame needs at least one channel, and at least one sample per channel.
pub fn channel_blocks(len: usize, channels: usize) -> (blocks: Vec<(usize, usize)>)
    requires
        channels > 0,
        len >= channels,
    ensures
        blocks@ == spec_blocks(len as int, channels as int),
{
    let size = len / channels;
    assert(size >= 1) by (nonlinear_arith)
        requires
            channels > 0,
            len >= channels,
            size == len / channels,
    ;
    let mut blocks: Vec<(usize, usize)> = Vec::new();
    let mut start: usize = 0;
    let ghost mut k: int = 0;
    while len - start >= size
        invariant
            size >= 1,
            size == len / channels,
            start <= len,
            start == k * size,
            blocks.len() == k,
            forall|j: int|
                0 <= j < k ==> #[trigger] blocks@[j] == ((j * size) as usize, (j * size
                    + size) as usize),
        decreases len - start,
    {
        blocks.push((start, start + size));
        proof {
            assert((k + 1) * size == k * size + size) by (nonlinear_arith);
            k = k + 1;
        }
        start = start + size;
    }
    assert(k == len / size) by (nonlinear_arith)
        requires
            k * size <= len,
            len < k * size + size,
            size >= 1,
    ;
    assert(blocks@ =~= spec_blocks(len as int, channels as int));
    blocks
}

/// 95% of `n`, rounded to the nearest integer, halves rounded up.
pub open spec fn rounded_95(n: int) -> int {
    (19 * n + 10) / 20
}

/// The position of the 95th percentile among `n` sorted values: 95% of `n`,
/// rounded; `None` where that falls past the last value, which is the case
/// exactly for ten values or fewer.
pub fn percentile_position(n: usize) -> (position: Option<usize>)
    ensures
        position == if rounded_95(n as int) < n {
            Some(rounded_95(n as int) as usize)
        } else {
            None::<usize>
        },
{
    let wide = (19 * (n as u128) + 10) / 20;
    if wide < n as u128 {
        Some(wide as usize)
    } else {
        None
    }
}

/// The 95th percentile lies among the values exactly when there are more than ten.
pub proof fn law_percentile_within(n: nat)
    ensures
        (rounded_95(n as int) < n) <==> n > 10,
{
}

proof fn lemma_squares_concat(a: Seq<i16>, b: Seq<i16>)
    ensures
        squares_sum(a + b) == squares_sum(a) + squares_sum(b),
    decreases b.len(),
{
    if b.len() == 0 {
        assert(a + b =~= a);
    } else {
        lemma_squares_concat(a, b.drop_last());
        assert((a + b).drop_last() =~= a + b.drop_last());
        assert((a + b).last() == b.last());
    }
}

proof fn lemma_squares_nonneg(a: Seq<i16>)
    ensures
        squares_sum(a) >= 0,
    decreases a.len(),
{
    if a.len() > 0 {
        lemma_squares_nonneg(a.drop_last());
        let y = a.last();
        assert(y * y >= 0) by (nonlinear_arith);
    }
}

/// The sum of squares adds up sample by sample: a single sample gives its
/// square, and the sum over two blocks laid end to end is the sum of their
/// sums; it is never negative.
pub proof fn law_squares_add_up(a: Seq<i16>, b: Seq<i16>)
    ensures
        squares_sum(a + b) == squares_sum(a) + squares_sum(b),
        forall|v: i16| #[trigger] squares_sum(seq![v]) == v * v,
        squares_sum(a) >= 0,
{
    assert forall|v: i16| #[trigger] squares_sum(seq![v]) == v * v by {
        let one = seq![v];
        assert(one.drop_last() =~= Seq::<i16>::empty());
        assert(one.last() == v);
        assert(squares_sum(one.drop_last()) == 0);
        assert(one.len() == 1);
    }
    lemma_squares_concat(a, b);
    lemma_squares_nonneg(a);
}

/// The channel blocks of a frame are consecutive runs of `len / channels`
/// samples from the start, as many as fit whole: the first starts at 0, each
/// starts where the one before ends, the last ends within the frame, and
/// fewer than a block's worth of samples is left after it. There are at least
/// `channels` blocks.
pub proof fn law_blocks_tile_the_frame(len: int, channels: int)
    requires
        channels > 0,
        len >= channels,
        len <= usize::MAX,
    ensures
        ({
            let blocks = spec_blocks(len, channels);
            let size = len / channels;
            &&& blocks.len() >= channels
            &&& blocks[0].0 == 0
            &&& forall|k: int| 0 <= k < blocks.len() ==> #[trigger] blocks[k].1 - blocks[k].0 == size
            &&& forall|k: int|
                0 < k < blocks.len() ==> #[trigger] blocks[k].0 == blocks[k - 1].1
            &&& blocks[blocks.len() - 1].1 <= len
            &&& len - blocks[blocks.len() - 1].1 < size
        }),
{
    let size = len / channels;
    let n = len / size;
    assert(size >= 1 && size * channels <= len) by (nonlinear_arith)
        requires
            channels > 0,
            len >= channels,
            size == len / channels,
    ;
    assert(n >= channels && n * size <= len && len - n * size < size) by (nonlinear_arith)
        requires
            size >= 1,
            size * channels <= len,
            n == len / size,
    ;
    let blocks = spec_blocks(len, channels);
    assert forall|k: int| 0 <= k < blocks.len() implies #[trigger] blocks[k].1 - blocks[k].0 == size
        && 0 <= k * size && k * size + size <= len by {
        assert(k * size + size <= n * size && 0 <= k * size) by (nonlinear_arith)
            requires
                0 <= k < n,
                size >= 1,
        ;
    }
    assert forall|k: int| 0 < k < blocks.len() implies #[trigger] blocks[k].0 == blocks[k - 1].1 by {
        assert((k - 1) * size + size == k * size) by (nonlinear_arith);
        assert(0 <= k * size && k * size <= len) by (nonlinear_arith)
            requires
                0 < k < n,
                size >= 1,
                n * size <= len,
        ;
    }
    assert((n - 1) * size + size == n * size) by (nonlinear_arith);
    assert(0 <= (n - 1) * size) by (nonlinear_arith)
        requires
            n >= 1,
            size >= 1,
    ;
}

/// The 95th-percentile position is 95% of the count rounded to the nearest
/// integer, a half rounded up: twenty times it lies within ten above and
/// below ten of nineteen times the count.
pub proof fn law_rounded_95_is_nearest(n: nat)
    ensures
        -10 < 20 * rounded_95(n as int) - 19 * n <= 10,
{
}

} // verus!
