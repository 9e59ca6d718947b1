//! Downmixing interleaved microphone samples to mono.
use vstd::prelude::*;

verus! {

/// Sum of a sequence of samples.
pub open spec fn sum_samples(s: Seq<i16>) -> int
    decreases s.len(),
{
    if s.len() == 0 {
        0
    } else {
        sum_samples(s.drop_last()) + s.last()
    }
}

/// Integer division rounding toward zero (Rust's `/` on integers).
pub open spec fn div_trunc(a: int, b: int) -> int {
    if a >= 0 {
        a / b
    } else {
        -((-a) / b)
    }
}

/// Number of frames of `n` samples with `ch` channels (the last may be short).
pub open spec fn frame_count(n: int, ch: int) -> int {
    (n + ch - 1) / ch
}

/// Frame `k`: samples `k * ch` up to `(k + 1) * ch` (or the end).
pub open spec fn frame(data: Seq<i16>, ch: int, k: int) -> Seq<i16> {
    let end = if (k + 1) * ch <= data.len() {
        (k + 1) * ch
    } else {
        data.len() as int
    };
    data.subrange(k * ch, end)
}

pub proof fn lemma_sum_bounds(s: Seq<i16>)
    ensures
        -32768 * s.len() <= sum_samples(s) <= 32767 * s.len(),
    decreases s.len(),
{
    if s.len() > 0 {
        lemma_sum_bounds(s.drop_last());
    }
}

/// Mono average of interleaved `i16` samples with `channels` channels: each
/// frame's sum divided by the channel count (toward zero), a short last
/// frame included.
pub fn downmix_i16(data: &[i16], channels: usize) -> (r: Vec<i16>)
    requires
        1 <= channels <= 65536,
    ensures
        r@.len() == frame_count(data@.len() as int, channels as int),
        forall|k: int|
            0 <= k < r@.len() ==> #[trigger] r@[k] == div_trunc(
                sum_samples(frame(data@, channels as int, k)),
                channels as int,
            ),
{
    let n = data.len();
    let mut out: Vec<i16> = Vec::new();
    let mut start: usize = 0;
    let ghost ch = channels as int;
    proof {
        assert(0 * ch == 0) by (nonlinear_arith);
        assert(frame_count(0, ch) == 0) by (nonlinear_arith)
            requires
                ch >= 1,
        ;
    }
    while start < n
        invariant
            n == data@.len(),
            1 <= channels <= 65536,
            ch == channels as int,
            start <= n,
            start == out@.len() * ch || start == n,
            start < n ==> start == out@.len() * ch,
            start == n ==> out@.len() == frame_count(n as int, ch),
            forall|k: int|
                0 <= k < out@.len() ==> #[trigger] out@[k] == div_trunc(
                    sum_samples(frame(data@, ch, k)),
                    ch,
                ),
        decreases n - start,
    {
        let end = if n - start >= channels {
            start + channels
        } else {
            n
        };
        let mut sum: i32 = 0;
        let mut i = start;
        while i < end
            invariant
                start <= i <= end <= n,
                n == data@.len(),
                end - start <= 65536,
                sum == sum_samples(data@.subrange(start as int, i as int)),
            decreases end - i,
        {
            proof {
                lemma_sum_bounds(data@.subrange(start as int, i as int));
                assert(data@.subrange(start as int, i + 1).drop_last() =~= data@.subrange(
                    start as int,
                    i as int,
                ));
            }
            sum = sum + data[i] as i32;
            i = i + 1;
        }
        let k = out.len();
        proof {
            lemma_sum_bounds(data@.subrange(start as int, end as int));
            assert(frame(data@, ch, k as int) =~= data@.subrange(start as int, end as int)) by {
                assert(start == k * ch);
                if n - start >= channels {
                    assert((k + 1) * ch == start + ch) by (nonlinear_arith)
                        requires
                            start == k * ch,
                    ;
                } else {
                    assert((k + 1) * ch > n) by (nonlinear_arith)
                        requires
                            start == k * ch,
                            n - start < ch,
                    ;
                }
            }
        }
        let c = channels as i32;
        let q: i32 = if sum >= 0 {
            sum / c
        } else {
            -((-(sum as i64)) / (c as i64)) as i32
        };
        proof {
            let s = sum as int;
            let len = (end - start) as int;
            assert(len <= ch);
            if s >= 0 {
                assert(s / ch <= 32767) by (nonlinear_arith)
                    requires
                        0 <= s <= 32767 * len,
                        len <= ch,
                        ch >= 1,
                ;
            } else {
                assert((-s) / ch <= 32768) by (nonlinear_arith)
                    requires
                        0 < -s <= 32768 * len,
                        len <= ch,
                        ch >= 1,
                ;
            }
        }
        out.push(q as i16);
        proof {
            if end == n {
                assert(frame_count(n as int, ch) == k + 1) by (nonlinear_arith)
                    requires
                        start == k * ch,
                        start < n,
                        n - start <= ch,
                        ch >= 1,
                ;
            } else {
                assert(end == (k + 1) * ch) by (nonlinear_arith)
                    requires
                        start == k * ch,
                        end == start + ch,
                ;
            }
        }
        start = end;
    }
    proof {
        if n == 0 {
            assert(frame_count(0, ch) == 0) by (nonlinear_arith)
                requires
                    ch >= 1,
            ;
        }
    }
    out
}


/// With one channel, downmixing keeps every sample.
pub proof fn lemma_mono_unchanged(data: Seq<i16>, k: int)
    requires
        0 <= k < data.len(),
    ensures
        frame_count(data.len() as int, 1) == data.len(),
        div_trunc(sum_samples(frame(data, 1, k)), 1) == data[k],
{
    let f = frame(data, 1, k);
    assert(f =~= seq![data[k]]);
    assert(f.drop_last() =~= Seq::<i16>::empty());
    assert(sum_samples(f.drop_last()) == 0);
    assert(f.last() == data[k]);
    assert(sum_samples(f) == data[k] as int);
    let x = data[k] as int;
    assert(x / 1 == x);
    assert((-x) / 1 == -x);
    assert((data.len() + 1 - 1) / 1 == data.len());
}

} // verus!
