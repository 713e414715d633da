//! How a track's loudness envelope is cut into the bars the seek bar draws:
//! bar `i` of `bars` covers its share of the envelope, never less than one
//! value and never past the end.
use vstd::prelude::*;

verus! {

/// Bars drawn in the seek bar.
pub const WAVEFORM_BARS: usize = 72;

/// Loudness values kept per track.
pub const ENVELOPE_BUCKETS: usize = 1500;

/// The values of an envelope of `len` that bar `i` of `bars` covers: from
/// `i * len / bars` to `(i + 1) * len / bars`, widened to one value when
/// that is empty, and cut at the end.
pub open spec fn window(len: nat, bars: nat, i: nat) -> (nat, nat) {
    let low = i * len / bars;
    let high = (i + 1) * len / bars;
    let widened = if high > low + 1 { high } else { low + 1 };
    (low, if widened < len { widened } else { len })
}

/// The window of each of `bars` bars over an envelope of `len` values.
pub fn bar_windows(len: usize, bars: usize) -> (r: Vec<(usize, usize)>)
    requires
        bars * len <= usize::MAX,
    ensures
        r@.len() == bars,
        forall|i: int| 0 <= i < bars ==> (#[trigger] r@[i]).0 == window(len as nat, bars as nat, i as nat).0
            && r@[i].1 == window(len as nat, bars as nat, i as nat).1,
{
    let mut out: Vec<(usize, usize)> = Vec::new();
    let mut i: usize = 0;
    while i < bars
        invariant
            i <= bars,
            bars * len <= usize::MAX,
            out@.len() == i,
            forall|k: int| 0 <= k < i ==> (#[trigger] out@[k]).0 == window(len as nat, bars as nat, k as nat).0
                && out@[k].1 == window(len as nat, bars as nat, k as nat).1,
        decreases bars - i,
    {
        assert((i + 1) * len <= bars * len) by (nonlinear_arith)
            requires
                i < bars,
        ;
        assert(i * len <= (i + 1) * len) by (nonlinear_arith);
        proof {
            if len > 0 {
                windows_stay_inside_and_move_forward(len as nat, bars as nat, i as nat);
            } else {
                assert(i * len == 0);
            }
        }
        let low = i * len / bars;
        let high = (i + 1) * len / bars;
        let widened = if high > low + 1 {
            high
        } else {
            low + 1
        };
        let cut = if widened < len {
            widened
        } else {
            len
        };
        out.push((low, cut));
        i += 1;
    }
    out
}

/// Over a non-empty envelope every bar covers at least one value, inside the
/// envelope; the bars go forward through it, the first starting at its start.
pub proof fn windows_stay_inside_and_move_forward(len: nat, bars: nat, i: nat)
    requires
        len > 0,
        i < bars,
    ensures
        window(len, bars, i).0 < window(len, bars, i).1 <= len,
        i + 1 < bars ==> window(len, bars, i).0 <= window(len, bars, i + 1).0,
        window(len, bars, 0).0 == 0,
{
    assert(i * len / bars < len) by (nonlinear_arith)
        requires
            i < bars,
            len > 0,
    {
        assert(i * len < bars * len);
        vstd::arithmetic::div_mod::lemma_div_by_multiple_is_strongly_ordered(
            (i * len) as int,
            (bars * len) as int,
            len as int,
            bars as int,
        );
    };
    if i + 1 < bars {
        assert(i * len / bars <= (i + 1) * len / bars) by (nonlinear_arith)
            requires
                bars > 0,
        {
            assert(i * len <= (i + 1) * len);
            vstd::arithmetic::div_mod::lemma_div_is_ordered((i * len) as int, ((i + 1) * len) as int, bars as int);
        };
    }
    assert(0 * len / bars == 0) by (nonlinear_arith)
        requires
            bars > 0,
    ;
}

} // verus!
