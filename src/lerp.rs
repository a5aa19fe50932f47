//! Choosing a crf between two samples by linear interpolation of VMAF.
use vstd::prelude::*;
use crate::sample::Sample;

verus! {

/// Samples that bracket the target: `worse` is at or below `min_vmaf`, below
/// `better` in VMAF, and at a higher crf.
pub open spec fn brackets(min_vmaf: u64, worse: Sample, better: Sample) -> bool {
    &&& worse.enc.vmaf <= min_vmaf
    &&& worse.enc.vmaf < better.enc.vmaf
    &&& better.crf < worse.crf
}

/// The crf at which the line through `(worse.crf, worse.vmaf)` and
/// `(better.crf, better.vmaf)` reaches `min_vmaf`, before rounding:
/// `worse.crf - (worse.crf - better.crf) * fraction`, where `fraction` is
/// `(min_vmaf - worse.vmaf) / (better.vmaf - worse.vmaf)`. It is returned as
/// the numerator over `2 * (better.vmaf - worse.vmaf)`, shifted up by one half
/// so that rounding to nearest (halves up) is a floor division.
pub open spec fn lerp_numerator(min_vmaf: u64, worse: Sample, better: Sample) -> int {
    let vmaf_diff = better.enc.vmaf - worse.enc.vmaf;
    let crf_diff = worse.crf - better.crf;
    2 * worse.crf * vmaf_diff - 2 * crf_diff * (min_vmaf - worse.enc.vmaf) + vmaf_diff
}

/// The interpolated crf rounded to nearest, without the lower bound.
pub open spec fn lerp_rounded(min_vmaf: u64, worse: Sample, better: Sample) -> int {
    lerp_numerator(min_vmaf, worse, better) / (2 * (better.enc.vmaf - worse.enc.vmaf))
}

/// The interpolated crf rounded to nearest, and at least one above `better.crf`.
pub open spec fn lerp_crf(min_vmaf: u64, worse: Sample, better: Sample) -> int {
    let r = lerp_rounded(min_vmaf, worse, better);
    if r > better.crf + 1 { r } else { better.crf + 1 }
}

proof fn lemma_rounded_at_most_worse(min_vmaf: u64, worse: Sample, better: Sample)
    requires
        brackets(min_vmaf, worse, better),
    ensures
        lerp_rounded(min_vmaf, worse, better) <= worse.crf,
{
    let d = better.enc.vmaf - worse.enc.vmaf;
    let n = lerp_numerator(min_vmaf, worse, better);
    let w = worse.crf as int;
    assert(n < (w + 1) * (2 * d)) by (nonlinear_arith)
        requires
            n == 2 * w * d - 2 * (worse.crf - better.crf) * (min_vmaf - worse.enc.vmaf) + d,
            d > 0,
            worse.crf - better.crf > 0,
            min_vmaf - worse.enc.vmaf >= 0,
    ;
    vstd::arithmetic::div_mod::lemma_div_is_ordered(n, (w + 1) * (2 * d) - 1, 2 * d);
    vstd::arithmetic::div_mod::lemma_fundamental_div_mod((w + 1) * (2 * d) - 1, 2 * d);
    vstd::arithmetic::div_mod::lemma_mod_bound((w + 1) * (2 * d) - 1, 2 * d);
    assert(((w + 1) * (2 * d) - 1) / (2 * d) <= w) by (nonlinear_arith)
        requires
            (w + 1) * (2 * d) - 1 == (2 * d) * (((w + 1) * (2 * d) - 1) / (2 * d)) + ((w + 1)
                * (2 * d) - 1) % (2 * d),
            0 <= ((w + 1) * (2 * d) - 1) % (2 * d),
            d > 0,
    ;
}

/// Produces a crf value between two samples by linear interpolation of their
/// VMAF scores.
pub fn vmaf_lerp_crf(min_vmaf: u64, worse: &Sample, better: &Sample) -> (r: u8)
    requires
        brackets(min_vmaf, *worse, *better),
    ensures
        r == lerp_crf(min_vmaf, *worse, *better),
        better.crf < r <= worse.crf,
{
    proof {
        lemma_rounded_at_most_worse(min_vmaf, *worse, *better);
    }
    let vmaf_diff: u128 = (better.enc.vmaf - worse.enc.vmaf) as u128;
    let vmaf_gap: u128 = (min_vmaf - worse.enc.vmaf) as u128;
    let crf_diff: u128 = (worse.crf - better.crf) as u128;
    assert(2 * (worse.crf as u128) * vmaf_diff + vmaf_diff <= 0x10000_0000_0000_0000_0000_0000)
        by (nonlinear_arith)
        requires
            vmaf_diff <= 0xffff_ffff_ffff_ffff,
            worse.crf <= 255,
    ;
    assert(2 * crf_diff * vmaf_gap <= 0x10000_0000_0000_0000_0000_0000) by (nonlinear_arith)
        requires
            vmaf_gap <= 0xffff_ffff_ffff_ffff,
            crf_diff <= 255,
    ;
    let up: u128 = 2 * (worse.crf as u128) * vmaf_diff + vmaf_diff;
    let down: u128 = 2 * crf_diff * vmaf_gap;
    let floor = better.crf + 1;
    if up < down {
        proof {
            let n = lerp_numerator(min_vmaf, *worse, *better);
            assert(n < 0);
            vstd::arithmetic::div_mod::lemma_div_is_ordered(n, 0, 2 * vmaf_diff);
            assert(0int / (2 * vmaf_diff as int) == 0) by (nonlinear_arith)
                requires vmaf_diff > 0;
        }
        floor
    } else {
        let rounded: u128 = (up - down) / (2 * vmaf_diff);
        let rounded: u8 = rounded as u8;
        if rounded > floor { rounded } else { floor }
    }
}

/// Interpolation stays strictly above `better.crf` and at or below
/// `worse.crf`. Before the lower bound is applied it lands strictly below
/// `worse.crf` whenever the interpolated step down from `worse.crf` is at
/// more than half a crf, that is whenever
/// `2 * (worse.crf - better.crf) * (min_vmaf - worse.vmaf)` exceeds
/// `better.vmaf - worse.vmaf`; so does the result when the two crfs are not
/// adjacent.
pub proof fn lemma_lerp_between(min_vmaf: u64, worse: Sample, better: Sample)
    requires
        brackets(min_vmaf, worse, better),
    ensures
        better.crf < lerp_crf(min_vmaf, worse, better) <= worse.crf,
        2 * (worse.crf - better.crf) * (min_vmaf - worse.enc.vmaf) > better.enc.vmaf
            - worse.enc.vmaf ==> lerp_rounded(min_vmaf, worse, better) < worse.crf,
        2 * (worse.crf - better.crf) * (min_vmaf - worse.enc.vmaf) > better.enc.vmaf
            - worse.enc.vmaf && better.crf + 1 < worse.crf ==> lerp_crf(min_vmaf, worse, better)
            < worse.crf,
{
    lemma_rounded_at_most_worse(min_vmaf, worse, better);
    let d = better.enc.vmaf - worse.enc.vmaf;
    let n = lerp_numerator(min_vmaf, worse, better);
    let w = worse.crf as int;
    let c = worse.crf - better.crf;
    let g = min_vmaf - worse.enc.vmaf;
    let x = c * g;
    assert(2 * c * g == 2 * x) by (nonlinear_arith)
        requires
            x == c * g,
    ;
    assert(n == 2 * w * d - 2 * x + d);
    if 2 * x > d {
        assert(2 * w * d == w * (2 * d)) by (nonlinear_arith);
        assert(n <= w * (2 * d) - 1);
        vstd::arithmetic::div_mod::lemma_div_is_ordered(n, w * (2 * d) - 1, 2 * d);
        vstd::arithmetic::div_mod::lemma_fundamental_div_mod(w * (2 * d) - 1, 2 * d);
        vstd::arithmetic::div_mod::lemma_mod_bound(w * (2 * d) - 1, 2 * d);
        assert((w * (2 * d) - 1) / (2 * d) < w) by (nonlinear_arith)
            requires
                w * (2 * d) - 1 == (2 * d) * ((w * (2 * d) - 1) / (2 * d)) + (w * (2 * d) - 1) % (2
                    * d),
                0 <= (w * (2 * d) - 1) % (2 * d),
                d > 0,
        ;
    }
}

} // verus!
