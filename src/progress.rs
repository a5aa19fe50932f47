//! Overall progress of a crf search on a fixed scale of `BAR_LEN` units.
//!
//! The first two iterations and a quick third one use a single sample and
//! count as one unit of work; every other iteration counts as three.
use vstd::prelude::*;

verus! {

/// Length of the progress scale.
pub const BAR_LEN: u64 = 1000;

/// Fractions of one sample run are given in thousandths.
pub const FRACTION_SCALE: u64 = 1000;

/// Units of work that the whole search is guessed to take while in iteration `run`.
pub open spec fn guess_total_units(run: int, quick_3rd_run: bool) -> int {
    if run <= 4 {
        if quick_3rd_run { 6int } else { 8int }
    } else if quick_3rd_run {
        3 + (run - 3) * 3
    } else {
        2 + (run - 2) * 3
    }
}

/// Units of work finished before iteration `run` starts.
pub open spec fn units_done(run: int, quick_3rd_run: bool) -> int {
    if run == 1 {
        0int
    } else if run == 2 {
        1
    } else if run == 3 && quick_3rd_run {
        2
    } else if quick_3rd_run {
        3 + (run - 4) * 3
    } else {
        2 + (run - 3) * 3
    }
}

/// Units of work that iteration `run` itself takes.
pub open spec fn run_units(run: int, quick_3rd_run: bool) -> int {
    if run <= 2 || (run == 3 && quick_3rd_run) { 1int } else { 3int }
}

/// Guessed overall progress, in units of the scale, when the current sample
/// run is `fraction` thousandths done.
pub open spec fn progress_of(run: int, fraction: int, quick_3rd_run: bool) -> int {
    (BAR_LEN * (units_done(run, quick_3rd_run) * FRACTION_SCALE + run_units(run, quick_3rd_run)
        * fraction)) / (guess_total_units(run, quick_3rd_run) * FRACTION_SCALE)
}

/// Completed fraction, in thousandths rounded down, of a sample run that
/// reports `position` out of `length` (an empty length counts as one).
pub open spec fn fraction_of(position: int, length: int) -> int {
    (FRACTION_SCALE * position) / if length < 1 { 1 } else { length }
}

proof fn lemma_units_fit(run: int, quick_3rd_run: bool)
    requires
        run >= 1,
    ensures
        0 <= units_done(run, quick_3rd_run),
        units_done(run, quick_3rd_run) + run_units(run, quick_3rd_run) <= guess_total_units(
            run,
            quick_3rd_run,
        ),
        guess_total_units(run, quick_3rd_run) >= 6,
        guess_total_units(run, quick_3rd_run) <= 3 * run + 5,
{
}

/// Completed fraction, in thousandths, of a sample run at `position` of `length`.
pub fn sample_fraction(position: u64, length: u64) -> (r: u64)
    requires
        position <= length,
    ensures
        r == fraction_of(position as int, length as int),
        r <= FRACTION_SCALE,
{
    let len: u64 = if length < 1 { 1 } else { length };
    let num: u128 = (FRACTION_SCALE as u128) * (position as u128);
    let q: u128 = num / (len as u128);
    proof {
        if length >= 1 {
            assert(num <= (FRACTION_SCALE as u128) * (len as u128)) by (nonlinear_arith)
                requires num == (FRACTION_SCALE as u128) * (position as u128), position <= len;
            vstd::arithmetic::div_mod::lemma_div_is_ordered(
                num as int,
                FRACTION_SCALE * len,
                len as int,
            );
            vstd::arithmetic::div_mod::lemma_div_by_multiple(FRACTION_SCALE as int, len as int);
        }
    }
    q as u64
}

/// Guessed overall progress of the search, in units of `BAR_LEN`, during
/// iteration `run` (counted from one) when its sample run is `fraction`
/// thousandths done.
pub fn guess_progress(run: u64, fraction: u64, quick_3rd_run: bool) -> (r: u64)
    requires
        run >= 1,
        fraction <= FRACTION_SCALE,
    ensures
        r == progress_of(run as int, fraction as int, quick_3rd_run),
        r <= BAR_LEN,
{
    proof {
        lemma_units_fit(run as int, quick_3rd_run);
    }
    let r128: u128 = run as u128;
    let total: u128 = if run <= 4 {
        if quick_3rd_run { 6 } else { 8 }
    } else if quick_3rd_run {
        3 + (r128 - 3) * 3
    } else {
        2 + (r128 - 2) * 3
    };
    let done: u128 = if run == 1 {
        0
    } else if run == 2 {
        1
    } else if run == 3 && quick_3rd_run {
        2
    } else if quick_3rd_run {
        3 + (r128 - 4) * 3
    } else {
        2 + (r128 - 3) * 3
    };
    let units: u128 = if run <= 2 || (run == 3 && quick_3rd_run) { 1 } else { 3 };
    let scale: u128 = FRACTION_SCALE as u128;
    assert(done * scale + units * (fraction as u128) <= total * scale) by (nonlinear_arith)
        requires
            done + units <= total,
            fraction <= scale,
            scale == 1000,
            units <= 3,
    ;
    let num: u128 = (BAR_LEN as u128) * (done * scale + units * (fraction as u128));
    let den: u128 = total * scale;
    let q: u128 = num / den;
    proof {
        assert(num <= (BAR_LEN as u128) * den) by (nonlinear_arith)
            requires
                num == 1000 * (done * scale + units * (fraction as u128)),
                done * scale + units * (fraction as u128) <= total * scale,
                den == total * scale,
        ;
        vstd::arithmetic::div_mod::lemma_div_is_ordered(num as int, BAR_LEN * den, den as int);
        vstd::arithmetic::div_mod::lemma_div_by_multiple(BAR_LEN as int, den as int);
    }
    q as u64
}

/// Within one iteration the guessed progress never goes back as the sample
/// run advances, and never passes the end of the scale.
pub proof fn lemma_progress_monotonic(run: int, f1: int, f2: int, quick_3rd_run: bool)
    requires
        run >= 1,
        0 <= f1 <= f2 <= FRACTION_SCALE,
    ensures
        progress_of(run, f1, quick_3rd_run) <= progress_of(run, f2, quick_3rd_run),
        0 <= progress_of(run, f1, quick_3rd_run),
        progress_of(run, f2, quick_3rd_run) <= BAR_LEN,
{
    lemma_units_fit(run, quick_3rd_run);
    let done = units_done(run, quick_3rd_run);
    let units = run_units(run, quick_3rd_run);
    let total = guess_total_units(run, quick_3rd_run);
    let den = total * FRACTION_SCALE;
    let n1 = BAR_LEN * (done * FRACTION_SCALE + units * f1);
    let n2 = BAR_LEN * (done * FRACTION_SCALE + units * f2);
    assert(0 <= n1 <= n2 <= BAR_LEN * den) by (nonlinear_arith)
        requires
            n1 == 1000 * (done * 1000 + units * f1),
            n2 == 1000 * (done * 1000 + units * f2),
            den == total * 1000,
            0 <= done,
            done + units <= total,
            1 <= units <= 3,
            0 <= f1 <= f2 <= 1000,
    ;
    vstd::arithmetic::div_mod::lemma_div_is_ordered(n1, n2, den);
    vstd::arithmetic::div_mod::lemma_div_is_ordered(n2, BAR_LEN * den, den);
    vstd::arithmetic::div_mod::lemma_div_by_multiple(BAR_LEN as int, den);
    vstd::arithmetic::div_mod::lemma_div_pos_is_pos(n1, den);
}

} // verus!
