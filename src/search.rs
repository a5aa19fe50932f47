//! The crf search itself, as a state machine: the caller runs the sample
//! encode that `crf` and `samples` ask for, hands its output to `record`, and
//! follows the returned decision.
use vstd::prelude::*;
use crate::lerp::{brackets, lemma_lerp_between, lerp_crf, vmaf_lerp_crf};
use crate::neighbour::{
    last_of_crf,
    lemma_lower_neighbour,
    lemma_upper_neighbour,
    lower_neighbour,
    lower_neighbour_of,
    upper_neighbour,
    upper_neighbour_of,
};
use crate::progress::{guess_progress, progress_of, FRACTION_SCALE};
use crate::sample::{size_exceeded, vmaf_met, Sample, SampleOutput, SearchConfig};

verus! {

/// How far, in thousandths of a VMAF point per iteration, a sample may go
/// above the target and still be accepted from the third iteration on.
pub const TOLERANCE_STEP: u64 = 200;

/// Why a search could not start.
#[derive(Clone, Copy, Debug, PartialEq, Eq, Structural)]
pub enum SearchError {
    /// `min_crf` is above `max_crf`.
    InvalidCrfRange,
}

/// What to do after a sample run.
#[derive(Clone, Copy, Debug, PartialEq, Eq, Structural)]
pub enum Decision {
    /// Sample this crf next.
    Next(u8),
    /// The search is over: this sample is the answer.
    Found(Sample),
    /// The search is over without an answer: this is the last sample taken.
    Failed(Sample),
}

/// Middle of two crfs, rounded down.
pub open spec fn midpoint(a: int, b: int) -> int {
    (a + b) / 2
}

/// Number of samples to take in iteration `run` when sampling `crf`.
pub open spec fn samples_for(cfg: SearchConfig, run: int, crf: int) -> u64 {
    if run <= 2 {
        1
    } else if run == 3 && (crf == cfg.min_crf || crf == cfg.max_crf) {
        1
    } else {
        cfg.samples
    }
}

/// Whether a quick single-sample third iteration has been used, once
/// iteration `run` samples `crf`.
pub open spec fn quick_after(quick: bool, cfg: SearchConfig, run: int, crf: int) -> bool {
    quick || (run == 3 && (crf == cfg.min_crf || crf == cfg.max_crf))
}

/// What follows from the sample `cur` taken in iteration `run`, given the
/// samples taken before it.
pub open spec fn decide(cfg: SearchConfig, run: int, cur: Sample, history: Seq<Sample>) -> Decision {
    if vmaf_met(cur, cfg.min_vmaf) {
        if run > 2 && cur.enc.predicted_encode_percent < cfg.max_encoded_percent && cur.enc.vmaf
            < cfg.min_vmaf + TOLERANCE_STEP * run {
            Decision::Found(cur)
        } else {
            match upper_neighbour(history, cur.crf as int) {
                Some(u) => if u.crf == cur.crf + 1 {
                    Decision::Found(cur)
                } else {
                    Decision::Next(lerp_crf(cfg.min_vmaf, u, cur) as u8)
                },
                None => if cur.crf == cfg.max_crf {
                    Decision::Found(cur)
                } else if run == 1 && cur.crf + 1 < cfg.max_crf {
                    Decision::Next(midpoint(cur.crf as int, cfg.max_crf as int) as u8)
                } else {
                    Decision::Next(cfg.max_crf)
                },
            }
        }
    } else if size_exceeded(cur, cfg.max_encoded_percent) || cur.crf == cfg.min_crf {
        Decision::Failed(cur)
    } else {
        match lower_neighbour(history, cur.crf as int) {
            Some(l) => if l.crf + 1 == cur.crf {
                Decision::Found(l)
            } else {
                Decision::Next(lerp_crf(cfg.min_vmaf, cur, l) as u8)
            },
            None => if run == 1 && cur.crf > cfg.min_crf + 1 {
                Decision::Next(midpoint(cfg.min_crf as int, cur.crf as int) as u8)
            } else {
                Decision::Next(cfg.min_crf)
            },
        }
    }
}

/// What holds of the samples taken so far while `crf` is the next to sample:
/// all crfs lie in the configured range, every sample that met the target
/// lies below `crf`, and below `crf` the latest sample of each crf met it.
pub open spec fn consistent(cfg: SearchConfig, crf: int, attempts: Seq<Sample>) -> bool {
    &&& cfg.min_crf <= crf <= cfg.max_crf
    &&& forall|i: int|
        0 <= i < attempts.len() ==> cfg.min_crf <= #[trigger] attempts[i].crf <= cfg.max_crf
    &&& forall|i: int|
        0 <= i < attempts.len() && vmaf_met(#[trigger] attempts[i], cfg.min_vmaf) ==> attempts[i].crf
            < crf
    &&& forall|i: int|
        0 <= i < attempts.len() && #[trigger] attempts[i].crf < crf && last_of_crf(attempts, i)
            ==> vmaf_met(attempts[i], cfg.min_vmaf)
}

/// What a decision says of the sample `cur`, given consistent history: the
/// samples to interpolate between bracket the target, a next crf keeps the
/// history consistent, and an answer lies in range and meets the target.
pub proof fn lemma_decide(cfg: SearchConfig, run: int, cur: Sample, history: Seq<Sample>)
    requires
        consistent(cfg, cur.crf as int, history),
    ensures
        vmaf_met(cur, cfg.min_vmaf) ==> match upper_neighbour(history, cur.crf as int) {
            Some(u) => brackets(cfg.min_vmaf, u, cur),
            None => true,
        },
        !vmaf_met(cur, cfg.min_vmaf) ==> match lower_neighbour(history, cur.crf as int) {
            Some(l) => brackets(cfg.min_vmaf, cur, l),
            None => true,
        },
        match decide(cfg, run, cur, history) {
            Decision::Next(crf) => consistent(cfg, crf as int, history.push(cur)),
            Decision::Found(s) => cfg.min_crf <= s.crf <= cfg.max_crf && vmaf_met(s, cfg.min_vmaf),
            Decision::Failed(s) => s == cur && !vmaf_met(cur, cfg.min_vmaf),
        },
{
    let c = cur.crf as int;
    let t = history.push(cur);
    lemma_upper_neighbour(history, c);
    lemma_lower_neighbour(history, c);
    assert(forall|j: int| 0 <= j < history.len() ==> t[j] == history[j]);
    assert(t[history.len() as int] == cur);
    if vmaf_met(cur, cfg.min_vmaf) {
        match upper_neighbour(history, c) {
            Some(u) => {
                let i = choose|i: int| 0 <= i < history.len() && history[i] == u;
                assert(!vmaf_met(history[i], cfg.min_vmaf));
                lemma_lerp_between(cfg.min_vmaf, u, cur);
            },
            None => {},
        }
        match decide(cfg, run, cur, history) {
            Decision::Next(p) => {
                assert(p > c);
                assert forall|i: int|
                    0 <= i < t.len() && #[trigger] t[i].crf < p && last_of_crf(t, i) implies vmaf_met(
                    t[i],
                    cfg.min_vmaf,
                ) by {
                    if i < history.len() {
                        assert(t[i] == history[i]);
                        assert(t[i].crf != c) by {
                            assert(t[history.len() as int].crf == c);
                        }
                        assert(last_of_crf(history, i)) by {
                            assert forall|k: int| i < k < history.len() implies #[trigger] history[k].crf
                                != history[i].crf by {
                                assert(t[k] == history[k]);
                            }
                        }
                    }
                }
            },
            _ => {},
        }
    } else {
        match lower_neighbour(history, c) {
            Some(l) => {
                let i = choose|i: int|
                    0 <= i < history.len() && history[i] == l && last_of_crf(history, i);
                assert(vmaf_met(history[i], cfg.min_vmaf));
                lemma_lerp_between(cfg.min_vmaf, cur, l);
            },
            None => {},
        }
        match decide(cfg, run, cur, history) {
            Decision::Next(p) => {
                assert(p <= c);
                assert forall|i: int|
                    0 <= i < t.len() && vmaf_met(#[trigger] t[i], cfg.min_vmaf) implies t[i].crf
                    < p by {
                    if i < history.len() {
                        assert(t[i] == history[i]);
                    }
                }
                assert forall|i: int|
                    0 <= i < t.len() && #[trigger] t[i].crf < p && last_of_crf(t, i) implies vmaf_met(
                    t[i],
                    cfg.min_vmaf,
                ) by {
                    if i < history.len() {
                        assert(t[i] == history[i]);
                        assert(last_of_crf(history, i)) by {
                            assert forall|k: int| i < k < history.len() implies #[trigger] history[k].crf
                                != history[i].crf by {
                                assert(t[k] == history[k]);
                            }
                        }
                    }
                }
            },
            _ => {},
        }
    }
}

/// Once the sample just taken has an earlier neighbour one crf away on the
/// side the search would move to (above it when it met the target, below it
/// when it did not), the search ends: no further crf is sampled.
pub proof fn lemma_adjacent_ends_search(
    cfg: SearchConfig,
    run: int,
    cur: Sample,
    history: Seq<Sample>,
)
    requires
        vmaf_met(cur, cfg.min_vmaf) ==> match upper_neighbour(history, cur.crf as int) {
            Some(u) => u.crf == cur.crf + 1,
            None => false,
        },
        !vmaf_met(cur, cfg.min_vmaf) ==> match lower_neighbour(history, cur.crf as int) {
            Some(l) => l.crf + 1 == cur.crf,
            None => false,
        },
    ensures
        !(decide(cfg, run, cur, history) matches Decision::Next(_)),
{
}

/// The sample taken at the search's current crf with its current sample count.
pub open spec fn sample_at(crf: u8, samples: u64, enc: SampleOutput) -> Sample {
    Sample { crf, samples, enc }
}

/// A running crf search.
pub struct CrfSearch {
    config: SearchConfig,
    crf: u8,
    samples: u64,
    run: u64,
    quick_3rd_run: bool,
    attempts: Vec<Sample>,
    finished: bool,
}

impl CrfSearch {
    pub closed spec fn spec_config(&self) -> SearchConfig {
        self.config
    }

    pub closed spec fn spec_crf(&self) -> u8 {
        self.crf
    }

    pub closed spec fn spec_samples(&self) -> u64 {
        self.samples
    }

    pub closed spec fn spec_run(&self) -> u64 {
        self.run
    }

    pub closed spec fn spec_quick_3rd_run(&self) -> bool {
        self.quick_3rd_run
    }

    pub closed spec fn spec_attempts(&self) -> Seq<Sample> {
        self.attempts@
    }

    pub closed spec fn spec_finished(&self) -> bool {
        self.finished
    }

    /// The state is one that a search can reach.
    pub closed spec fn wf(&self) -> bool {
        &&& self.run >= 1
        &&& self.run < 3 ==> !self.quick_3rd_run
        &&& self.samples == samples_for(self.config, self.run as int, self.crf as int)
        &&& self.config.min_crf <= self.crf <= self.config.max_crf
        &&& !self.finished ==> consistent(self.config, self.crf as int, self.attempts@)
    }

    /// Starts a search at the middle of the crf range, or fails at once when
    /// the range is empty.
    pub fn new(config: SearchConfig) -> (r: Result<CrfSearch, SearchError>)
        ensures
            config.min_crf > config.max_crf <==> r == Err::<CrfSearch, SearchError>(
                SearchError::InvalidCrfRange,
            ),
            r matches Ok(s) ==> {
                &&& s.wf()
                &&& s.spec_config() == config
                &&& s.spec_crf() == midpoint(config.min_crf as int, config.max_crf as int)
                &&& s.spec_samples() == 1
                &&& s.spec_run() == 1
                &&& !s.spec_quick_3rd_run()
                &&& !s.spec_finished()
                &&& s.spec_attempts() == Seq::<Sample>::empty()
            },
    {
        if config.min_crf > config.max_crf {
            return Err(SearchError::InvalidCrfRange);
        }
        let crf = ((config.min_crf as u16 + config.max_crf as u16) / 2) as u8;
        let s = CrfSearch {
            config,
            crf,
            samples: 1,
            run: 1,
            quick_3rd_run: false,
            attempts: Vec::new(),
            finished: false,
        };
        assert(s.attempts@ =~= Seq::<Sample>::empty());
        Ok(s)
    }

    /// The settings of this search.
    pub fn config(&self) -> (r: SearchConfig)
        ensures
            r == self.spec_config(),
    {
        self.config
    }

    /// The crf to sample next.
    pub fn crf(&self) -> (r: u8)
        requires
            self.wf(),
        ensures
            r == self.spec_crf(),
            self.spec_config().min_crf <= r <= self.spec_config().max_crf,
    {
        self.crf
    }

    /// The number of samples to take at the next crf.
    pub fn samples(&self) -> (r: u64)
        requires
            self.wf(),
        ensures
            r == self.spec_samples(),
            r == samples_for(self.spec_config(), self.spec_run() as int, self.spec_crf() as int),
    {
        self.samples
    }

    /// The current iteration, counted from one.
    pub fn run(&self) -> (r: u64)
        ensures
            r == self.spec_run(),
    {
        self.run
    }

    /// Whether the third iteration took a single sample on a bound of the range.
    pub fn quick_3rd_run(&self) -> (r: bool)
        ensures
            r == self.spec_quick_3rd_run(),
    {
        self.quick_3rd_run
    }

    /// The samples taken so far, oldest first.
    pub fn attempts(&self) -> (r: &Vec<Sample>)
        ensures
            r@ == self.spec_attempts(),
    {
        &self.attempts
    }

    /// Whether a decision other than `Next` has ended the search.
    pub fn is_finished(&self) -> (r: bool)
        ensures
            r == self.spec_finished(),
    {
        self.finished
    }

    /// Guessed overall progress, in units of the progress scale, while the
    /// current sample run is `fraction` thousandths done.
    pub fn progress(&self, fraction: u64) -> (r: u64)
        requires
            self.wf(),
            fraction <= FRACTION_SCALE,
        ensures
            r == progress_of(self.spec_run() as int, fraction as int, self.spec_quick_3rd_run()),
    {
        guess_progress(self.run, fraction, self.quick_3rd_run)
    }

    /// Records the output of the sample run at the current crf and decides
    /// what comes next. On `Next` the search moves to the next iteration at
    /// that crf; otherwise it is over and only the record of samples grows.
    pub fn record(&mut self, enc: SampleOutput) -> (r: Decision)
        requires
            old(self).wf(),
            !old(self).spec_finished(),
            old(self).spec_run() < u64::MAX,
        ensures
            final(self).wf(),
            final(self).spec_finished() == !(r matches Decision::Next(_)),
            r == decide(
                old(self).spec_config(),
                old(self).spec_run() as int,
                sample_at(old(self).spec_crf(), old(self).spec_samples(), enc),
                old(self).spec_attempts(),
            ),
            final(self).spec_config() == old(self).spec_config(),
            final(self).spec_attempts() == old(self).spec_attempts().push(
                sample_at(old(self).spec_crf(), old(self).spec_samples(), enc),
            ),
            match r {
                Decision::Next(crf) => {
                    &&& final(self).spec_crf() == crf
                    &&& final(self).spec_run() == old(self).spec_run() + 1
                    &&& final(self).spec_samples() == samples_for(
                        old(self).spec_config(),
                        old(self).spec_run() + 1,
                        crf as int,
                    )
                    &&& final(self).spec_quick_3rd_run() == quick_after(
                        old(self).spec_quick_3rd_run(),
                        old(self).spec_config(),
                        old(self).spec_run() + 1,
                        crf as int,
                    )
                },
                _ => {
                    &&& final(self).spec_crf() == old(self).spec_crf()
                    &&& final(self).spec_run() == old(self).spec_run()
                    &&& final(self).spec_samples() == old(self).spec_samples()
                    &&& final(self).spec_quick_3rd_run() == old(self).spec_quick_3rd_run()
                },
            },
            match r {
                Decision::Next(crf) => old(self).spec_config().min_crf <= crf <= old(
                    self,
                ).spec_config().max_crf,
                Decision::Found(s) => old(self).spec_config().min_crf <= s.crf <= old(
                    self,
                ).spec_config().max_crf && vmaf_met(s, old(self).spec_config().min_vmaf),
                Decision::Failed(s) => s == sample_at(
                    old(self).spec_crf(),
                    old(self).spec_samples(),
                    enc,
                ) && !vmaf_met(s, old(self).spec_config().min_vmaf),
            },
    {
        let cfg = self.config;
        let run = self.run;
        let cur = Sample { crf: self.crf, samples: self.samples, enc };
        proof {
            lemma_decide(cfg, run as int, cur, self.attempts@);
        }
        let decision = if cur.meets_vmaf(cfg.min_vmaf) {
            let tolerance: u128 = (TOLERANCE_STEP as u128) * (run as u128);
            if run > 2 && enc.predicted_encode_percent < cfg.max_encoded_percent && (enc.vmaf as u128)
                < (cfg.min_vmaf as u128) + tolerance {
                Decision::Found(cur)
            } else {
                match upper_neighbour_of(&self.attempts, cur.crf) {
                    Some(u) => {
                        if u.crf as u16 == cur.crf as u16 + 1 {
                            Decision::Found(cur)
                        } else {
                            Decision::Next(vmaf_lerp_crf(cfg.min_vmaf, &u, &cur))
                        }
                    },
                    None => {
                        if cur.crf == cfg.max_crf {
                            Decision::Found(cur)
                        } else if run == 1 && (cur.crf as u16) + 1 < cfg.max_crf as u16 {
                            Decision::Next(((cur.crf as u16 + cfg.max_crf as u16) / 2) as u8)
                        } else {
                            Decision::Next(cfg.max_crf)
                        }
                    },
                }
            }
        } else if cur.exceeds_size(cfg.max_encoded_percent) || cur.crf == cfg.min_crf {
            Decision::Failed(cur)
        } else {
            match lower_neighbour_of(&self.attempts, cur.crf) {
                Some(l) => {
                    if l.crf as u16 + 1 == cur.crf as u16 {
                        Decision::Found(l)
                    } else {
                        Decision::Next(vmaf_lerp_crf(cfg.min_vmaf, &cur, &l))
                    }
                },
                None => {
                    if run == 1 && cur.crf as u16 > cfg.min_crf as u16 + 1 {
                        Decision::Next(((cfg.min_crf as u16 + cur.crf as u16) / 2) as u8)
                    } else {
                        Decision::Next(cfg.min_crf)
                    }
                },
            }
        };
        self.attempts.push(cur);
        if let Decision::Next(next) = decision {
            let next_run = run + 1;
            if next_run == 3 && (next == cfg.min_crf || next == cfg.max_crf) {
                self.quick_3rd_run = true;
                self.samples = 1;
            } else if next_run <= 2 {
                self.samples = 1;
            } else {
                self.samples = cfg.samples;
            }
            self.crf = next;
            self.run = next_run;
        } else {
            self.finished = true;
        }
        decision
    }
}

} // verus!
