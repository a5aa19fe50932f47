//! The earlier samples nearest to a crf from above and from below.
use vstd::prelude::*;
use crate::sample::Sample;

verus! {

/// Among the samples with a crf above `crf`, one with the smallest crf; of
/// several such, the earliest.
pub open spec fn upper_neighbour(s: Seq<Sample>, crf: int) -> Option<Sample>
    decreases s.len(),
{
    if s.len() == 0 {
        None
    } else {
        let rest = upper_neighbour(s.drop_last(), crf);
        let a = s.last();
        match rest {
            None => if a.crf > crf { Some(a) } else { None },
            Some(u) => if a.crf > crf && a.crf < u.crf { Some(a) } else { rest },
        }
    }
}

/// Among the samples with a crf below `crf`, one with the largest crf; of
/// several such, the latest.
pub open spec fn lower_neighbour(s: Seq<Sample>, crf: int) -> Option<Sample>
    decreases s.len(),
{
    if s.len() == 0 {
        None
    } else {
        let rest = lower_neighbour(s.drop_last(), crf);
        let a = s.last();
        match rest {
            None => if a.crf < crf { Some(a) } else { None },
            Some(l) => if a.crf < crf && a.crf >= l.crf { Some(a) } else { rest },
        }
    }
}

/// No later sample in `s` has the crf of sample `i`.
pub open spec fn last_of_crf(s: Seq<Sample>, i: int) -> bool {
    forall|k: int| i < k < s.len() ==> #[trigger] s[k].crf != s[i].crf
}

pub proof fn lemma_upper_neighbour(s: Seq<Sample>, crf: int)
    ensures
        match upper_neighbour(s, crf) {
            Some(u) => {
                &&& u.crf > crf
                &&& exists|i: int| 0 <= i < s.len() && s[i] == u
                &&& forall|j: int| 0 <= j < s.len() && s[j].crf > crf ==> u.crf <= #[trigger] s[j].crf
            },
            None => forall|j: int| 0 <= j < s.len() ==> #[trigger] s[j].crf <= crf,
        },
    decreases s.len(),
{
    if s.len() > 0 {
        let t = s.drop_last();
        lemma_upper_neighbour(t, crf);
        assert(forall|j: int| 0 <= j < t.len() ==> t[j] == s[j]);
        match upper_neighbour(t, crf) {
            Some(u) => {
                let i = choose|i: int| 0 <= i < t.len() && t[i] == u;
                assert(s[i] == u);
            },
            None => {},
        }
    }
}

pub proof fn lemma_lower_neighbour(s: Seq<Sample>, crf: int)
    ensures
        match lower_neighbour(s, crf) {
            Some(l) => {
                &&& l.crf < crf
                &&& exists|i: int| 0 <= i < s.len() && s[i] == l && last_of_crf(s, i)
                &&& forall|j: int| 0 <= j < s.len() && s[j].crf < crf ==> #[trigger] s[j].crf <= l.crf
            },
            None => forall|j: int| 0 <= j < s.len() ==> #[trigger] s[j].crf >= crf,
        },
    decreases s.len(),
{
    if s.len() > 0 {
        let t = s.drop_last();
        lemma_lower_neighbour(t, crf);
        assert(forall|j: int| 0 <= j < t.len() ==> t[j] == s[j]);
        match lower_neighbour(t, crf) {
            Some(l) => {
                let i = choose|i: int| 0 <= i < t.len() && t[i] == l && last_of_crf(t, i);
                if s.last().crf < crf && s.last().crf >= l.crf {
                    assert(last_of_crf(s, s.len() - 1));
                } else {
                    assert(s[i] == l);
                    assert(last_of_crf(s, i));
                }
            },
            None => {
                if s.last().crf < crf {
                    assert(last_of_crf(s, s.len() - 1));
                }
            },
        }
    }
}

/// The sample that `upper_neighbour` picks, found by a scan.
pub fn upper_neighbour_of(attempts: &Vec<Sample>, crf: u8) -> (r: Option<Sample>)
    ensures
        r == upper_neighbour(attempts@, crf as int),
{
    let mut best: Option<Sample> = None;
    let mut i: usize = 0;
    while i < attempts.len()
        invariant
            i <= attempts@.len(),
            best == upper_neighbour(attempts@.take(i as int), crf as int),
        decreases attempts.len() - i,
    {
        let a = attempts[i];
        proof {
            assert(attempts@.take(i as int + 1).drop_last() =~= attempts@.take(i as int));
        }
        match best {
            None => {
                if a.crf > crf {
                    best = Some(a);
                }
            },
            Some(u) => {
                if a.crf > crf && a.crf < u.crf {
                    best = Some(a);
                }
            },
        }
        i += 1;
    }
    proof {
        assert(attempts@.take(attempts@.len() as int) =~= attempts@);
    }
    best
}

/// The sample that `lower_neighbour` picks, found by a scan.
pub fn lower_neighbour_of(attempts: &Vec<Sample>, crf: u8) -> (r: Option<Sample>)
    ensures
        r == lower_neighbour(attempts@, crf as int),
{
    let mut best: Option<Sample> = None;
    let mut i: usize = 0;
    while i < attempts.len()
        invariant
            i <= attempts@.len(),
            best == lower_neighbour(attempts@.take(i as int), crf as int),
        decreases attempts.len() - i,
    {
        let a = attempts[i];
        proof {
            assert(attempts@.take(i as int + 1).drop_last() =~= attempts@.take(i as int));
        }
        match best {
            None => {
                if a.crf < crf {
                    best = Some(a);
                }
            },
            Some(l) => {
                if a.crf < crf && a.crf >= l.crf {
                    best = Some(a);
                }
            },
        }
        i += 1;
    }
    proof {
        assert(attempts@.take(attempts@.len() as int) =~= attempts@);
    }
    best
}

} // verus!
