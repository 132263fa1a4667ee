//! The decisions of the poll loop: which runs have newly completed since the last tick, and
//! whether every run of interest has settled. The loop itself, with its waits and requests,
//! runs outside.
use vstd::prelude::*;

use crate::checks::{
    regex_matches, runs_view, CheckRunView, CheckStatusState, JobPattern, SimpleCheckRun,
};

verus! {

/// A run is of interest when no pattern is given, or when the pattern matches its name.
pub open spec fn of_interest(pattern: Option<Seq<char>>, r: CheckRunView) -> bool {
    match pattern {
        None => true,
        Some(p) => regex_matches(p, r.name),
    }
}

pub open spec fn is_complete(r: CheckRunView) -> bool {
    r.status == CheckStatusState::Completed
}

/// The ids of the runs of interest that have completed and are neither in `reported` nor
/// earlier in the list, in order.
pub open spec fn newly_completed(
    reported: Seq<u64>,
    runs: Seq<CheckRunView>,
    pattern: Option<Seq<char>>,
) -> Seq<u64>
    decreases runs.len(),
{
    if runs.len() == 0 {
        Seq::empty()
    } else {
        let prev = newly_completed(reported, runs.drop_last(), pattern);
        let r = runs.last();
        if of_interest(pattern, r) && is_complete(r) && !reported.contains(r.id) && !prev.contains(
            r.id,
        ) {
            prev.push(r.id)
        } else {
            prev
        }
    }
}

/// Every run of interest has completed.
pub open spec fn all_settled(runs: Seq<CheckRunView>, pattern: Option<Seq<char>>) -> bool {
    forall|i: int| 0 <= i < runs.len() && of_interest(pattern, #[trigger] runs[i]) ==> is_complete(
        runs[i],
    )
}

pub open spec fn pattern_view(pattern: Option<&JobPattern>) -> Option<Seq<char>> {
    match pattern {
        None => None,
        Some(p) => Some(p@),
    }
}

/// What one tick of polling found.
pub struct PollTick {
    /// The ids of the runs to report as completed now, each once over all ticks.
    pub newly_completed: Vec<u64>,
    /// Every run of interest has completed: the loop ends.
    pub settled: bool,
}

/// The runs already reported as completed.
pub struct PollTracker {
    reported: Vec<u64>,
}

impl View for PollTracker {
    type V = Seq<u64>;

    closed spec fn view(&self) -> Seq<u64> {
        self.reported@
    }
}

fn contains_id(v: &Vec<u64>, id: u64) -> (r: bool)
    ensures
        r == v@.contains(id),
{
    let mut i: usize = 0;
    while i < v.len()
        invariant
            i <= v.len(),
            forall|k: int| 0 <= k < i ==> v@[k] != id,
        decreases v.len() - i,
    {
        if v[i] == id {
            return true;
        }
        i += 1;
    }
    false
}

impl PollTracker {
    pub fn new() -> (r: Self)
        ensures
            r@ == Seq::<u64>::empty(),
    {
        PollTracker { reported: Vec::new() }
    }

    /// Takes in the runs of one tick: reports the runs of interest that completed since the
    /// earlier ticks, and says whether all of them have settled. A run reported once is never
    /// reported again.
    pub fn observe(&mut self, runs: &Vec<SimpleCheckRun>, pattern: Option<&JobPattern>) -> (r:
        PollTick)
        ensures
            r.newly_completed@ == newly_completed(
                old(self)@,
                runs_view(runs@),
                pattern_view(pattern),
            ),
            r.settled == all_settled(runs_view(runs@), pattern_view(pattern)),
            final(self)@ == old(self)@ + r.newly_completed@,
    {
        let ghost all = runs_view(runs@);
        let ghost pv = pattern_view(pattern);
        let ghost before = self.reported@;
        let mut newly: Vec<u64> = Vec::new();
        let mut settled = true;
        let mut i: usize = 0;
        while i < runs.len()
            invariant
                i <= runs.len(),
                all == runs_view(runs@),
                pv == pattern_view(pattern),
                newly@ == newly_completed(before, all.subrange(0, i as int), pv),
                self.reported@ == before + newly@,
                settled == all_settled(all.subrange(0, i as int), pv),
            decreases runs.len() - i,
        {
            let run = &runs[i];
            let interesting = match pattern {
                None => true,
                Some(p) => p.is_match(run.name.as_str()),
            };
            let ghost prefix = all.subrange(0, i as int);
            let ghost next = all.subrange(0, i + 1);
            proof {
                assert(next.drop_last() =~= prefix);
                assert(next.last() == run@);
                assert(interesting == of_interest(pv, run@));
            }
            let complete = run.is_completed();
            if interesting && complete {
                let seen = contains_id(&self.reported, run.id);
                proof {
                    assert(seen == (before.contains(run.id) || newly@.contains(run.id))) by {
                        if before.contains(run.id) {
                            let k = choose|k: int| 0 <= k < before.len() && before[k] == run.id;
                            assert(self.reported@[k] == run.id);
                        }
                        if newly@.contains(run.id) {
                            let k = choose|k: int| 0 <= k < newly@.len() && newly@[k] == run.id;
                            assert(self.reported@[before.len() + k] == run.id);
                        }
                        if self.reported@.contains(run.id) {
                            let k = choose|k: int|
                                0 <= k < self.reported@.len() && self.reported@[k] == run.id;
                            if k < before.len() {
                                assert(before[k] == run.id);
                            } else {
                                assert(newly@[k - before.len()] == run.id);
                            }
                        }
                    }
                }
                if !seen {
                    newly.push(run.id);
                    self.reported.push(run.id);
                    proof {
                        assert(self.reported@ =~= before + newly@);
                    }
                }
            }
            if interesting && !complete {
                settled = false;
            }
            proof {
                if interesting && !complete {
                    assert(of_interest(pv, next[i as int]) && !is_complete(next[i as int]));
                }
                if settled {
                    assert forall|k: int|
                        0 <= k < next.len() && of_interest(pv, #[trigger] next[k]) implies is_complete(
                        next[k],
                    ) by {
                        if k < i {
                            assert(next[k] == prefix[k]);
                        }
                    }
                }
                if all_settled(next, pv) {
                    assert forall|k: int|
                        0 <= k < prefix.len() && of_interest(pv, #[trigger] prefix[k]) implies is_complete(
                        prefix[k],
                    ) by {
                        assert(next[k] == prefix[k]);
                    }
                }
            }
            i += 1;
        }
        proof {
            assert(all.subrange(0, i as int) =~= all);
        }
        PollTick { newly_completed: newly, settled }
    }
}

} // verus!
