//! Check runs: which of them a command's job pattern picks, which failed, and when a set of them
//! has settled.
use vstd::prelude::*;

verus! {

#[derive(Debug, Clone, Copy, PartialEq, Eq, Structural)]
pub enum CheckConclusionState {
    ActionRequired,
    Cancelled,
    Failure,
    Neutral,
    Skipped,
    Stale,
    StartupFailure,
    Success,
    TimedOut,
}

#[derive(Debug, Clone, Copy, PartialEq, Eq, Structural)]
pub enum CheckStatusState {
    Completed,
    InProgress,
    Pending,
    Queued,
    Requested,
    Waiting,
}

/// One check run as the hosting platform reports it, at one poll. Times are milliseconds since
/// the Unix epoch.
#[derive(Debug, Clone, PartialEq, Eq)]
pub struct SimpleCheckRun {
    pub id: u64,
    pub name: String,
    pub status: CheckStatusState,
    pub conclusion: Option<CheckConclusionState>,
    pub url: Option<String>,
    pub started_at: Option<i64>,
    pub completed_at: Option<i64>,
}

pub struct CheckRunView {
    pub id: u64,
    pub name: Seq<char>,
    pub status: CheckStatusState,
    pub conclusion: Option<CheckConclusionState>,
    pub url: Option<Seq<char>>,
    pub started_at: Option<i64>,
    pub completed_at: Option<i64>,
}

impl View for SimpleCheckRun {
    type V = CheckRunView;

    open spec fn view(&self) -> CheckRunView {
        CheckRunView {
            id: self.id,
            name: self.name@,
            status: self.status,
            conclusion: self.conclusion,
            url: match self.url {
                Some(u) => Some(u@),
                None => None,
            },
            started_at: self.started_at,
            completed_at: self.completed_at,
        }
    }
}

pub open spec fn runs_view(v: Seq<SimpleCheckRun>) -> Seq<CheckRunView> {
    v.map_values(|r: SimpleCheckRun| r@)
}

impl SimpleCheckRun {
    /// A copy of the run.
    pub fn duplicate(&self) -> (r: SimpleCheckRun)
        ensures
            r@ == self@,
    {
        let url = match &self.url {
            Some(u) => Some(u.clone()),
            None => None,
        };
        SimpleCheckRun {
            id: self.id,
            name: self.name.clone(),
            status: self.status,
            conclusion: self.conclusion,
            url,
            started_at: self.started_at,
            completed_at: self.completed_at,
        }
    }

    /// How long the run has been going at time `now`, in milliseconds; nothing when it has not
    /// started, and zero when its start lies after `now`.
    pub fn elapsed(&self, now: i64) -> (r: Option<u64>)
        ensures
            match self.started_at {
                None => r is None,
                Some(s) => r == Some(if now >= s {
                    (now - s) as u64
                } else {
                    0u64
                }),
            },
    {
        match self.started_at {
            None => None,
            Some(s) => {
                if now >= s {
                    Some((now as i128 - s as i128) as u64)
                } else {
                    Some(0)
                }
            },
        }
    }

    /// The run has finished.
    pub fn is_completed(&self) -> (r: bool)
        ensures
            r == (self.status == CheckStatusState::Completed),
    {
        self.status == CheckStatusState::Completed
    }
}

// ---------------------------------------------------------------------------
// Job patterns
// ---------------------------------------------------------------------------

#[verifier::external_type_specification]
#[verifier::external_body]
pub struct ExRegex(regex::Regex);

/// The name of what `regex` answers when asked whether `pattern` matches somewhere in `text`.
pub uninterp spec fn regex_matches(pattern: Seq<char>, text: Seq<char>) -> bool;

/// Relies on `regex::Regex::new`: the compiled pattern, or nothing when it does not compile.
#[verifier::external_body]
fn compile_regex(pattern: &str) -> (r: Option<regex::Regex>) {
    regex::Regex::new(pattern).ok()
}

/// A regular expression over job names, as a repository's configuration gives it.
pub struct JobPattern {
    source: String,
    regex: regex::Regex,
}

/// The pattern text did not compile.
#[derive(Debug, Clone, PartialEq, Eq)]
pub struct PatternError {
    pub pattern: String,
}

impl View for JobPattern {
    type V = Seq<char>;

    /// The text the pattern was compiled from.
    closed spec fn view(&self) -> Seq<char> {
        self.source@
    }
}

/// Relies on `regex::Regex::is_match`: whether the regex compiled from the pattern's text
/// (the only way a `JobPattern` is made) matches somewhere in `text`.
#[verifier::external_body]
fn regex_is_match(pattern: &JobPattern, text: &str) -> (r: bool)
    ensures
        r == regex_matches(pattern@, text@),
{
    pattern.regex.is_match(text)
}

impl JobPattern {
    /// Compiles `source`; on success the pattern's text is `source`.
    pub fn new(source: &str) -> (r: Result<JobPattern, PatternError>)
        ensures
            r is Ok ==> r->Ok_0@ == source@,
            r is Err ==> r->Err_0.pattern@ == source@,
    {
        match compile_regex(source) {
            Some(regex) => Ok(JobPattern { source: source.to_owned(), regex }),
            None => Err(PatternError { pattern: source.to_owned() }),
        }
    }

    /// The text the pattern was compiled from.
    pub fn as_str(&self) -> (r: &str)
        ensures
            r@ == self@,
    {
        self.source.as_str()
    }

    /// The pattern matches somewhere in `name`.
    pub fn is_match(&self, name: &str) -> (r: bool)
        ensures
            r == regex_matches(self@, name@),
    {
        regex_is_match(self, name)
    }
}

// ---------------------------------------------------------------------------
// Filtering
// ---------------------------------------------------------------------------

pub open spec fn run_matches(pattern: Seq<char>, r: CheckRunView) -> bool {
    regex_matches(pattern, r.name)
}

pub open spec fn is_failed_match(pattern: Seq<char>, r: CheckRunView) -> bool {
    run_matches(pattern, r) && r.conclusion == Some(CheckConclusionState::Failure)
}

/// The runs that the pattern picks and that failed, in their order.
pub open spec fn failed_matching(pattern: Seq<char>, runs: Seq<CheckRunView>) -> Seq<
    CheckRunView,
>
    decreases runs.len(),
{
    if runs.len() == 0 {
        Seq::empty()
    } else {
        let prev = failed_matching(pattern, runs.drop_last());
        if is_failed_match(pattern, runs.last()) {
            prev.push(runs.last())
        } else {
            prev
        }
    }
}

/// Some run that the pattern picks has no conclusion yet.
pub open spec fn any_matching_in_progress(pattern: Seq<char>, runs: Seq<CheckRunView>) -> bool {
    exists|i: int| 0 <= i < runs.len() && run_matches(pattern, #[trigger] runs[i]) && runs[i].conclusion is None
}

/// The pattern picks no run at all.
pub open spec fn no_matching_runs(pattern: Seq<char>, runs: Seq<CheckRunView>) -> bool {
    forall|i: int| 0 <= i < runs.len() ==> !run_matches(pattern, #[trigger] runs[i])
}

/// The runs that `pattern` picks and that failed; whether any run it picks is still without
/// a conclusion; and whether it picks none.
pub fn filter_check_runs(pattern: &JobPattern, check_runs: &Vec<SimpleCheckRun>) -> (r: (
    Vec<SimpleCheckRun>,
    bool,
    bool,
))
    ensures
        runs_view(r.0@) == failed_matching(pattern@, runs_view(check_runs@)),
        r.1 == any_matching_in_progress(pattern@, runs_view(check_runs@)),
        r.2 == no_matching_runs(pattern@, runs_view(check_runs@)),
{
    let ghost all = runs_view(check_runs@);
    let mut failed_check_runs: Vec<SimpleCheckRun> = Vec::new();
    let mut any_in_progress = false;
    let mut no_matches = true;
    let mut i: usize = 0;
    while i < check_runs.len()
        invariant
            i <= check_runs.len(),
            all == runs_view(check_runs@),
            runs_view(failed_check_runs@) == failed_matching(pattern@, all.subrange(0, i as int)),
            any_in_progress == any_matching_in_progress(pattern@, all.subrange(0, i as int)),
            no_matches == no_matching_runs(pattern@, all.subrange(0, i as int)),
        decreases check_runs.len() - i,
    {
        let run = &check_runs[i];
        let matches = pattern.is_match(run.name.as_str());
        let ghost prefix = all.subrange(0, i as int);
        let ghost next = all.subrange(0, i + 1);
        proof {
            assert(next.drop_last() =~= prefix);
            assert(next.last() == run@);
        }
        if matches {
            no_matches = false;
            if run.conclusion.is_none() {
                any_in_progress = true;
            }
            if run.conclusion == Some(CheckConclusionState::Failure) {
                let ghost before = runs_view(failed_check_runs@);
                failed_check_runs.push(run.duplicate());
                proof {
                    assert(runs_view(failed_check_runs@) =~= before.push(run@));
                }
            }
        }
        proof {
            assert forall|k: int| 0 <= k < next.len() implies next[k] == if k < i {
                prefix[k]
            } else {
                run@
            } by {}
            if matches && run.conclusion is None {
                assert(run_matches(pattern@, next[i as int]));
            }
            if any_matching_in_progress(pattern@, prefix) {
                let k = choose|k: int|
                    0 <= k < prefix.len() && run_matches(pattern@, #[trigger] prefix[k])
                        && prefix[k].conclusion is None;
                assert(next[k] == prefix[k]);
            }
            if matches {
                assert(run_matches(pattern@, next[i as int]));
            }
            if !matches && no_matching_runs(pattern@, prefix) {
                assert forall|k: int| 0 <= k < next.len() implies !run_matches(
                    pattern@,
                    #[trigger] next[k],
                ) by {
                    if k < i {
                        assert(next[k] == prefix[k]);
                    }
                }
            }
        }
        i += 1;
    }
    proof {
        assert(all.subrange(0, i as int) =~= all);
    }
    (failed_check_runs, any_in_progress, no_matches)
}

/// What filtering found, as the user is told it.
#[derive(Debug, Clone, Copy, PartialEq, Eq, Structural)]
pub enum RunsOutcome {
    /// The pattern picks no run.
    NoMatchingRuns,
    /// Some picked run failed.
    Failed,
    /// No picked run failed, and some has not finished.
    SomeInProgress,
    /// Every picked run finished, and none failed.
    AllGreen,
}

/// The outcome of a filtering: no match comes first, then failures, then runs in progress.
pub fn classify_runs(failed: &Vec<SimpleCheckRun>, any_in_progress: bool, no_matches: bool) -> (r:
    RunsOutcome)
    ensures
        r == (if no_matches {
            RunsOutcome::NoMatchingRuns
        } else if failed@.len() > 0 {
            RunsOutcome::Failed
        } else if any_in_progress {
            RunsOutcome::SomeInProgress
        } else {
            RunsOutcome::AllGreen
        }),
{
    if no_matches {
        RunsOutcome::NoMatchingRuns
    } else if failed.len() > 0 {
        RunsOutcome::Failed
    } else if any_in_progress {
        RunsOutcome::SomeInProgress
    } else {
        RunsOutcome::AllGreen
    }
}

} // verus!
