//! The failure record that every log parser emits.
use vstd::prelude::*;

verus! {

/// One failure block of a log: the file path it concerns and the log lines that describe it.
#[derive(Debug, Clone, PartialEq, Eq)]
pub struct CheckError {
    pub path: String,
    pub lines: Vec<String>,
}

/// The record of the test runner's parser.
pub type JestPath = CheckError;

/// The record of the linter's parser.
pub type EslintPath = CheckError;

/// The record of the type checker's parser.
pub type TscError = CheckError;

/// A record as values: its path and its lines.
pub type RecordView = (Seq<char>, Seq<Seq<char>>);

pub open spec fn lines_view(v: Seq<String>) -> Seq<Seq<char>> {
    v.map_values(|l: String| l@)
}

pub open spec fn records_view(v: Seq<CheckError>) -> Seq<RecordView> {
    v.map_values(|r: CheckError| r@)
}

impl View for CheckError {
    type V = RecordView;

    open spec fn view(&self) -> RecordView {
        (self.path@, lines_view(self.lines@))
    }
}

/// The state of a block parser as values.
pub struct BlockModel {
    /// A block is open.
    pub active: bool,
    /// The start column of the open block.
    pub col: int,
    /// The path of the open block.
    pub path: Seq<char>,
    /// The lines of the open block.
    pub block: Seq<Seq<char>>,
    /// The records closed so far.
    pub done: Seq<RecordView>,
}

/// `done` with `r` appended, unless it already holds an equal record.
pub open spec fn push_new(done: Seq<RecordView>, r: RecordView) -> Seq<RecordView> {
    if done.contains(r) {
        done
    } else {
        done.push(r)
    }
}

/// No two records of `s` are equal.
pub open spec fn all_distinct(s: Seq<RecordView>) -> bool {
    forall|i: int, j: int| 0 <= i < j < s.len() ==> s[i] != s[j]
}

pub proof fn lemma_push_new_distinct(done: Seq<RecordView>, r: RecordView)
    requires
        all_distinct(done),
    ensures
        all_distinct(push_new(done, r)),
        push_new(done, r).contains(r),
        forall|x: RecordView| #[trigger] done.contains(x) ==> push_new(done, r).contains(x),
{
    if !done.contains(r) {
        let n = done.push(r);
        assert forall|i: int, j: int| 0 <= i < j < n.len() implies n[i] != n[j] by {
            if j == done.len() {
                assert(n[i] == done[i]);
            }
        }
        assert(n[done.len() as int] == r);
        assert forall|x: RecordView| #[trigger] done.contains(x) implies n.contains(x) by {
            let k = choose|k: int| 0 <= k < done.len() && done[k] == x;
            assert(n[k] == x);
        }
    }
}

pub fn same_lines(a: &Vec<String>, b: &Vec<String>) -> (r: bool)
    ensures
        r == (lines_view(a@) == lines_view(b@)),
{
    if a.len() != b.len() {
        proof {
            assert(lines_view(a@).len() != lines_view(b@).len());
        }
        return false;
    }
    let mut i: usize = 0;
    while i < a.len()
        invariant
            i <= a.len() == b.len(),
            forall|k: int| 0 <= k < i ==> a@[k]@ == b@[k]@,
        decreases a.len() - i,
    {
        if a[i] != b[i] {
            proof {
                assert(lines_view(a@)[i as int] != lines_view(b@)[i as int]);
            }
            return false;
        }
        i += 1;
    }
    proof {
        assert(lines_view(a@) =~= lines_view(b@));
    }
    true
}

impl CheckError {
    /// The two records hold the same path and the same lines.
    pub fn same_as(&self, other: &CheckError) -> (r: bool)
        ensures
            r == (self@ == other@),
    {
        self.path == other.path && same_lines(&self.lines, &other.lines)
    }
}

/// `v` holds a record equal to `r`.
pub fn contains_record(v: &Vec<CheckError>, r: &CheckError) -> (b: bool)
    ensures
        b == records_view(v@).contains(r@),
{
    let mut i: usize = 0;
    while i < v.len()
        invariant
            i <= v.len(),
            forall|k: int| 0 <= k < i ==> v@[k]@ != r@,
        decreases v.len() - i,
    {
        if v[i].same_as(r) {
            proof {
                assert(records_view(v@)[i as int] == r@);
            }
            return true;
        }
        i += 1;
    }
    proof {
        if records_view(v@).contains(r@) {
            let k = choose|k: int| 0 <= k < records_view(v@).len() && records_view(v@)[k] == r@;
            assert(v@[k]@ == r@);
        }
    }
    false
}

/// Appends `r` to `v` unless `v` already holds an equal record.
pub fn push_if_new(v: &mut Vec<CheckError>, r: CheckError)
    ensures
        records_view(final(v)@) == push_new(records_view(old(v)@), r@),
{
    if !contains_record(v, &r) {
        let ghost before = records_view(v@);
        v.push(r);
        proof {
            assert(records_view(v@) =~= before.push(r@));
        }
    }
}

} // verus!
