//! The linter's log: a line that ends in an absolute path, then that file's issue lines, then a
//! blank line.
use vstd::prelude::*;

use crate::normalize::{
    ansi_stripped, log_lines, split_lines, strip_ansi, strip_timestamp, strip_timestamp_exec,
};
use crate::record::{lines_view, records_view, CheckError, RecordView};
use crate::text::{
    chars_of, has_at, has_at_exec, in_class_exec, is_digit, is_digit_exec, is_space,
    is_word_char, is_word_char_exec, run_end, run_end_exec, skip_chars, skip_chars_exec,
    string_of, CharClass,
};

verus! {

pub open spec fn warning_word() -> Seq<char> {
    seq!['w', 'a', 'r', 'n', 'i', 'n', 'g']
}

pub open spec fn error_word() -> Seq<char> {
    seq!['e', 'r', 'r', 'o', 'r']
}

/// A white-space character at `i`, then an absolute path with at least two slashes
/// (`/[a-zA-Z0-9._-]*/[a-zA-Z0-9./_-]*`) that runs to the end of the line.
pub open spec fn path_at(p: Seq<char>, i: int) -> bool {
    let k = run_end(p, i + 2, CharClass::PathPart);
    &&& 0 <= i && i + 1 < p.len() && is_space(p[i]) && p[i + 1] == '/'
    &&& k < p.len() && p[k] == '/'
    &&& run_end(p, k + 1, CharClass::PathOrSlash) == p.len()
}

/// The column where the path of the leftmost such match at or after `i` starts.
pub open spec fn path_col_from(p: Seq<char>, i: int) -> Option<int>
    decreases p.len() - i,
{
    if i < 0 || i >= p.len() {
        None
    } else if path_at(p, i) {
        Some(i + 1)
    } else {
        path_col_from(p, i + 1)
    }
}

pub open spec fn path_col(p: Seq<char>) -> Option<int> {
    path_col_from(p, 0)
}

/// The word `kw` at `w`, not followed by a word character.
pub open spec fn keyword_at(p: Seq<char>, w: int, kw: Seq<char>) -> bool {
    has_at(p, w, kw) && (w + kw.len() == p.len() || !is_word_char(p[w + kw.len()]))
}

/// An issue `<line>:<col>  warning|error` whose colon stands at `k`.
pub open spec fn issue_at(p: Seq<char>, k: int) -> bool {
    let d = run_end(p, k + 1, CharClass::Digit);
    let w = run_end(p, d, CharClass::Space);
    &&& 1 <= k < p.len() && p[k] == ':' && is_digit(p[k - 1])
    &&& d > k + 1 && w > d
    &&& keyword_at(p, w, warning_word()) || keyword_at(p, w, error_word())
}

pub open spec fn issue_from(p: Seq<char>, k: int) -> bool
    decreases p.len() - k,
{
    if k < 0 || k >= p.len() {
        false
    } else {
        issue_at(p, k) || issue_from(p, k + 1)
    }
}

/// The probe line reports an issue somewhere.
pub open spec fn has_issue(p: Seq<char>) -> bool {
    issue_from(p, 0)
}

/// The state of the linter's parser as values.
pub struct EslintModel {
    /// A file's block is open.
    pub active: bool,
    /// The column where the open block's path starts.
    pub col: int,
    pub path: Seq<char>,
    pub block: Seq<Seq<char>>,
    /// The open block has an issue line.
    pub seen_issue: bool,
    /// No line has been examined since the path line.
    pub fresh: bool,
    pub done: Seq<RecordView>,
}

pub open spec fn eslint_init() -> EslintModel {
    EslintModel {
        active: false,
        col: 0,
        path: Seq::empty(),
        block: Seq::empty(),
        seen_issue: false,
        fresh: false,
        done: Seq::empty(),
    }
}

/// The open block ends: it becomes a record when it has an issue line.
pub open spec fn eslint_close(m: EslintModel) -> EslintModel {
    EslintModel {
        active: false,
        block: Seq::empty(),
        seen_issue: false,
        fresh: false,
        done: if m.seen_issue {
            m.done.push((m.path, m.block))
        } else {
            m.done
        },
        ..m
    }
}

/// One line, given its display form `d` (timestamp removed) and its probe form `p` (escape
/// sequences removed, timestamp kept).
pub open spec fn eslint_step_probed(m: EslintModel, d: Seq<char>, p: Seq<char>) -> EslintModel {
    if !m.active {
        match path_col(p) {
            Some(c) => EslintModel {
                active: true,
                col: c,
                path: skip_chars(p, c),
                block: seq![d],
                seen_issue: false,
                fresh: true,
                done: m.done,
            },
            None => m,
        }
    } else if has_issue(p) {
        EslintModel { block: m.block.push(d), seen_issue: true, fresh: false, ..m }
    } else if m.fresh {
        EslintModel { active: false, block: Seq::empty(), seen_issue: false, fresh: false, ..m }
    } else if p.len() <= m.col {
        eslint_close(m)
    } else {
        m
    }
}

pub open spec fn eslint_step(m: EslintModel, raw: Seq<char>) -> EslintModel {
    eslint_step_probed(m, strip_timestamp(raw), ansi_stripped(raw))
}

pub open spec fn eslint_run(lines: Seq<Seq<char>>) -> EslintModel
    decreases lines.len(),
{
    if lines.len() == 0 {
        eslint_init()
    } else {
        eslint_step(eslint_run(lines.drop_last()), lines.last())
    }
}

pub open spec fn eslint_finish(m: EslintModel) -> EslintModel {
    if m.active {
        eslint_close(m)
    } else {
        m
    }
}

/// The records of a linter's log.
pub open spec fn eslint_records(log: Seq<char>) -> Seq<RecordView> {
    eslint_finish(eslint_run(log_lines(log))).done
}

/// An open block has lines, and every closed record has its path line and an issue line.
pub open spec fn eslint_wf(m: EslintModel) -> bool {
    &&& m.active ==> m.block.len() >= 1
    &&& m.active && m.seen_issue ==> m.block.len() >= 2
    &&& forall|i: int| 0 <= i < m.done.len() ==> (#[trigger] m.done[i]).1.len() >= 2
}

pub proof fn lemma_eslint_step_wf(m: EslintModel, d: Seq<char>, p: Seq<char>)
    requires
        eslint_wf(m),
    ensures
        eslint_wf(eslint_step_probed(m, d, p)),
        eslint_wf(eslint_finish(m)),
{
    if m.active && m.seen_issue {
        let n = eslint_close(m);
        assert forall|i: int| 0 <= i < n.done.len() implies (#[trigger] n.done[i]).1.len()
            >= 2 by {
            if i < m.done.len() {
                assert(n.done[i] == m.done[i]);
            }
        }
    }
}

pub proof fn lemma_eslint_run_wf(lines: Seq<Seq<char>>)
    ensures
        eslint_wf(eslint_run(lines)),
    decreases lines.len(),
{
    if lines.len() > 0 {
        lemma_eslint_run_wf(lines.drop_last());
        lemma_eslint_step_wf(
            eslint_run(lines.drop_last()),
            strip_timestamp(lines.last()),
            ansi_stripped(lines.last()),
        );
    }
}

pub fn path_col_exec(p: &Vec<char>) -> (r: Option<usize>)
    ensures
        r is Some <==> path_col(p@) is Some,
        r is Some ==> path_col(p@) == Some(r->0 as int) && r->0 <= p.len(),
{
    let mut i: usize = 0;
    while i < p.len()
        invariant
            path_col_from(p@, i as int) == path_col(p@),
        decreases p.len() - i,
    {
        if i + 1 < p.len() && in_class_exec(CharClass::Space, p[i]) && p[i + 1] == '/' {
            let k = run_end_exec(p, i + 2, CharClass::PathPart);
            if k < p.len() && p[k] == '/' && run_end_exec(p, k + 1, CharClass::PathOrSlash)
                == p.len() {
                return Some(i + 1);
            }
        }
        i += 1;
    }
    None
}

fn keyword_at_exec(p: &Vec<char>, w: usize, kw: &Vec<char>) -> (r: bool)
    ensures
        r == keyword_at(p@, w as int, kw@),
{
    if !has_at_exec(p, w, kw) {
        return false;
    }
    if w > p.len() || kw.len() > p.len() - w {
        return false;
    }
    let e = w + kw.len();
    e == p.len() || !is_word_char_exec(p[e])
}

pub fn has_issue_exec(p: &Vec<char>) -> (r: bool)
    ensures
        r == has_issue(p@),
{
    let warning: Vec<char> = vec!['w', 'a', 'r', 'n', 'i', 'n', 'g'];
    let error: Vec<char> = vec!['e', 'r', 'r', 'o', 'r'];
    proof {
        assert(warning@ =~= warning_word());
        assert(error@ =~= error_word());
    }
    let mut k: usize = 0;
    while k < p.len()
        invariant
            warning@ == warning_word(),
            error@ == error_word(),
            issue_from(p@, k as int) == has_issue(p@),
        decreases p.len() - k,
    {
        if k >= 1 && p[k] == ':' && is_digit_exec(p[k - 1]) {
            let d = run_end_exec(p, k + 1, CharClass::Digit);
            let w = run_end_exec(p, d, CharClass::Space);
            if d > k + 1 && w > d && (keyword_at_exec(p, w, &warning) || keyword_at_exec(
                p,
                w,
                &error,
            )) {
                return true;
            }
        }
        k += 1;
    }
    false
}

#[derive(PartialEq, Eq, Structural)]
enum State {
    LookingForFile,
    ParsingFile,
}

/// The linter's log parser.
pub struct EslintLogParser {
    state: State,
    current_path_start_col: usize,
    current_path: String,
    current_lines: Vec<String>,
    seen_eslint_issue_for_current_path: bool,
    at_first_line: bool,
    all_paths: Vec<CheckError>,
}

impl View for EslintLogParser {
    type V = EslintModel;

    closed spec fn view(&self) -> EslintModel {
        EslintModel {
            active: self.state == State::ParsingFile,
            col: self.current_path_start_col as int,
            path: self.current_path@,
            block: lines_view(self.current_lines@),
            seen_issue: self.seen_eslint_issue_for_current_path,
            fresh: self.at_first_line,
            done: records_view(self.all_paths@),
        }
    }
}

impl EslintLogParser {
    pub fn new() -> (r: Self)
        ensures
            r@ == eslint_init(),
    {
        let r = EslintLogParser {
            state: State::LookingForFile,
            current_path_start_col: 0,
            current_path: String::new(),
            current_lines: Vec::new(),
            seen_eslint_issue_for_current_path: false,
            at_first_line: false,
            all_paths: Vec::new(),
        };
        proof {
            assert(r@.path =~= Seq::<char>::empty());
            assert(r@.block =~= Seq::<Seq<char>>::empty());
            assert(r@.done =~= Seq::<RecordView>::empty());
        }
        r
    }

    /// The line from the open block's path column on.
    fn get_line_from_path_col(&self, line: &Vec<char>) -> (r: Vec<char>)
        ensures
            r@ == skip_chars(line@, self@.col),
    {
        skip_chars_exec(line, self.current_path_start_col)
    }

    /// The line has nothing at the open block's path column: blank, once the label and the
    /// timestamp before it are disregarded.
    fn is_empty_line(&self, line: &Vec<char>) -> (r: bool)
        ensures
            r == (line@.len() <= self@.col),
    {
        line.len() <= self.current_path_start_col
    }

    fn close_file(&mut self)
        requires
            old(self)@.active,
        ensures
            final(self)@ == eslint_close(old(self)@),
    {
        let mut lines: Vec<String> = Vec::new();
        std::mem::swap(&mut lines, &mut self.current_lines);
        if self.seen_eslint_issue_for_current_path {
            let record = CheckError { path: self.current_path.clone(), lines };
            let ghost before = records_view(self.all_paths@);
            self.all_paths.push(record);
            proof {
                assert(records_view(self.all_paths@) =~= before.push(record@));
            }
        }
        self.state = State::LookingForFile;
        self.seen_eslint_issue_for_current_path = false;
        self.at_first_line = false;
        proof {
            assert(lines_view(self.current_lines@) =~= Seq::<Seq<char>>::empty());
        }
    }

    /// Feeds one line, given its display form (timestamp removed) and its probe form (escape
    /// sequences removed, timestamp kept).
    pub fn feed_line(&mut self, display: &Vec<char>, probe: &Vec<char>)
        ensures
            final(self)@ == eslint_step_probed(old(self)@, display@, probe@),
    {
        if self.state == State::LookingForFile {
            if let Some(col) = path_col_exec(probe) {
                self.current_path_start_col = col;
                let path = self.get_line_from_path_col(probe);
                self.current_path = string_of(&path);
                let mut lines: Vec<String> = Vec::new();
                lines.push(string_of(display));
                self.current_lines = lines;
                self.seen_eslint_issue_for_current_path = false;
                self.at_first_line = true;
                self.state = State::ParsingFile;
                proof {
                    assert(lines_view(self.current_lines@) =~= seq![display@]);
                }
            }
        } else if has_issue_exec(probe) {
            let ghost before = lines_view(self.current_lines@);
            self.current_lines.push(string_of(display));
            self.seen_eslint_issue_for_current_path = true;
            self.at_first_line = false;
            proof {
                assert(lines_view(self.current_lines@) =~= before.push(display@));
            }
        } else if self.at_first_line {
            // The line right under a path is no issue: the path was a false match.
            self.state = State::LookingForFile;
            self.current_lines = Vec::new();
            self.seen_eslint_issue_for_current_path = false;
            self.at_first_line = false;
            proof {
                assert(lines_view(self.current_lines@) =~= Seq::<Seq<char>>::empty());
            }
        } else if self.is_empty_line(probe) {
            self.close_file();
        }
    }

    /// Feeds one raw log line.
    pub fn parse_line(&mut self, raw_line: &Vec<char>)
        ensures
            final(self)@ == eslint_step(old(self)@, raw_line@),
    {
        let display = strip_timestamp_exec(raw_line);
        let probe = strip_ansi(raw_line);
        self.feed_line(&display, &probe);
    }

    /// The records, once the input has ended: an open block that has an issue line is
    /// closed into one.
    pub fn get_output(self) -> (r: Vec<CheckError>)
        ensures
            records_view(r@) == eslint_finish(self@).done,
    {
        let mut parser = self;
        if parser.state == State::ParsingFile {
            parser.close_file();
        }
        parser.all_paths
    }

    /// The files with issues in a linter's log, in order of appearance, each with its path
    /// line and its issue lines.
    pub fn parse(log: &str) -> (r: Vec<CheckError>)
        ensures
            records_view(r@) == eslint_records(log@),
            forall|i: int| 0 <= i < r@.len() ==> (#[trigger] r@[i]).lines@.len() >= 2,
    {
        let chars = chars_of(log);
        let lines = split_lines(&chars);
        let ghost all = lines@.map_values(|l: Vec<char>| l@);
        let mut parser = EslintLogParser::new();
        let mut i: usize = 0;
        while i < lines.len()
            invariant
                i <= lines.len(),
                all == lines@.map_values(|l: Vec<char>| l@),
                parser@ == eslint_run(all.subrange(0, i as int)),
            decreases lines.len() - i,
        {
            parser.parse_line(&lines[i]);
            proof {
                assert(all.subrange(0, i + 1).drop_last() =~= all.subrange(0, i as int));
            }
            i += 1;
        }
        proof {
            assert(all.subrange(0, i as int) =~= all);
            lemma_eslint_run_wf(all);
            lemma_eslint_step_wf(eslint_run(all), Seq::empty(), Seq::empty());
        }
        let r = parser.get_output();
        proof {
            assert forall|i: int| 0 <= i < r@.len() implies (#[trigger] r@[i]).lines@.len()
                >= 2 by {
                assert(records_view(r@)[i] == r@[i]@);
            }
        }
        r
    }
}

} // verus!
