//! The test runner's log: blocks that open on a `FAIL <path>` line.
use vstd::prelude::*;

use crate::normalize::{
    ansi_stripped, lemma_sgr_tail_bounds, log_lines, next_visible, next_visible_exec, sgr_end, sgr_end_exec,
    split_lines, strip_ansi, strip_timestamp, strip_timestamp_exec,
};
use crate::record::{
    all_distinct, lemma_push_new_distinct, lines_view, push_if_new, push_new, records_view,
    BlockModel, CheckError, RecordView,
};
use crate::text::{
    chars_of, find_from, find_from_exec, has_at, has_at_exec, in_class_exec, is_space,
    run_end, run_end_exec, skip_chars, skip_chars_exec, string_of,
    subrange_exec, CharClass,
};

verus! {

pub open spec fn fail_word() -> Seq<char> {
    seq!['F', 'A', 'I', 'L']
}

/// A reset escape, a space, then `FAIL`: how a runner inside a labelled container prints it.
pub open spec fn reset_fail() -> Seq<char> {
    seq!['\x1b', '[', '0', 'm', ' ', 'F', 'A', 'I', 'L']
}

// ---------------------------------------------------------------------------
// The start marker
// ---------------------------------------------------------------------------

/// The path of a `FAIL\s+<path>` marker at position `i` of a probe line, where `<path>` is
/// `[a-zA-Z0-9._-]*/[a-zA-Z0-9./_-]*`.
pub open spec fn fail_marker_at(p: Seq<char>, i: int) -> Option<Seq<char>> {
    if has_at(p, i, fail_word()) {
        let j = run_end(p, i + 4, CharClass::Space);
        let k = run_end(p, j, CharClass::PathPart);
        if j > i + 4 && k < p.len() && p[k] == '/' {
            Some(p.subrange(j, run_end(p, k + 1, CharClass::PathOrSlash)))
        } else {
            None
        }
    } else {
        None
    }
}

/// The path of the leftmost `FAIL <path>` marker at or after position `i`.
pub open spec fn fail_marker_from(p: Seq<char>, i: int) -> Option<Seq<char>>
    decreases p.len() - i,
{
    if i < 0 || i >= p.len() {
        None
    } else {
        match fail_marker_at(p, i) {
            Some(path) => Some(path),
            None => fail_marker_from(p, i + 1),
        }
    }
}

pub open spec fn fail_marker(p: Seq<char>) -> Option<Seq<char>> {
    fail_marker_from(p, 0)
}

fn fail_marker_at_exec(p: &Vec<char>, i: usize, fail: &Vec<char>) -> (r: Option<Vec<char>>)
    requires
        i < p.len(),
        fail@ == fail_word(),
    ensures
        r is Some <==> fail_marker_at(p@, i as int) is Some,
        r is Some ==> fail_marker_at(p@, i as int) == Some(r->0@),
{
    if !has_at_exec(p, i, fail) {
        return None;
    }
    let j = run_end_exec(p, i + 4, CharClass::Space);
    let k = run_end_exec(p, j, CharClass::PathPart);
    if j > i + 4 && k < p.len() && p[k] == '/' {
        let e = run_end_exec(p, k + 1, CharClass::PathOrSlash);
        Some(subrange_exec(p, j, e))
    } else {
        None
    }
}

pub fn fail_marker_exec(p: &Vec<char>) -> (r: Option<Vec<char>>)
    ensures
        r is Some <==> fail_marker(p@) is Some,
        r is Some ==> fail_marker(p@) == Some(r->0@),
{
    let fail: Vec<char> = vec!['F', 'A', 'I', 'L'];
    proof {
        assert(fail@ =~= fail_word());
    }
    let mut i: usize = 0;
    while i < p.len()
        invariant
            fail@ == fail_word(),
            fail_marker_from(p@, i as int) == fail_marker(p@),
        decreases p.len() - i,
    {
        if let Some(path) = fail_marker_at_exec(p, i, &fail) {
            return Some(path);
        }
        i += 1;
    }
    None
}

// ---------------------------------------------------------------------------
// The start column
// ---------------------------------------------------------------------------

/// A chain of escape sequences starts at `i` and runs into `FAIL`, at most one white-space
/// character between them.
pub open spec fn escapes_then_fail(s: Seq<char>, i: int) -> bool
    decreases s.len() - i,
    via escapes_then_fail_decreases
{
    match sgr_end(s, i) {
        None => false,
        Some(e) => has_at(s, e, fail_word()) || (e < s.len() && is_space(s[e]) && has_at(
            s,
            e + 1,
            fail_word(),
        )) || escapes_then_fail(s, e),
    }
}

#[via_fn]
proof fn escapes_then_fail_decreases(s: Seq<char>, i: int) {
    lemma_sgr_tail_bounds(s, i + 3);
}

/// The leftmost position at or after `i` where a chain of escapes runs into `FAIL`.
pub open spec fn escaped_fail_from(s: Seq<char>, i: int) -> Option<int>
    decreases s.len() - i,
{
    if i < 0 || i >= s.len() {
        None
    } else if escapes_then_fail(s, i) {
        Some(i)
    } else {
        escaped_fail_from(s, i + 1)
    }
}

/// The column where a `FAIL` line's block starts in the display line: the `FAIL` itself when
/// a reset escape and a space precede it (a labelled container's output); else the first of
/// the escapes that color it; else the first `FAIL`.
pub open spec fn fail_start(s: Seq<char>) -> Option<int> {
    if find_from(s, reset_fail(), 0) is Some {
        find_from(s, fail_word(), 0)
    } else if escaped_fail_from(s, 0) is Some {
        escaped_fail_from(s, 0)
    } else {
        find_from(s, fail_word(), 0)
    }
}

fn escapes_then_fail_exec(s: &Vec<char>, start: usize, fail: &Vec<char>) -> (r: bool)
    requires
        fail@ == fail_word(),
    ensures
        r == escapes_then_fail(s@, start as int),
{
    let mut i = start;
    loop
        invariant
            fail@ == fail_word(),
            i <= s.len() || i == start,
            escapes_then_fail(s@, i as int) == escapes_then_fail(s@, start as int),
        decreases s.len() + 1 - i,
    {
        match sgr_end_exec(s, i) {
            None => {
                return false;
            },
            Some(e) => {
                if has_at_exec(s, e, fail) {
                    return true;
                }
                if e < s.len() && in_class_exec(CharClass::Space, s[e]) && has_at_exec(
                    s,
                    e + 1,
                    fail,
                ) {
                    return true;
                }
                i = e;
            },
        }
    }
}

fn escaped_fail_exec(s: &Vec<char>, fail: &Vec<char>) -> (r: Option<usize>)
    requires
        fail@ == fail_word(),
    ensures
        r is Some <==> escaped_fail_from(s@, 0) is Some,
        r is Some ==> escaped_fail_from(s@, 0) == Some(r->0 as int),
{
    let mut i: usize = 0;
    while i < s.len()
        invariant
            fail@ == fail_word(),
            escaped_fail_from(s@, i as int) == escaped_fail_from(s@, 0),
        decreases s.len() - i,
    {
        if escapes_then_fail_exec(s, i, fail) {
            return Some(i);
        }
        i += 1;
    }
    None
}

pub fn fail_start_exec(s: &Vec<char>) -> (r: Option<usize>)
    ensures
        r is Some <==> fail_start(s@) is Some,
        r is Some ==> fail_start(s@) == Some(r->0 as int),
{
    let fail: Vec<char> = vec!['F', 'A', 'I', 'L'];
    let reset: Vec<char> = vec!['\x1b', '[', '0', 'm', ' ', 'F', 'A', 'I', 'L'];
    proof {
        assert(fail@ =~= fail_word());
        assert(reset@ =~= reset_fail());
    }
    if find_from_exec(s, &reset, 0).is_some() {
        find_from_exec(s, &fail, 0)
    } else {
        match escaped_fail_exec(s, &fail) {
            Some(c) => Some(c),
            None => find_from_exec(s, &fail, 0),
        }
    }
}

/// The column, in characters, where the block of a `FAIL` line starts.
pub fn find_fail_start(log: &str) -> (r: Option<usize>)
    ensures
        r is Some <==> fail_start(log@) is Some,
        r is Some ==> fail_start(log@) == Some(r->0 as int),
{
    let chars = chars_of(log);
    fail_start_exec(&chars)
}

// ---------------------------------------------------------------------------
// The parser
// ---------------------------------------------------------------------------

pub open spec fn jest_init() -> BlockModel {
    BlockModel { active: false, col: 0, path: Seq::empty(), block: Seq::empty(), done: Seq::empty() }
}

/// A block without its trailing empty lines; its first line always stays.
pub open spec fn trim_trailing_empty(b: Seq<Seq<char>>) -> Seq<Seq<char>>
    decreases b.len(),
{
    if b.len() > 1 && b.last().len() == 0 {
        trim_trailing_empty(b.drop_last())
    } else {
        b
    }
}

pub proof fn lemma_trim_keeps_first(b: Seq<Seq<char>>)
    requires
        b.len() >= 1,
    ensures
        trim_trailing_empty(b).len() >= 1,
        trim_trailing_empty(b).len() <= b.len(),
        trim_trailing_empty(b)[0] == b[0],
    decreases b.len(),
{
    if b.len() > 1 && b.last().len() == 0 {
        lemma_trim_keeps_first(b.drop_last());
    }
}

/// The column of a new block: where its `FAIL` starts, or the line's start when the display
/// line has no `FAIL` of its own.
pub open spec fn fail_column(d: Seq<char>) -> int {
    match fail_start(d) {
        Some(c) => c,
        None => 0,
    }
}

/// A line continues the open block when its first visible character at the block's column is
/// a space, or when it does not reach that column.
pub open spec fn continues_block(d: Seq<char>, col: int) -> bool {
    match next_visible(d, col) {
        Some(c) => c == ' ',
        None => true,
    }
}

pub open spec fn jest_close(m: BlockModel) -> BlockModel {
    BlockModel {
        active: false,
        block: Seq::empty(),
        done: push_new(m.done, (m.path, trim_trailing_empty(m.block))),
        ..m
    }
}

pub open spec fn jest_open(m: BlockModel, d: Seq<char>, path: Seq<char>) -> BlockModel {
    BlockModel {
        active: true,
        col: fail_column(d),
        path: path,
        block: seq![skip_chars(d, fail_column(d))],
        done: m.done,
    }
}

/// One line, given its display form `d` (timestamp removed) and its probe form `p` (escape
/// sequences removed too).
pub open spec fn jest_step_probed(m: BlockModel, d: Seq<char>, p: Seq<char>) -> BlockModel {
    match fail_marker(p) {
        Some(path) => jest_open(
            if m.active {
                jest_close(m)
            } else {
                m
            },
            d,
            path,
        ),
        None => if !m.active {
            m
        } else if continues_block(d, m.col) {
            BlockModel { block: m.block.push(skip_chars(d, m.col)), ..m }
        } else {
            jest_close(m)
        },
    }
}

pub open spec fn jest_step(m: BlockModel, raw: Seq<char>) -> BlockModel {
    jest_step_probed(m, strip_timestamp(raw), ansi_stripped(strip_timestamp(raw)))
}

pub open spec fn jest_run(lines: Seq<Seq<char>>) -> BlockModel
    decreases lines.len(),
{
    if lines.len() == 0 {
        jest_init()
    } else {
        jest_step(jest_run(lines.drop_last()), lines.last())
    }
}

pub open spec fn jest_finish(m: BlockModel) -> BlockModel {
    if m.active {
        jest_close(m)
    } else {
        m
    }
}

/// The records of a test runner's log.
pub open spec fn jest_records(log: Seq<char>) -> Seq<RecordView> {
    jest_finish(jest_run(log_lines(log))).done
}

/// What every reachable state keeps: an open block has lines, no two closed records are
/// equal, and every closed record has a line.
pub open spec fn jest_wf(m: BlockModel) -> bool {
    &&& m.active ==> m.block.len() >= 1
    &&& all_distinct(m.done)
    &&& forall|i: int| 0 <= i < m.done.len() ==> (#[trigger] m.done[i]).1.len() >= 1
}

pub proof fn lemma_jest_close_wf(m: BlockModel)
    requires
        jest_wf(m),
        m.active,
    ensures
        jest_wf(jest_close(m)),
{
    let r = (m.path, trim_trailing_empty(m.block));
    lemma_trim_keeps_first(m.block);
    lemma_push_new_distinct(m.done, r);
    let n = push_new(m.done, r);
    assert forall|i: int| 0 <= i < n.len() implies (#[trigger] n[i]).1.len() >= 1 by {
        if i < m.done.len() {
            assert(n[i] == m.done[i]);
        }
    }
}

pub proof fn lemma_jest_step_wf(m: BlockModel, d: Seq<char>, p: Seq<char>)
    requires
        jest_wf(m),
    ensures
        jest_wf(jest_step_probed(m, d, p)),
{
    if m.active {
        lemma_jest_close_wf(m);
    }
}

pub proof fn lemma_jest_run_wf(lines: Seq<Seq<char>>)
    ensures
        jest_wf(jest_run(lines)),
    decreases lines.len(),
{
    if lines.len() > 0 {
        lemma_jest_run_wf(lines.drop_last());
        let raw = lines.last();
        lemma_jest_step_wf(
            jest_run(lines.drop_last()),
            strip_timestamp(raw),
            ansi_stripped(strip_timestamp(raw)),
        );
    }
}

pub proof fn lemma_jest_finish_wf(m: BlockModel)
    requires
        jest_wf(m),
    ensures
        jest_wf(jest_finish(m)),
        !jest_finish(m).active,
{
    if m.active {
        lemma_jest_close_wf(m);
    }
}

#[derive(PartialEq, Eq, Structural)]
enum State {
    LookingForFail,
    ParsingFail,
}

/// The test runner's log parser.
pub struct JestLogParser {
    state: State,
    current_fail_start_col: usize,
    current_path: String,
    current_fail_lines: Vec<String>,
    all_fails: Vec<CheckError>,
}

impl View for JestLogParser {
    type V = BlockModel;

    closed spec fn view(&self) -> BlockModel {
        BlockModel {
            active: self.state == State::ParsingFail,
            col: self.current_fail_start_col as int,
            path: self.current_path@,
            block: lines_view(self.current_fail_lines@),
            done: records_view(self.all_fails@),
        }
    }
}

fn trim_trailing_empty_exec(lines: &mut Vec<String>)
    ensures
        lines_view(final(lines)@) == trim_trailing_empty(lines_view(old(lines)@)),
{
    while lines.len() > 1 && lines[lines.len() - 1].as_str().is_empty()
        invariant
            trim_trailing_empty(lines_view(lines@)) == trim_trailing_empty(
                lines_view(old(lines)@),
            ),
        decreases lines.len(),
    {
        let ghost before = lines_view(lines@);
        lines.pop();
        proof {
            assert(lines_view(lines@) =~= before.drop_last());
        }
    }
}

impl Default for JestLogParser {
    fn default() -> (r: Self)
        ensures
            r@ == jest_init(),
    {
        JestLogParser::new()
    }
}

impl JestLogParser {
    pub fn new() -> (r: Self)
        ensures
            r@ == jest_init(),
    {
        let r = JestLogParser {
            state: State::LookingForFail,
            current_fail_start_col: 0,
            current_path: String::new(),
            current_fail_lines: Vec::new(),
            all_fails: Vec::new(),
        };
        proof {
            assert(r@.path =~= Seq::<char>::empty());
            assert(r@.block =~= Seq::<Seq<char>>::empty());
            assert(r@.done =~= Seq::<RecordView>::empty());
        }
        r
    }

    fn close_fail(&mut self)
        requires
            old(self)@.active,
        ensures
            final(self)@ == jest_close(old(self)@),
    {
        let mut lines: Vec<String> = Vec::new();
        std::mem::swap(&mut lines, &mut self.current_fail_lines);
        trim_trailing_empty_exec(&mut lines);
        let record = CheckError { path: self.current_path.clone(), lines };
        push_if_new(&mut self.all_fails, record);
        self.state = State::LookingForFail;
        proof {
            assert(lines_view(self.current_fail_lines@) =~= Seq::<Seq<char>>::empty());
        }
    }

    fn open_fail(&mut self, display: &Vec<char>, path: Vec<char>)
        ensures
            final(self)@ == jest_open(old(self)@, display@, path@),
    {
        let col = match fail_start_exec(display) {
            Some(c) => c,
            None => 0,
        };
        let first = string_of(&skip_chars_exec(display, col));
        let mut lines: Vec<String> = Vec::new();
        lines.push(first);
        self.current_fail_start_col = col;
        self.current_path = string_of(&path);
        self.current_fail_lines = lines;
        self.state = State::ParsingFail;
        proof {
            assert(lines_view(self.current_fail_lines@) =~= seq![
                skip_chars(display@, fail_column(display@)),
            ]);
        }
    }

    /// Feeds one line, given its display form (timestamp removed) and its probe form (escape
    /// sequences removed too).
    pub fn feed_line(&mut self, display: &Vec<char>, probe: &Vec<char>)
        ensures
            final(self)@ == jest_step_probed(old(self)@, display@, probe@),
    {
        match fail_marker_exec(probe) {
            Some(path) => {
                if self.state == State::ParsingFail {
                    self.close_fail();
                }
                self.open_fail(display, path);
            },
            None => {
                if self.state == State::ParsingFail {
                    let continues = match next_visible_exec(display, self.current_fail_start_col) {
                        Some(c) => c == ' ',
                        None => true,
                    };
                    if continues {
                        let line = string_of(&skip_chars_exec(display, self.current_fail_start_col));
                        let ghost before = lines_view(self.current_fail_lines@);
                        self.current_fail_lines.push(line);
                        proof {
                            assert(lines_view(self.current_fail_lines@) =~= before.push(
                                skip_chars(display@, old(self)@.col),
                            ));
                        }
                    } else {
                        self.close_fail();
                    }
                }
            },
        }
    }

    /// Feeds one raw log line.
    pub fn parse_line(&mut self, raw_line: &Vec<char>)
        ensures
            final(self)@ == jest_step(old(self)@, raw_line@),
    {
        let display = strip_timestamp_exec(raw_line);
        let probe = strip_ansi(&display);
        self.feed_line(&display, &probe);
    }

    /// The records, once the input has ended: the open block is closed first.
    pub fn get_output(self) -> (r: Vec<CheckError>)
        ensures
            records_view(r@) == jest_finish(self@).done,
    {
        let mut parser = self;
        if parser.state == State::ParsingFail {
            parser.close_fail();
        }
        parser.all_fails
    }

    /// The failure records of a test runner's log, in order of appearance, each block once.
    pub fn parse(log: &str) -> (r: Vec<CheckError>)
        ensures
            records_view(r@) == jest_records(log@),
            all_distinct(records_view(r@)),
            forall|i: int| 0 <= i < r@.len() ==> (#[trigger] r@[i]).lines@.len() >= 1,
    {
        let chars = chars_of(log);
        let lines = split_lines(&chars);
        let ghost all = lines@.map_values(|l: Vec<char>| l@);
        let mut parser = JestLogParser::new();
        let mut i: usize = 0;
        while i < lines.len()
            invariant
                i <= lines.len(),
                all == lines@.map_values(|l: Vec<char>| l@),
                parser@ == jest_run(all.subrange(0, i as int)),
            decreases lines.len() - i,
        {
            parser.parse_line(&lines[i]);
            proof {
                assert(all.subrange(0, i + 1).drop_last() =~= all.subrange(0, i as int));
            }
            i += 1;
        }
        proof {
            assert(all.subrange(0, i as int) =~= all);
            lemma_jest_run_wf(all);
            lemma_jest_finish_wf(jest_run(all));
        }
        let r = parser.get_output();
        proof {
            assert forall|i: int| 0 <= i < r@.len() implies (#[trigger] r@[i]).lines@.len()
                >= 1 by {
                assert(records_view(r@)[i] == r@[i]@);
            }
        }
        r
    }
}


/// The paths of all `FAIL` lines of a log, in order, repeats kept.
pub open spec fn fail_paths(lines: Seq<Seq<char>>) -> Seq<Seq<char>>
    decreases lines.len(),
{
    if lines.len() == 0 {
        Seq::empty()
    } else {
        let prev = fail_paths(lines.drop_last());
        match fail_marker(ansi_stripped(strip_timestamp(lines.last()))) {
            Some(path) => prev.push(path),
            None => prev,
        }
    }
}

/// The lines of each failure block of a test runner's log, in order, each block once.
pub fn extract_failing_tests(logs: &str) -> (r: Vec<Vec<String>>)
    ensures
        r@.len() == jest_records(logs@).len(),
        forall|i: int| 0 <= i < r@.len() ==> lines_view(#[trigger] r@[i]@) == jest_records(logs@)[i].1,
{
    let records = JestLogParser::parse(logs);
    let mut out: Vec<Vec<String>> = Vec::new();
    let mut i: usize = 0;
    while i < records.len()
        invariant
            i <= records.len(),
            records_view(records@) == jest_records(logs@),
            out@.len() == i,
            forall|k: int| 0 <= k < i ==> lines_view(#[trigger] out@[k]@) == records@[k]@.1,
        decreases records.len() - i,
    {
        let mut lines: Vec<String> = Vec::new();
        let mut k: usize = 0;
        while k < records[i].lines.len()
            invariant
                i < records.len(),
                k <= records@[i as int].lines@.len(),
                lines_view(lines@) == lines_view(records@[i as int].lines@).subrange(0, k as int),
            decreases records@[i as int].lines@.len() - k,
        {
            let ghost before = lines_view(lines@);
            lines.push(records[i].lines[k].clone());
            proof {
                assert(lines_view(lines@) =~= before.push(records@[i as int].lines@[k as int]@));
                assert(lines_view(lines@) =~= lines_view(records@[i as int].lines@).subrange(
                    0,
                    k + 1,
                ));
            }
            k += 1;
        }
        proof {
            assert(lines_view(lines@) =~= lines_view(records@[i as int].lines@));
            assert(records_view(records@)[i as int] == records@[i as int]@);
        }
        out.push(lines);
        i += 1;
    }
    proof {
        assert forall|i: int| 0 <= i < out@.len() implies lines_view(#[trigger] out@[i]@)
            == jest_records(logs@)[i].1 by {
            assert(records_view(records@)[i] == records@[i]@);
        }
    }
    out
}

/// The paths of all `FAIL` lines of a test runner's log, in order.
pub fn extract_failing_test_files(logs: &str) -> (r: Vec<String>)
    ensures
        lines_view(r@) == fail_paths(log_lines(logs@)),
{
    let chars = chars_of(logs);
    let lines = split_lines(&chars);
    let ghost all = lines@.map_values(|l: Vec<char>| l@);
    let mut out: Vec<String> = Vec::new();
    let mut i: usize = 0;
    while i < lines.len()
        invariant
            i <= lines.len(),
            all == lines@.map_values(|l: Vec<char>| l@),
            all == log_lines(logs@),
            lines_view(out@) == fail_paths(all.subrange(0, i as int)),
        decreases lines.len() - i,
    {
        let probe = strip_ansi(&strip_timestamp_exec(&lines[i]));
        proof {
            assert(all.subrange(0, i + 1).drop_last() =~= all.subrange(0, i as int));
            assert(all.subrange(0, i + 1).last() == lines@[i as int]@);
        }
        if let Some(path) = fail_marker_exec(&probe) {
            let ghost before = lines_view(out@);
            out.push(string_of(&path));
            proof {
                assert(lines_view(out@) =~= before.push(path@));
            }
        }
        i += 1;
    }
    proof {
        assert(all.subrange(0, i as int) =~= all);
    }
    out
}

} // verus!
