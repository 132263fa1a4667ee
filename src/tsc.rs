//! The type checker's log: blocks that open on a `##[error]<path>(<line>,<col>): error TS<code>`
//! annotation.
use vstd::prelude::*;

use crate::normalize::{log_lines, split_lines, strip_timestamp, strip_timestamp_exec};
use crate::record::{lines_view, records_view, BlockModel, CheckError, RecordView};
use crate::text::{
    chars_of, has_at, has_at_exec, in_class, in_class_exec, is_space,
    run_end, run_end_exec, skip_chars, skip_chars_exec, string_of,
    subrange_exec, CharClass,
};

verus! {

pub open spec fn error_tag() -> Seq<char> {
    seq!['#', '#', '[', 'e', 'r', 'r', 'o', 'r', ']']
}

pub open spec fn error_word() -> Seq<char> {
    seq!['e', 'r', 'r', 'o', 'r']
}

pub open spec fn ts_word() -> Seq<char> {
    seq!['T', 'S']
}

pub open spec fn ansi_reset() -> Seq<char> {
    seq!['\x1b', '[', '0', 'm']
}

/// `(<line>,<col>): error TS<code>` stands at position `q`.
pub open spec fn location_at(s: Seq<char>, q: int) -> bool {
    let d1 = run_end(s, q + 1, CharClass::Digit);
    let d2 = run_end(s, d1 + 1, CharClass::Digit);
    &&& 0 <= q < s.len() && s[q] == '('
    &&& d1 > q + 1 && d1 < s.len() && s[d1] == ','
    &&& d2 > d1 + 1 && d2 + 2 < s.len() && s[d2] == ')' && s[d2 + 1] == ':' && is_space(s[d2 + 2])
    &&& has_at(s, d2 + 3, error_word())
    &&& d2 + 8 < s.len() && is_space(s[d2 + 8])
    &&& has_at(s, d2 + 9, ts_word())
    &&& run_end(s, d2 + 11, CharClass::Digit) > d2 + 11
}

/// The first position at or after `q` where such a location stands.
pub open spec fn location_from(s: Seq<char>, q: int) -> Option<int>
    decreases s.len() - q,
{
    if q < 0 || q >= s.len() {
        None
    } else if location_at(s, q) {
        Some(q)
    } else {
        location_from(s, q + 1)
    }
}

/// The start of the run of path characters that ends at `q`, not before `lo`.
pub open spec fn path_start(s: Seq<char>, lo: int, q: int) -> int
    decreases q - lo,
{
    if q > lo && q <= s.len() && in_class(CharClass::PathOrSlash, s[q - 1]) {
        path_start(s, lo, q - 1)
    } else {
        q
    }
}

/// The start column and the path of an error annotation on a display line: the tag after
/// leading white space, then anything (a colored package label), then the path, which a reset
/// escape may precede, then the location.
pub open spec fn tsc_marker(d: Seq<char>) -> Option<(int, Seq<char>)> {
    let t = run_end(d, 0, CharClass::Space);
    if has_at(d, t, error_tag()) {
        match location_from(d, t + 9) {
            Some(q) => {
                let s0 = path_start(d, t + 9, q);
                if s0 >= t + 11 && s0 + 2 <= q && has_at(d, s0 - 2, ansi_reset()) {
                    Some((t, d.subrange(s0 + 2, q)))
                } else {
                    Some((t, d.subrange(s0, q)))
                }
            },
            None => None,
        }
    } else {
        None
    }
}

/// The first line of a block: the display line without the tag that starts it.
pub open spec fn first_line(d: Seq<char>) -> Seq<char> {
    if has_at(d, 0, error_tag()) {
        skip_chars(d, 9)
    } else {
        d
    }
}

pub open spec fn tsc_init() -> BlockModel {
    BlockModel { active: false, col: 0, path: Seq::empty(), block: Seq::empty(), done: Seq::empty() }
}

pub open spec fn tsc_close(m: BlockModel) -> BlockModel {
    BlockModel { active: false, block: Seq::empty(), done: m.done.push((m.path, m.block)), ..m }
}

pub open spec fn tsc_open(m: BlockModel, d: Seq<char>, col: int, path: Seq<char>) -> BlockModel {
    BlockModel { active: true, col: col, path: path, block: seq![first_line(d)], done: m.done }
}

/// A line continues the open block when it holds a space at the block's column.
pub open spec fn is_indented_at(d: Seq<char>, col: int) -> bool {
    0 <= col < d.len() && d[col] == ' '
}

/// One line, given its display form `d` (timestamp removed).
pub open spec fn tsc_step_display(m: BlockModel, d: Seq<char>) -> BlockModel {
    match tsc_marker(d) {
        Some(marker) => tsc_open(
            if m.active {
                tsc_close(m)
            } else {
                m
            },
            d,
            marker.0,
            marker.1,
        ),
        None => if !m.active {
            m
        } else if is_indented_at(d, m.col) {
            BlockModel { block: m.block.push(d), ..m }
        } else {
            tsc_close(m)
        },
    }
}

pub open spec fn tsc_run(lines: Seq<Seq<char>>) -> BlockModel
    decreases lines.len(),
{
    if lines.len() == 0 {
        tsc_init()
    } else {
        tsc_step_display(tsc_run(lines.drop_last()), strip_timestamp(lines.last()))
    }
}

pub open spec fn tsc_finish(m: BlockModel) -> BlockModel {
    if m.active {
        tsc_close(m)
    } else {
        m
    }
}

/// The records of a type checker's log.
pub open spec fn tsc_records(log: Seq<char>) -> Seq<RecordView> {
    tsc_finish(tsc_run(log_lines(log))).done
}

/// An open block has lines, and so has every closed record.
pub open spec fn tsc_wf(m: BlockModel) -> bool {
    &&& m.active ==> m.block.len() >= 1
    &&& forall|i: int| 0 <= i < m.done.len() ==> (#[trigger] m.done[i]).1.len() >= 1
}

pub proof fn lemma_tsc_step_wf(m: BlockModel, d: Seq<char>)
    requires
        tsc_wf(m),
    ensures
        tsc_wf(tsc_step_display(m, d)),
        tsc_wf(tsc_finish(m)),
{
    if m.active {
        let n = tsc_close(m);
        assert forall|i: int| 0 <= i < n.done.len() implies (#[trigger] n.done[i]).1.len()
            >= 1 by {
            if i < m.done.len() {
                assert(n.done[i] == m.done[i]);
            }
        }
    }
}

pub proof fn lemma_tsc_run_wf(lines: Seq<Seq<char>>)
    ensures
        tsc_wf(tsc_run(lines)),
    decreases lines.len(),
{
    if lines.len() > 0 {
        lemma_tsc_run_wf(lines.drop_last());
        lemma_tsc_step_wf(tsc_run(lines.drop_last()), strip_timestamp(lines.last()));
    }
}

/// An annotation in the middle of a block closes that block, lines unchanged, and opens a
/// new one that holds the annotation's line alone.
pub proof fn lemma_tsc_reentrant_start(m: BlockModel, d: Seq<char>)
    requires
        tsc_wf(m),
        m.active,
        tsc_marker(d) is Some,
    ensures
        m.block.len() >= 1,
        tsc_step_display(m, d).active,
        tsc_step_display(m, d).done == m.done.push((m.path, m.block)),
        tsc_step_display(m, d).path == (tsc_marker(d)->0).1,
        tsc_step_display(m, d).block == seq![first_line(d)],
{
}

fn location_at_exec(s: &Vec<char>, q: usize, error: &Vec<char>, ts: &Vec<char>) -> (r: bool)
    requires
        q < s.len(),
        error@ == error_word(),
        ts@ == ts_word(),
    ensures
        r == location_at(s@, q as int),
{
    if s[q] != '(' {
        return false;
    }
    let d1 = run_end_exec(s, q + 1, CharClass::Digit);
    if !(d1 > q + 1 && d1 < s.len() && s[d1] == ',') {
        return false;
    }
    let d2 = run_end_exec(s, d1 + 1, CharClass::Digit);
    if !(d2 > d1 + 1 && d2 < s.len() && s.len() - d2 > 2) {
        return false;
    }
    if !(s[d2] == ')' && s[d2 + 1] == ':' && in_class_exec(CharClass::Space, s[d2 + 2])) {
        return false;
    }
    if !has_at_exec(s, d2 + 3, error) {
        return false;
    }
    if !(s.len() - d2 > 8 && in_class_exec(CharClass::Space, s[d2 + 8])) {
        return false;
    }
    if !has_at_exec(s, d2 + 9, ts) {
        return false;
    }
    let d3 = run_end_exec(s, d2 + 11, CharClass::Digit);
    d3 > d2 + 11
}

fn location_from_exec(s: &Vec<char>, start: usize) -> (r: Option<usize>)
    ensures
        r is Some <==> location_from(s@, start as int) is Some,
        r is Some ==> location_from(s@, start as int) == Some(r->0 as int) && start <= r->0
            < s.len(),
{
    let error: Vec<char> = vec!['e', 'r', 'r', 'o', 'r'];
    let ts: Vec<char> = vec!['T', 'S'];
    proof {
        assert(error@ =~= error_word());
        assert(ts@ =~= ts_word());
    }
    let mut q = start;
    while q < s.len()
        invariant
            start <= q,
            error@ == error_word(),
            ts@ == ts_word(),
            location_from(s@, q as int) == location_from(s@, start as int),
        decreases s.len() - q,
    {
        if location_at_exec(s, q, &error, &ts) {
            return Some(q);
        }
        q += 1;
    }
    None
}

fn path_start_exec(s: &Vec<char>, lo: usize, q: usize) -> (r: usize)
    requires
        lo <= q <= s.len(),
    ensures
        r == path_start(s@, lo as int, q as int),
        lo <= r <= q,
{
    let mut p = q;
    while p > lo && in_class_exec(CharClass::PathOrSlash, s[p - 1])
        invariant
            lo <= p <= q <= s.len(),
            path_start(s@, lo as int, p as int) == path_start(s@, lo as int, q as int),
        decreases p - lo,
    {
        p -= 1;
    }
    p
}

pub fn tsc_marker_exec(d: &Vec<char>) -> (r: Option<(usize, Vec<char>)>)
    ensures
        match r {
            Some((col, path)) => tsc_marker(d@) == Some((col as int, path@)),
            None => tsc_marker(d@) is None,
        },
{
    let tag: Vec<char> = vec!['#', '#', '[', 'e', 'r', 'r', 'o', 'r', ']'];
    let reset: Vec<char> = vec!['\x1b', '[', '0', 'm'];
    proof {
        assert(tag@ =~= error_tag());
        assert(reset@ =~= ansi_reset());
    }
    let t = run_end_exec(d, 0, CharClass::Space);
    if !has_at_exec(d, t, &tag) {
        return None;
    }
    match location_from_exec(d, t + 9) {
        Some(q) => {
            let s0 = path_start_exec(d, t + 9, q);
            if s0 - t >= 11 && q - s0 >= 2 && has_at_exec(d, s0 - 2, &reset) {
                Some((t, subrange_exec(d, s0 + 2, q)))
            } else {
                Some((t, subrange_exec(d, s0, q)))
            }
        },
        None => None,
    }
}

#[derive(PartialEq, Eq, Structural)]
enum State {
    LookingForError,
    ParsingError,
}

/// The type checker's log parser.
pub struct TscLogParser {
    state: State,
    error_tag_start_col: usize,
    current_path: String,
    current_lines: Vec<String>,
    all_errors: Vec<CheckError>,
}

impl View for TscLogParser {
    type V = BlockModel;

    closed spec fn view(&self) -> BlockModel {
        BlockModel {
            active: self.state == State::ParsingError,
            col: self.error_tag_start_col as int,
            path: self.current_path@,
            block: lines_view(self.current_lines@),
            done: records_view(self.all_errors@),
        }
    }
}

impl TscLogParser {
    pub fn new() -> (r: Self)
        ensures
            r@ == tsc_init(),
    {
        let r = TscLogParser {
            state: State::LookingForError,
            error_tag_start_col: 0,
            current_path: String::new(),
            current_lines: Vec::new(),
            all_errors: Vec::new(),
        };
        proof {
            assert(r@.path =~= Seq::<char>::empty());
            assert(r@.block =~= Seq::<Seq<char>>::empty());
            assert(r@.done =~= Seq::<RecordView>::empty());
        }
        r
    }

    /// Closes the open block: it becomes a record.
    fn reset_to_looking_for_errors(&mut self)
        requires
            old(self)@.active,
        ensures
            final(self)@ == tsc_close(old(self)@),
    {
        let mut lines: Vec<String> = Vec::new();
        std::mem::swap(&mut lines, &mut self.current_lines);
        let record = CheckError { path: self.current_path.clone(), lines };
        let ghost before = records_view(self.all_errors@);
        self.all_errors.push(record);
        self.state = State::LookingForError;
        proof {
            assert(records_view(self.all_errors@) =~= before.push(record@));
            assert(lines_view(self.current_lines@) =~= Seq::<Seq<char>>::empty());
        }
    }

    /// Feeds one line, given its display form (timestamp removed).
    pub fn feed_line(&mut self, display: &Vec<char>)
        ensures
            final(self)@ == tsc_step_display(old(self)@, display@),
    {
        match tsc_marker_exec(display) {
            Some((col, path)) => {
                if self.state == State::ParsingError {
                    self.reset_to_looking_for_errors();
                }
                let tag: Vec<char> = vec!['#', '#', '[', 'e', 'r', 'r', 'o', 'r', ']'];
                proof {
                    assert(tag@ =~= error_tag());
                }
                let first = if has_at_exec(display, 0, &tag) {
                    skip_chars_exec(display, 9)
                } else {
                    display.clone()
                };
                let mut lines: Vec<String> = Vec::new();
                lines.push(string_of(&first));
                self.error_tag_start_col = col;
                self.current_path = string_of(&path);
                self.current_lines = lines;
                self.state = State::ParsingError;
                proof {
                    assert(lines_view(self.current_lines@) =~= seq![first_line(display@)]);
                }
            },
            None => {
                if self.state == State::ParsingError {
                    let col = self.error_tag_start_col;
                    if col < display.len() && display[col] == ' ' {
                        let ghost before = lines_view(self.current_lines@);
                        self.current_lines.push(string_of(display));
                        proof {
                            assert(lines_view(self.current_lines@) =~= before.push(display@));
                        }
                    } else {
                        self.reset_to_looking_for_errors();
                    }
                }
            },
        }
    }

    /// Feeds one raw log line.
    pub fn parse_line(&mut self, raw_line: &Vec<char>)
        ensures
            final(self)@ == tsc_step_display(old(self)@, strip_timestamp(raw_line@)),
    {
        let display = strip_timestamp_exec(raw_line);
        self.feed_line(&display);
    }

    /// The records, once the input has ended: the open block is closed first.
    pub fn get_output(self) -> (r: Vec<CheckError>)
        ensures
            records_view(r@) == tsc_finish(self@).done,
    {
        let mut parser = self;
        if parser.state == State::ParsingError {
            parser.reset_to_looking_for_errors();
        }
        parser.all_errors
    }

    /// The error records of a type checker's log, in order of appearance.
    pub fn parse(log: &str) -> (r: Vec<CheckError>)
        ensures
            records_view(r@) == tsc_records(log@),
            forall|i: int| 0 <= i < r@.len() ==> (#[trigger] r@[i]).lines@.len() >= 1,
    {
        let chars = chars_of(log);
        let lines = split_lines(&chars);
        let ghost all = lines@.map_values(|l: Vec<char>| l@);
        let mut parser = TscLogParser::new();
        let mut i: usize = 0;
        while i < lines.len()
            invariant
                i <= lines.len(),
                all == lines@.map_values(|l: Vec<char>| l@),
                parser@ == tsc_run(all.subrange(0, i as int)),
            decreases lines.len() - i,
        {
            parser.parse_line(&lines[i]);
            proof {
                assert(all.subrange(0, i + 1).drop_last() =~= all.subrange(0, i as int));
            }
            i += 1;
        }
        proof {
            assert(all.subrange(0, i as int) =~= all);
            lemma_tsc_run_wf(all);
            lemma_tsc_step_wf(tsc_run(all), Seq::empty());
        }
        let r = parser.get_output();
        proof {
            assert forall|i: int| 0 <= i < r@.len() implies (#[trigger] r@[i]).lines@.len()
                >= 1 by {
                assert(records_view(r@)[i] == r@[i]@);
            }
        }
        r
    }
}

} // verus!
