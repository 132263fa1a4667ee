//! Text for the terminal: emphasis escapes and the framed header above each job's output.
use vstd::prelude::*;

use crate::checks::SimpleCheckRun;
use crate::normalize::{ansi_stripped, strip_ansi};
use crate::text::{chars_of, string_of};

verus! {

pub open spec fn bold_on() -> Seq<char> {
    seq!['\x1b', '[', '1', 'm']
}

pub open spec fn green_on() -> Seq<char> {
    seq!['\x1b', '[', '3', '2', 'm']
}

pub open spec fn style_off() -> Seq<char> {
    seq!['\x1b', '[', '0', 'm']
}

fn push_all(out: &mut Vec<char>, s: &Vec<char>)
    ensures
        final(out)@ == old(out)@ + s@,
{
    let mut i: usize = 0;
    while i < s.len()
        invariant
            i <= s.len(),
            out@ == old(out)@ + s@.subrange(0, i as int),
        decreases s.len() - i,
    {
        out.push(s[i]);
        i += 1;
        proof {
            assert(out@ =~= old(out)@ + s@.subrange(0, i as int));
        }
    }
    proof {
        assert(s@.subrange(0, i as int) =~= s@);
    }
}

fn wrap(on: Vec<char>, text: &str) -> (r: String)
    ensures
        r@ == on@ + text@ + style_off(),
{
    let mut out = on;
    push_all(&mut out, &chars_of(text));
    let off: Vec<char> = vec!['\x1b', '[', '0', 'm'];
    proof {
        assert(off@ =~= style_off());
    }
    push_all(&mut out, &off);
    string_of(&out)
}

/// The text in bold, with the style reset after it.
pub fn bold(text: &str) -> (r: String)
    ensures
        r@ == bold_on() + text@ + style_off(),
{
    let on: Vec<char> = vec!['\x1b', '[', '1', 'm'];
    proof {
        assert(on@ =~= bold_on());
    }
    wrap(on, text)
}

/// The text in green, with the style reset after it.
pub fn green(text: &str) -> (r: String)
    ensures
        r@ == green_on() + text@ + style_off(),
{
    let on: Vec<char> = vec!['\x1b', '[', '3', '2', 'm'];
    proof {
        assert(on@ =~= green_on());
    }
    wrap(on, text)
}

/// The header above a run's records: its name and its URL, each after a bold label.
pub open spec fn header_text(name: Seq<char>, url: Seq<char>) -> Seq<char> {
    bold_on() + seq!['J', 'o', 'b', ':'] + style_off() + seq![' '] + name + seq!['\n']
        + bold_on() + seq!['U', 'r', 'l', ':'] + style_off() + seq![' '] + url
}

/// The two lines of the header above a run's records.
pub fn check_run_header(run: &SimpleCheckRun) -> (r: String)
    requires
        run.url is Some,
    ensures
        r@ == header_text(run.name@, run.url->0@),
{
    let mut out: Vec<char> = Vec::new();
    push_all(&mut out, &chars_of(bold("Job:").as_str()));
    out.push(' ');
    push_all(&mut out, &chars_of(run.name.as_str()));
    out.push('\n');
    push_all(&mut out, &chars_of(bold("Url:").as_str()));
    out.push(' ');
    match &run.url {
        Some(url) => push_all(&mut out, &chars_of(url.as_str())),
        None => {},
    }
    proof {
        reveal_strlit("Job:");
        reveal_strlit("Url:");
        assert(out@ =~= header_text(run.name@, run.url->0@));
    }
    string_of(&out)
}

/// The line as framed in a box `width` columns wide: escapes removed, cut to fit with `...`
/// when longer than `width - 4`.
pub open spec fn fitted(line: Seq<char>, width: int) -> Seq<char> {
    let plain = ansi_stripped(line);
    if plain.len() > width - 4 {
        plain.subrange(0, width - 7) + seq!['.', '.', '.']
    } else {
        plain
    }
}

pub open spec fn repeat_char(c: char, n: int) -> Seq<char>
    decreases n,
{
    if n <= 0 {
        Seq::empty()
    } else {
        repeat_char(c, n - 1).push(c)
    }
}

fn repeat_exec(out: &mut Vec<char>, c: char, n: usize)
    ensures
        final(out)@ == old(out)@ + repeat_char(c, n as int),
{
    let mut i: usize = 0;
    while i < n
        invariant
            i <= n,
            out@ == old(out)@ + repeat_char(c, i as int),
        decreases n - i,
    {
        out.push(c);
        i += 1;
        proof {
            assert(out@ =~= old(out)@ + repeat_char(c, i as int));
        }
    }
}

/// The line framed: `│ `, the fitted text, spaces up to the width, ` │`.
pub open spec fn framed(line: Seq<char>, width: int) -> Seq<char> {
    seq!['│', ' '] + fitted(line, width) + repeat_char(' ', width - fitted(line, width).len() - 4)
        + seq![' ', '│']
}

/// The lines of `header` split at `'\n'`.
pub open spec fn header_lines(h: Seq<char>) -> Seq<Seq<char>>
    decreases h.len(),
{
    if h.len() == 0 {
        seq![Seq::empty()]
    } else {
        let prev = header_lines(h.drop_last());
        if h.last() == '\n' {
            prev.push(Seq::empty())
        } else {
            prev.update(prev.len() - 1, prev.last().push(h.last()))
        }
    }
}

pub proof fn lemma_header_lines_nonempty(h: Seq<char>)
    ensures
        header_lines(h).len() >= 1,
    decreases h.len(),
{
    if h.len() > 0 {
        lemma_header_lines_nonempty(h.drop_last());
    }
}

/// The boxed header, `width` columns wide: a top border, each line of `header` framed, a
/// bottom border.
pub open spec fn header_box(h: Seq<char>, width: int) -> Seq<Seq<char>> {
    seq![seq!['┌'] + repeat_char('─', width - 2) + seq!['┐']] + header_lines(h).map_values(
        |l: Seq<char>| framed(l, width),
    ) + seq![seq!['└'] + repeat_char('─', width - 2) + seq!['┘']]
}

fn split_header(h: &Vec<char>) -> (r: Vec<Vec<char>>)
    ensures
        r@.map_values(|l: Vec<char>| l@) == header_lines(h@),
{
    let mut out: Vec<Vec<char>> = Vec::new();
    out.push(Vec::new());
    let mut i: usize = 0;
    proof {
        assert(h@.subrange(0, 0) =~= Seq::<char>::empty());
        assert(out@.map_values(|l: Vec<char>| l@) =~= seq![Seq::<char>::empty()]);
    }
    while i < h.len()
        invariant
            i <= h.len(),
            out@.len() >= 1,
            out@.map_values(|l: Vec<char>| l@) == header_lines(h@.subrange(0, i as int)),
        decreases h.len() - i,
    {
        let ghost prev = out@.map_values(|l: Vec<char>| l@);
        proof {
            assert(h@.subrange(0, i + 1).drop_last() =~= h@.subrange(0, i as int));
        }
        if h[i] == '\n' {
            out.push(Vec::new());
            proof {
                assert(out@.map_values(|l: Vec<char>| l@) =~= prev.push(Seq::empty()));
            }
        } else {
            let last = out.len() - 1;
            let mut line = out.pop().unwrap();
            line.push(h[i]);
            out.push(line);
            proof {
                assert(out@.map_values(|l: Vec<char>| l@) =~= prev.update(
                    last as int,
                    prev[last as int].push(h@[i as int]),
                ));
            }
        }
        i += 1;
    }
    proof {
        assert(h@.subrange(0, i as int) =~= h@);
    }
    out
}

fn border(left: char, right: char, width: usize) -> (r: String)
    requires
        width >= 2,
    ensures
        r@ == seq![left] + repeat_char('─', width - 2) + seq![right],
{
    let mut out: Vec<char> = Vec::new();
    out.push(left);
    repeat_exec(&mut out, '─', width - 2);
    out.push(right);
    proof {
        assert(out@ =~= seq![left] + repeat_char('─', width - 2) + seq![right]);
    }
    string_of(&out)
}

fn frame_line(line: &Vec<char>, width: usize) -> (r: String)
    requires
        width >= 7,
    ensures
        r@ == framed(line@, width as int),
{
    let plain = strip_ansi(line);
    let mut text: Vec<char> = Vec::new();
    if plain.len() > width - 4 {
        let mut k: usize = 0;
        while k < width - 7
            invariant
                k <= width - 7 < plain.len(),
                text@ == plain@.subrange(0, k as int),
            decreases width - 7 - k,
        {
            text.push(plain[k]);
            k += 1;
            proof {
                assert(text@ =~= plain@.subrange(0, k as int));
            }
        }
        text.push('.');
        text.push('.');
        text.push('.');
        proof {
            assert(text@ =~= plain@.subrange(0, width - 7) + seq!['.', '.', '.']);
        }
    } else {
        text = plain;
    }
    let mut out: Vec<char> = Vec::new();
    out.push('│');
    out.push(' ');
    push_all(&mut out, &text);
    repeat_exec(&mut out, ' ', width - text.len() - 4);
    out.push(' ');
    out.push('│');
    proof {
        assert(out@ =~= framed(line@, width as int));
    }
    string_of(&out)
}

/// The lines of the box drawn around `header` in a terminal `width` columns wide.
pub fn header_box_lines(header: &str, width: usize) -> (r: Vec<String>)
    requires
        width >= 7,
    ensures
        r@.map_values(|l: String| l@) == header_box(header@, width as int),
{
    let lines = split_header(&chars_of(header));
    let ghost hl = header_lines(header@);
    let mut out: Vec<String> = Vec::new();
    out.push(border('┌', '┐', width));
    let mut i: usize = 0;
    while i < lines.len()
        invariant
            i <= lines.len(),
            width >= 7,
            lines@.map_values(|l: Vec<char>| l@) == hl,
            out@.map_values(|l: String| l@) == seq![
                seq!['┌'] + repeat_char('─', width - 2) + seq!['┐'],
            ] + hl.subrange(0, i as int).map_values(|l: Seq<char>| framed(l, width as int)),
        decreases lines.len() - i,
    {
        let ghost before = out@.map_values(|l: String| l@);
        out.push(frame_line(&lines[i], width));
        proof {
            assert(lines@[i as int]@ == hl[i as int]);
            assert(hl.subrange(0, i + 1).map_values(|l: Seq<char>| framed(l, width as int))
                =~= hl.subrange(0, i as int).map_values(|l: Seq<char>| framed(l, width as int)).push(
                framed(hl[i as int], width as int),
            ));
            assert(out@.map_values(|l: String| l@) =~= before.push(framed(hl[i as int], width as int)));
        }
        i += 1;
    }
    let ghost before = out@.map_values(|l: String| l@);
    out.push(border('└', '┘', width));
    proof {
        assert(hl.subrange(0, i as int) =~= hl);
        assert(out@.map_values(|l: String| l@) =~= header_box(header@, width as int));
    }
    out
}

} // verus!
