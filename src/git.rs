//! The repository a working copy belongs to, read from its `origin` remote URL
//! (`git@github.com:owner/name.git`).
use vstd::prelude::*;

use crate::text::{
    chars_of, find_from, find_from_exec, in_class_exec, is_space, run_end, run_end_exec, string_of, subrange_exec, CharClass,
};

verus! {

#[verifier::external_type_specification]
#[verifier::external_body]
pub struct ExPathBuf(std::path::PathBuf);

/// A working copy on disk; the commands that ask it for its branch and remote run outside.
pub struct Git {
    pub directory: std::path::PathBuf,
}

impl Git {
    pub fn new(directory: std::path::PathBuf) -> (r: Self)
        ensures
            r.directory == directory,
    {
        Git { directory }
    }
}

#[derive(Debug, Clone, PartialEq, Eq)]
pub struct Repository {
    pub owner: String,
    pub name: String,
    pub hostname: String,
}

/// The remote URL does not have the shape `user@host:owner/name.git`.
#[derive(Debug, Clone, PartialEq, Eq)]
pub struct InvalidRemoteUrl {
    pub url: String,
}

/// The end of `s` without its trailing white space, not before `lo`.
pub open spec fn trim_end_from(s: Seq<char>, lo: int, e: int) -> int
    decreases e - lo,
{
    if e > lo && e <= s.len() && is_space(s[e - 1]) {
        trim_end_from(s, lo, e - 1)
    } else {
        e
    }
}

/// `s` without white space at either end.
pub open spec fn trim(s: Seq<char>) -> Seq<char> {
    let b = run_end(s, 0, CharClass::Space);
    s.subrange(b, trim_end_from(s, b, s.len() as int))
}

/// The part of `s` before the first `c`: all of `s` when it holds none.
pub open spec fn before(s: Seq<char>, c: char) -> Seq<char> {
    match find_from(s, seq![c], 0) {
        Some(i) => s.subrange(0, i),
        None => s,
    }
}

/// The part of `s` after the first `c`, if it holds one.
pub open spec fn after(s: Seq<char>, c: char) -> Option<Seq<char>> {
    match find_from(s, seq![c], 0) {
        Some(i) => Some(s.subrange(i + 1, s.len() as int)),
        None => None,
    }
}

pub open spec fn dot_git() -> Seq<char> {
    seq!['.', 'g', 'i', 't']
}

/// Owner, name and host name of a remote URL: the host part is what precedes the first `:`,
/// and the host name follows its `@`; the path is what follows that `:`, up to the next one,
/// and holds the owner, a `/`, and the name with `.git` after it.
pub open spec fn parse_remote(url: Seq<char>) -> Option<(Seq<char>, Seq<char>, Seq<char>)> {
    let t = trim(url);
    let host = before(t, ':');
    match after(t, ':') {
        None => None,
        Some(r1) => {
            let seg = before(r1, ':');
            let owner = before(seg, '/');
            match after(seg, '/') {
                None => None,
                Some(r2) => {
                    let full = before(r2, '/');
                    if full.len() >= 4 && full.subrange(full.len() - 4, full.len() as int)
                        == dot_git() {
                        match after(host, '@') {
                            None => None,
                            Some(h) => Some(
                                (owner, full.subrange(0, full.len() - 4), before(h, '@')),
                            ),
                        }
                    } else {
                        None
                    }
                },
            }
        },
    }
}

fn trim_exec(s: &Vec<char>) -> (r: Vec<char>)
    ensures
        r@ == trim(s@),
{
    let b = run_end_exec(s, 0, CharClass::Space);
    let mut e = s.len();
    while e > b && in_class_exec(CharClass::Space, s[e - 1])
        invariant
            b <= e <= s.len(),
            trim_end_from(s@, b as int, e as int) == trim_end_from(s@, b as int, s.len() as int),
        decreases e - b,
    {
        e -= 1;
    }
    subrange_exec(s, b, e)
}

fn before_exec(s: &Vec<char>, c: char) -> (r: Vec<char>)
    ensures
        r@ == before(s@, c),
{
    let pat: Vec<char> = vec![c];
    proof {
        assert(pat@ =~= seq![c]);
    }
    match find_from_exec(s, &pat, 0) {
        Some(i) => subrange_exec(s, 0, i),
        None => s.clone(),
    }
}

fn after_exec(s: &Vec<char>, c: char) -> (r: Option<Vec<char>>)
    ensures
        match after(s@, c) {
            Some(a) => r is Some && r->0@ == a,
            None => r is None,
        },
{
    let pat: Vec<char> = vec![c];
    proof {
        assert(pat@ =~= seq![c]);
    }
    match find_from_exec(s, &pat, 0) {
        Some(i) => Some(subrange_exec(s, i + 1, s.len())),
        None => None,
    }
}

/// The repository of a remote URL such as `git@github.com:raine/tgreddit.git`.
pub fn parse_repository(url: &str) -> (r: Result<Repository, InvalidRemoteUrl>)
    ensures
        match parse_remote(url@) {
            Some(p) => r is Ok && r->Ok_0.owner@ == p.0 && r->Ok_0.name@ == p.1
                && r->Ok_0.hostname@ == p.2,
            None => r is Err && r->Err_0.url@ == url@,
        },
{
    let t = trim_exec(&chars_of(url));
    let invalid = InvalidRemoteUrl { url: url.to_owned() };
    let host = before_exec(&t, ':');
    let r1 = match after_exec(&t, ':') {
        Some(r1) => r1,
        None => {
            return Err(invalid);
        },
    };
    let seg = before_exec(&r1, ':');
    let owner = before_exec(&seg, '/');
    let r2 = match after_exec(&seg, '/') {
        Some(r2) => r2,
        None => {
            return Err(invalid);
        },
    };
    let full = before_exec(&r2, '/');
    let n = full.len();
    if !(n >= 4 && full[n - 4] == '.' && full[n - 3] == 'g' && full[n - 2] == 'i' && full[n - 1]
        == 't') {
        proof {
            if n >= 4 && full@.subrange(n - 4, n as int) == dot_git() {
                assert(full@.subrange(n - 4, n as int)[0] == '.');
                assert(full@.subrange(n - 4, n as int)[1] == 'g');
                assert(full@.subrange(n - 4, n as int)[2] == 'i');
                assert(full@.subrange(n - 4, n as int)[3] == 't');
            }
        }
        return Err(invalid);
    }
    proof {
        assert(full@.subrange(n - 4, n as int) =~= dot_git());
    }
    let h = match after_exec(&host, '@') {
        Some(h) => h,
        None => {
            return Err(invalid);
        },
    };
    let name = subrange_exec(&full, 0, n - 4);
    let hostname = before_exec(&h, '@');
    Ok(Repository { owner: string_of(&owner), name: string_of(&name), hostname: string_of(&hostname) })
}

} // verus!
