//! Configuration values: the tools a repository names for each command, the job patterns of
//! those commands, and the hosts of the `gh` configuration.
use vstd::prelude::*;

use crate::aggregate::CommandType;
use crate::checks::JobPattern;
use crate::text::chars_of;

verus! {

/// The code of the character, an ASCII capital taken as its small letter.
pub open spec fn ascii_lower(c: char) -> int {
    if 'A' <= c && c <= 'Z' {
        (c as int) + 32
    } else {
        c as int
    }
}

/// The two texts are equal when ASCII letters are compared without case.
pub open spec fn eq_ignore_ascii_case(a: Seq<char>, b: Seq<char>) -> bool {
    a.len() == b.len() && forall|i: int| 0 <= i < a.len() ==> ascii_lower(#[trigger] a[i]) == ascii_lower(b[i])
}

fn ascii_lower_exec(c: char) -> (r: u32)
    ensures
        r as int == ascii_lower(c),
{
    if 'A' <= c && c <= 'Z' {
        (c as u32) + 32
    } else {
        c as u32
    }
}

pub fn eq_ignore_ascii_case_exec(a: &str, b: &str) -> (r: bool)
    ensures
        r == eq_ignore_ascii_case(a@, b@),
{
    let x = chars_of(a);
    let y = chars_of(b);
    if x.len() != y.len() {
        return false;
    }
    let mut i: usize = 0;
    while i < x.len()
        invariant
            i <= x.len() == y.len(),
            x@ == a@,
            y@ == b@,
            forall|k: int| 0 <= k < i ==> ascii_lower(#[trigger] x@[k]) == ascii_lower(y@[k]),
        decreases x.len() - i,
    {
        if ascii_lower_exec(x[i]) != ascii_lower_exec(y[i]) {
            return false;
        }
        i += 1;
    }
    true
}

/// The test runners the parsers read.
#[derive(Debug, Clone, Copy, PartialEq, Eq, Structural)]
pub enum TestRunner {
    Jest,
}

/// The linters the parsers read.
#[derive(Debug, Clone, Copy, PartialEq, Eq, Structural)]
pub enum LintTool {
    Eslint,
}

/// The type checkers the parsers read.
#[derive(Debug, Clone, Copy, PartialEq, Eq, Structural)]
pub enum TypecheckTool {
    Tsc,
}

impl TestRunner {
    /// The runner a configuration names, in any case of ASCII letters.
    pub fn from_name(name: &str) -> (r: Option<TestRunner>)
        ensures
            r is Some <==> eq_ignore_ascii_case(name@, "jest"@),
    {
        if eq_ignore_ascii_case_exec(name, "jest") {
            Some(TestRunner::Jest)
        } else {
            None
        }
    }
}

impl LintTool {
    /// The linter a configuration names, in any case of ASCII letters.
    pub fn from_name(name: &str) -> (r: Option<LintTool>)
        ensures
            r is Some <==> eq_ignore_ascii_case(name@, "eslint"@),
    {
        if eq_ignore_ascii_case_exec(name, "eslint") {
            Some(LintTool::Eslint)
        } else {
            None
        }
    }
}

impl TypecheckTool {
    /// The type checker a configuration names, in any case of ASCII letters.
    pub fn from_name(name: &str) -> (r: Option<TypecheckTool>)
        ensures
            r is Some <==> eq_ignore_ascii_case(name@, "tsc"@),
    {
        if eq_ignore_ascii_case_exec(name, "tsc") {
            Some(TypecheckTool::Tsc)
        } else {
            None
        }
    }
}

/// The job patterns a repository's configuration gives, one per command it configures.
pub struct RepoConfig {
    pub test: Option<JobPattern>,
    pub lint: Option<JobPattern>,
    pub build: Option<JobPattern>,
    pub typecheck: Option<JobPattern>,
}

/// The configuration has no section for the command.
#[derive(Debug, Clone, Copy, PartialEq, Eq, Structural)]
pub struct MissingSection {
    pub command: CommandType,
}

pub open spec fn section_of(c: RepoConfig, command: CommandType) -> Option<JobPattern> {
    match command {
        CommandType::Test => c.test,
        CommandType::Lint => c.lint,
        CommandType::Build => c.build,
        CommandType::Typecheck => c.typecheck,
    }
}

impl RepoConfig {
    /// The job pattern of the command, or which section is missing.
    pub fn job_pattern(&self, command: CommandType) -> (r: Result<&JobPattern, MissingSection>)
        ensures
            match section_of(*self, command) {
                Some(p) => r == Ok::<&JobPattern, MissingSection>(&p),
                None => r == Err::<&JobPattern, MissingSection>(MissingSection { command }),
            },
    {
        let section = match command {
            CommandType::Test => &self.test,
            CommandType::Lint => &self.lint,
            CommandType::Build => &self.build,
            CommandType::Typecheck => &self.typecheck,
        };
        match section {
            Some(p) => Ok(p),
            None => Err(MissingSection { command }),
        }
    }
}

/// One host's entry of the `gh` configuration.
#[derive(Debug, Clone, PartialEq, Eq)]
pub struct SiteConfig {
    pub user: String,
    pub oauth_token: String,
    pub git_protocol: String,
}

/// The `gh` configuration: an entry per host name.
pub struct GhConfig {
    config: Vec<(String, SiteConfig)>,
}

/// No entry for the host.
#[derive(Debug, Clone, PartialEq, Eq)]
pub struct UnknownHost {
    pub hostname: String,
}

impl GhConfig {
    /// A configuration of these entries, in this order.
    pub fn from_hosts(config: Vec<(String, SiteConfig)>) -> (r: GhConfig)
        ensures
            r.hosts() == config@,
    {
        GhConfig { config }
    }

    pub closed spec fn hosts(&self) -> Seq<(String, SiteConfig)> {
        self.config@
    }

    /// The entry for `hostname`: the first one, if there are several.
    pub fn get_site_config(&self, hostname: &str) -> (r: Result<&SiteConfig, UnknownHost>)
        ensures
            r is Ok <==> exists|i: int| 0 <= i < self.hosts().len() && #[trigger] self.hosts()[i].0@ == hostname@,
            r is Ok ==> exists|i: int|
                0 <= i < self.hosts().len() && self.hosts()[i].0@ == hostname@ && r->Ok_0 == &self.hosts()[i].1 && forall|j: int|
                    0 <= j < i ==> (#[trigger] self.hosts()[j]).0@ != hostname@,
            r is Err ==> r->Err_0.hostname@ == hostname@,
    {
        let key = hostname.to_owned();
        let mut i: usize = 0;
        while i < self.config.len()
            invariant
                key@ == hostname@,
                i <= self.config.len(),
                forall|j: int| 0 <= j < i ==> (#[trigger] self.config@[j]).0@ != hostname@,
            decreases self.config.len() - i,
        {
            if self.config[i].0 == key {
                proof {
                    assert(self.hosts()[i as int].0@ == hostname@);
                }
                return Ok(&self.config[i].1);
            }
            i += 1;
        }
        Err(UnknownHost { hostname: key })
    }
}

} // verus!
