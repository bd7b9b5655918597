//! What a run is configured with: the remote service, the projects to read,
//! the display names of projects and accounts, and the concurrency budget.

use vstd::prelude::*;
use crate::str_map::StrMap;
use crate::text::{decimal, decimal_string, parse_number, parsed_number};

verus! {

/// Number of page fetches that may be in flight at once, where nothing else
/// is configured.
pub const DEFAULT_CONCURRENT: usize = 32;

/// Identifier of a remote project.
#[derive(Clone, Copy, Debug, PartialEq, Eq, Structural)]
pub struct ProjectId(pub u32);

/// An account name as commits carry it.
#[derive(Clone, Debug)]
pub struct Author(pub String);

/// Where the remote service is and the credential to present to it.
#[derive(Clone, Debug)]
pub struct Gitlab {
    pub addr: String,
    pub token: String,
}

/// What a run is configured with.
#[derive(Clone, Debug)]
pub struct Config {
    /// Worker threads that drive the run.
    pub threads: usize,
    /// Page fetches that may be in flight at once, over all projects.
    pub concurrent: usize,
    /// Path of the database file.
    pub sqlite: String,
    pub gitlab: Gitlab,
    /// Display name by account.
    pub account: StrMap<String>,
    /// Display name by project identifier in decimal notation.
    pub project: StrMap<String>,
}

impl Config {
    /// Both tables of display names are well-formed.
    pub open spec fn wf(&self) -> bool {
        self.account.wf() && self.project.wf()
    }
}

/// The projects that `keys` name: each key is a project identifier in
/// decimal notation. `None` where a key is no such number.
pub open spec fn spec_project_ids(keys: Seq<Seq<char>>) -> Option<Seq<ProjectId>>
    decreases keys.len(),
{
    if keys.len() == 0 {
        Some(Seq::empty())
    } else {
        match (spec_project_ids(keys.drop_last()), parsed_number(keys.last(), u32::MAX)) {
            (Some(ids), Some(id)) => Some(ids.push(ProjectId(id))),
            _ => None,
        }
    }
}

impl Config {
    /// The configured projects, in ascending order of their keys. `None`
    /// where a key is no project identifier.
    pub fn project_ids(&self) -> (ids: Option<Vec<ProjectId>>)
        requires
            self.wf(),
        ensures
            ids is Some <==> spec_project_ids(self.project.keys()) is Some,
            ids matches Some(v) ==> Some(v@) == spec_project_ids(self.project.keys()),
    {
        let ghost keys = self.project.keys();
        let mut ids: Vec<ProjectId> = Vec::new();
        let n = self.project.len();
        let mut i: usize = 0;
        assert(keys.take(0) =~= Seq::empty());
        while i < n
            invariant
                i <= n,
                n == keys.len(),
                keys == self.project.keys(),
                spec_project_ids(keys.take(i as int)) == Some(ids@),
            decreases n - i,
        {
            proof {
                assert(keys.take(i + 1).drop_last() =~= keys.take(i as int));
                assert(keys.take(i + 1).last() == keys[i as int]);
            }
            match parse_number(self.project.key_at(i).as_str(), u32::MAX) {
                Some(id) => {
                    ids.push(ProjectId(id));
                },
                None => {
                    proof {
                        lemma_project_ids_fail(keys, i + 1);
                    }
                    return None;
                },
            }
            i += 1;
        }
        assert(keys.take(n as int) =~= keys);
        Some(ids)
    }
}

/// Once a key is no project identifier, the keys name no projects.
proof fn lemma_project_ids_fail(keys: Seq<Seq<char>>, n: int)
    requires
        0 <= n <= keys.len(),
        spec_project_ids(keys.take(n)) is None,
    ensures
        spec_project_ids(keys) is None,
    decreases keys.len() - n,
{
    if n == keys.len() {
        assert(keys.take(n) =~= keys);
    } else {
        assert(keys.take(n + 1).drop_last() =~= keys.take(n));
        lemma_project_ids_fail(keys, n + 1);
    }
}

impl ProjectId {
    /// The configured name of the project, or its identifier in decimal
    /// notation where none is configured.
    pub open spec fn spec_display_name(self, config: &Config) -> Seq<char> {
        let id = decimal(self.0 as nat);
        if config.project@.contains_key(id) {
            config.project@[id]@
        } else {
            id
        }
    }

    /// The configured name of the project, or its identifier in decimal
    /// notation where none is configured.
    pub fn display_name(&self, config: &Config) -> (name: String)
        requires
            config.wf(),
        ensures
            name@ == self.spec_display_name(config),
    {
        let id = decimal_string(self.0 as u64);
        match config.project.get(id.as_str()) {
            Some(name) => name.clone(),
            None => id,
        }
    }
}

impl Author {
    /// The configured display name of the account, or the account itself
    /// where none is configured.
    pub open spec fn spec_display_name(&self, config: &Config) -> Seq<char> {
        if config.account@.contains_key(self.0@) {
            config.account@[self.0@]@
        } else {
            self.0@
        }
    }

    /// The configured display name of the account, or the account itself
    /// where none is configured.
    pub fn display_name(&self, config: &Config) -> (name: String)
        requires
            config.wf(),
        ensures
            name@ == self.spec_display_name(config),
    {
        match config.account.get(self.0.as_str()) {
            Some(name) => name.clone(),
            None => self.0.clone(),
        }
    }
}

/// The configuration that a first run starts from: one sample account, one
/// sample project, and `threads` worker threads.
pub fn default_config(threads: usize) -> (c: Config)
    ensures
        c.wf(),
        c.threads == threads,
        c.concurrent == DEFAULT_CONCURRENT,
        c.sqlite@ == "gitlab.db"@,
        c.gitlab.addr@ == "http://devgit.z-bank.com/"@,
        c.gitlab.token@ == ""@,
        c.account@.dom() == set!["zs"@],
        c.account@["zs"@]@ == "张三"@,
        c.project@.dom() == set!["705"@],
        c.project@["705"@]@ == "综合理财"@,
{
    let mut account: StrMap<String> = StrMap::new();
    account.insert("zs".to_owned(), "张三".to_owned());
    let mut project: StrMap<String> = StrMap::new();
    project.insert("705".to_owned(), "综合理财".to_owned());
    assert(account@.dom() =~= set!["zs"@]);
    assert(project@.dom() =~= set!["705"@]);
    Config {
        threads,
        concurrent: DEFAULT_CONCURRENT,
        sqlite: "gitlab.db".to_owned(),
        gitlab: Gitlab { addr: "http://devgit.z-bank.com/".to_owned(), token: "".to_owned() },
        account,
        project,
    }
}

/// The number of processors that this process may use, as `num_cpus::get`
/// reports it: at least one. The number depends on the machine and on what
/// the operating system grants, so nothing else is known of it.
#[verifier::external_body]
fn cpu_count() -> (n: usize)
    ensures
        n >= 1,
{
    num_cpus::get()
}

/// The configuration that a first run starts from on this machine: the
/// default one, with as many worker threads as there are processors.
pub fn initial_config() -> (c: Config)
    ensures
        c.wf(),
        c.threads >= 1,
        c.concurrent == DEFAULT_CONCURRENT,
        c.sqlite@ == "gitlab.db"@,
        c.gitlab.addr@ == "http://devgit.z-bank.com/"@,
        c.gitlab.token@ == ""@,
        c.account@.dom() == set!["zs"@],
        c.account@["zs"@]@ == "张三"@,
        c.project@.dom() == set!["705"@],
        c.project@["705"@]@ == "综合理财"@,
{
    default_config(cpu_count())
}

} // verus!
