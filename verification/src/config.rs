//! Project and configuration logic: the declared projects with their globs,
//! environment allow-lists and dependency links, the filtering of an
//! environment snapshot through a project's allow-list, the union of input
//! globs across the dependency graph, and the settings read from the process
//! environment.

use vstd::prelude::*;

use crate::bytes::{bytes_eq, clone_bytes, views};
use crate::fingerprint::EnvEntry;
use crate::folder::{spec_join_path, join_path, SLASH};

verus! {

/// A project identifier (its declared name).
pub struct ProjectId(pub Vec<u8>);

/// One declared project: where it lives, which environment variables its
/// commands may observe, which files it reads and writes, and which projects
/// it depends on.
pub struct Project {
    pub root: Vec<u8>,
    pub envs: Vec<Vec<u8>>,
    pub inputs: Vec<Vec<u8>>,
    pub outputs: Vec<Vec<u8>>,
    pub name: Vec<u8>,
    pub depends_on: Vec<Vec<u8>>,
}

/// Which shell runs a missed command.
#[derive(Debug, Clone, Copy, PartialEq, Eq, Structural)]
pub enum ExecutionEnvironment {
    BASH,
    SHELL,
}

/// `bash`
pub open spec fn spec_bash_name() -> Seq<u8> {
    seq![98u8, 97u8, 115u8, 104u8]
}

/// `shell`
pub open spec fn spec_shell_name() -> Seq<u8> {
    seq![115u8, 104u8, 101u8, 108u8, 108u8]
}

impl ExecutionEnvironment {
    /// The shell command this environment names.
    pub fn shell_name(&self) -> (r: Vec<u8>)
        ensures
            *self == ExecutionEnvironment::BASH ==> r@ == spec_bash_name(),
            *self == ExecutionEnvironment::SHELL ==> r@ == spec_shell_name(),
    {
        match self {
            ExecutionEnvironment::BASH => {
                let v: Vec<u8> = vec![98u8, 97u8, 115u8, 104u8];
                proof {
                    assert(v@ =~= spec_bash_name());
                }
                v
            },
            ExecutionEnvironment::SHELL => {
                let v: Vec<u8> = vec![115u8, 104u8, 101u8, 108u8, 108u8];
                proof {
                    assert(v@ =~= spec_shell_name());
                }
                v
            },
        }
    }
}

/// The loaded configuration: shell, declared projects, cache directory and a
/// declared (not yet enforced) time-to-live.
pub struct Config {
    pub exec_env: ExecutionEnvironment,
    pub projects: Vec<Project>,
    pub cache_dir: Vec<u8>,
    pub ttl: u64,
}

/// `.cache`
pub open spec fn spec_default_cache_dir() -> Seq<u8> {
    seq![46u8, 99u8, 97u8, 99u8, 104u8, 101u8]
}

impl Default for Config {
    /// The configuration in force when no file declares one: bash, no
    /// projects, `.cache` beside the working directory, a week of ttl.
    fn default() -> (r: Self)
        ensures
            r.exec_env == ExecutionEnvironment::BASH,
            r.projects@.len() == 0,
            r.cache_dir@ == spec_default_cache_dir(),
            r.ttl == 7,
    {
        let cache_dir: Vec<u8> = vec![46u8, 99u8, 97u8, 99u8, 104u8, 101u8];
        proof {
            assert(cache_dir@ =~= spec_default_cache_dir());
        }
        Config { exec_env: ExecutionEnvironment::BASH, projects: Vec::new(), cache_dir, ttl: 7 }
    }
}

/// The settings read from the process environment.
pub struct EnvConfig {
    pub config_file_name: Vec<u8>,
    pub cache_dir: Option<Vec<u8>>,
    pub read_only: bool,
}

/// The command-line surface: the command to run, an optional configuration
/// file, verbosity, cache clearing, and an optional project override.
pub struct CommandLineArgs {
    pub command: Vec<Vec<u8>>,
    pub config: Option<Vec<u8>>,
    pub verbose: bool,
    pub clear: bool,
    pub project: Option<Vec<u8>>,
}

/// The first value stored under `name`, if any.
pub open spec fn spec_env_lookup(env: Seq<(Seq<u8>, Seq<u8>)>, name: Seq<u8>) -> Option<Seq<u8>>
    decreases env.len(),
{
    if env.len() == 0 {
        None
    } else if env[0].0 == name {
        Some(env[0].1)
    } else {
        spec_env_lookup(env.drop_first(), name)
    }
}

/// Looking a name up after an unmatched prefix looks it up in the rest.
proof fn lemma_env_lookup_skip(env: Seq<(Seq<u8>, Seq<u8>)>, name: Seq<u8>, i: int)
    requires
        0 <= i <= env.len(),
        forall|k: int| 0 <= k < i ==> (#[trigger] env[k]).0 != name,
    ensures
        spec_env_lookup(env, name) == spec_env_lookup(env.skip(i), name),
    decreases i,
{
    if i == 0 {
        assert(env.skip(0) =~= env);
    } else {
        assert(env[0].0 != name);
        lemma_env_lookup_skip(env.drop_first(), name, i - 1);
        assert(env.drop_first().skip(i - 1) =~= env.skip(i));
        assert(forall|k: int| 0 <= k < i - 1 ==> (#[trigger] env.drop_first()[k]) == env[k + 1]);
    }
}

/// The mathematical value of an environment snapshot (shared with the
/// fingerprint engine).
pub open spec fn env_pairs(env: Seq<EnvEntry>) -> Seq<(Seq<u8>, Seq<u8>)> {
    crate::fingerprint::env_view(env)
}

/// Look a name up in an environment snapshot.
pub fn env_lookup(env: &Vec<EnvEntry>, name: &Vec<u8>) -> (r: Option<Vec<u8>>)
    ensures
        r is Some <==> spec_env_lookup(env_pairs(env@), name@) is Some,
        r is Some ==> r->0@ == spec_env_lookup(env_pairs(env@), name@)->0,
{
    let mut i: usize = 0;
    while i < env.len()
        invariant
            i <= env@.len(),
            forall|k: int| 0 <= k < i ==> (#[trigger] env_pairs(env@)[k]).0 != name@,
        decreases env@.len() - i,
    {
        if bytes_eq(&env[i].name, name) {
            proof {
                lemma_env_lookup_skip(env_pairs(env@), name@, i as int);
                assert(env_pairs(env@).skip(i as int)[0] == env_pairs(env@)[i as int]);
                assert(env_pairs(env@)[i as int] == (env@[i as int].name@, env@[i as int].value@));
            }
            return Some(clone_bytes(&env[i].value));
        }
        proof {
            assert(env_pairs(env@)[i as int] == (env@[i as int].name@, env@[i as int].value@));
        }
        i = i + 1;
    }
    proof {
        lemma_env_lookup_skip(env_pairs(env@), name@, i as int);
        assert(env_pairs(env@).skip(i as int) =~= Seq::<(Seq<u8>, Seq<u8>)>::empty());
    }
    None
}

/// `CACHE_CONFIG_FILE`
pub open spec fn spec_var_config_file() -> Seq<u8> {
    seq![67u8, 65u8, 67u8, 72u8, 69u8, 95u8, 67u8, 79u8, 78u8, 70u8, 73u8, 71u8, 95u8, 70u8, 73u8, 76u8, 69u8]
}

/// `CACHE_DIR`
pub open spec fn spec_var_cache_dir() -> Seq<u8> {
    seq![67u8, 65u8, 67u8, 72u8, 69u8, 95u8, 68u8, 73u8, 82u8]
}

/// `CACHE_RO`
pub open spec fn spec_var_read_only() -> Seq<u8> {
    seq![67u8, 65u8, 67u8, 72u8, 69u8, 95u8, 82u8, 79u8]
}

/// `cache.yml`
pub open spec fn spec_default_config_file() -> Seq<u8> {
    seq![99u8, 97u8, 99u8, 104u8, 101u8, 46u8, 121u8, 109u8, 108u8]
}

/// `true`
pub open spec fn spec_true_value() -> Seq<u8> {
    seq![116u8, 114u8, 117u8, 101u8]
}

/// The settings an environment snapshot declares: the configuration file name
/// (`CACHE_CONFIG_FILE`, default `cache.yml`), the cache directory override
/// (`CACHE_DIR`), and read-only mode (`CACHE_RO` equal to `true`).
pub fn parse_env(env: &Vec<EnvEntry>) -> (r: EnvConfig)
    ensures
        ({
            let pairs = env_pairs(env@);
            &&& (match spec_env_lookup(pairs, spec_var_config_file()) {
                Some(v) => r.config_file_name@ == v,
                None => r.config_file_name@ == spec_default_config_file(),
            })
            &&& (r.cache_dir is Some <==> spec_env_lookup(pairs, spec_var_cache_dir()) is Some)
            &&& (r.cache_dir is Some ==> r.cache_dir->0@ == spec_env_lookup(
                pairs,
                spec_var_cache_dir(),
            )->0)
            &&& r.read_only == (spec_env_lookup(pairs, spec_var_read_only()) matches Some(v) && v
                == spec_true_value())
        }),
{
    let config_var: Vec<u8> = vec![67u8, 65u8, 67u8, 72u8, 69u8, 95u8, 67u8, 79u8, 78u8, 70u8, 73u8, 71u8, 95u8, 70u8, 73u8, 76u8, 69u8];
    let dir_var: Vec<u8> = vec![67u8, 65u8, 67u8, 72u8, 69u8, 95u8, 68u8, 73u8, 82u8];
    let ro_var: Vec<u8> = vec![67u8, 65u8, 67u8, 72u8, 69u8, 95u8, 82u8, 79u8];
    proof {
        assert(config_var@ =~= spec_var_config_file());
        assert(dir_var@ =~= spec_var_cache_dir());
        assert(ro_var@ =~= spec_var_read_only());
    }
    let config_file_name = match env_lookup(env, &config_var) {
        Some(v) => v,
        None => {
            let d: Vec<u8> = vec![99u8, 97u8, 99u8, 104u8, 101u8, 46u8, 121u8, 109u8, 108u8];
            proof {
                assert(d@ =~= spec_default_config_file());
            }
            d
        },
    };
    let cache_dir = env_lookup(env, &dir_var);
    let read_only = match env_lookup(env, &ro_var) {
        Some(v) => {
            let t: Vec<u8> = vec![116u8, 114u8, 117u8, 101u8];
            proof {
                assert(t@ =~= spec_true_value());
            }
            bytes_eq(&v, &t)
        },
        None => false,
    };
    EnvConfig { config_file_name, cache_dir, read_only }
}

/// The entries of an environment snapshot whose names stand in the allow
/// list, in snapshot order.
pub open spec fn spec_filter_env(
    env: Seq<(Seq<u8>, Seq<u8>)>,
    allow: Seq<Seq<u8>>,
) -> Seq<(Seq<u8>, Seq<u8>)>
    decreases env.len(),
{
    if env.len() == 0 {
        Seq::empty()
    } else {
        let rest = spec_filter_env(env.drop_last(), allow);
        if allow.contains(env.last().0) {
            rest.push(env.last())
        } else {
            rest
        }
    }
}

/// Whether a list holds a byte string.
pub fn list_contains(list: &Vec<Vec<u8>>, x: &Vec<u8>) -> (r: bool)
    ensures
        r == views(list@).contains(x@),
{
    let mut i: usize = 0;
    while i < list.len()
        invariant
            i <= list@.len(),
            forall|k: int| 0 <= k < i ==> (#[trigger] list@[k])@ != x@,
        decreases list@.len() - i,
    {
        if bytes_eq(&list[i], x) {
            proof {
                assert(views(list@)[i as int] == x@);
            }
            return true;
        }
        i = i + 1;
    }
    proof {
        if views(list@).contains(x@) {
            let k = choose|k: int| 0 <= k < views(list@).len() && views(list@)[k] == x@;
            assert(list@[k]@ == x@);
        }
    }
    false
}

/// Filter an environment snapshot through an allow-list: exactly the entries
/// whose names the list holds survive, in snapshot order, so a snapshot that
/// arrives sorted by name stays sorted.
pub fn filter_env_vars(env: &Vec<EnvEntry>, allow: &Vec<Vec<u8>>) -> (r: Vec<EnvEntry>)
    ensures
        env_pairs(r@) == spec_filter_env(env_pairs(env@), views(allow@)),
{
    let mut out: Vec<EnvEntry> = Vec::new();
    let mut i: usize = 0;
    proof {
        assert(env_pairs(out@) =~= spec_filter_env(env_pairs(env@).take(0), views(allow@)));
    }
    while i < env.len()
        invariant
            i <= env@.len(),
            env_pairs(out@) == spec_filter_env(env_pairs(env@).take(i as int), views(allow@)),
        decreases env@.len() - i,
    {
        proof {
            assert(env_pairs(env@)[i as int] == (env@[i as int].name@, env@[i as int].value@));
            assert(env_pairs(env@).take(i + 1 as int).drop_last() =~= env_pairs(env@).take(
                i as int,
            ));
            assert(env_pairs(env@).take(i + 1 as int).last() == env_pairs(env@)[i as int]);
        }
        if list_contains(allow, &env[i].name) {
            let entry = EnvEntry {
                name: clone_bytes(&env[i].name),
                value: clone_bytes(&env[i].value),
            };
            out.push(entry);
            proof {
                assert(env_pairs(out@) =~= spec_filter_env(
                    env_pairs(env@).take(i + 1 as int),
                    views(allow@),
                ));
            }
        } else {
            proof {
                assert(env_pairs(out@) =~= spec_filter_env(
                    env_pairs(env@).take(i + 1 as int),
                    views(allow@),
                ));
            }
        }
        i = i + 1;
    }
    proof {
        assert(env_pairs(env@).take(env_pairs(env@).len() as int) =~= env_pairs(env@));
    }
    out
}

/// Entries outside the allow-list do not reach the filtered snapshot: giving
/// such an entry another value leaves the filter's result unchanged, and with
/// it the fingerprint.
pub proof fn lemma_filter_env_ignores_unlisted(
    env: Seq<(Seq<u8>, Seq<u8>)>,
    i: int,
    v: Seq<u8>,
    allow: Seq<Seq<u8>>,
)
    requires
        0 <= i < env.len(),
        !allow.contains(env[i].0),
    ensures
        spec_filter_env(env.update(i, (env[i].0, v)), allow) == spec_filter_env(env, allow),
    decreases env.len(),
{
    let changed = env.update(i, (env[i].0, v));
    if i == env.len() - 1 {
        assert(changed.drop_last() =~= env.drop_last());
        assert(changed.last() == (env[i].0, v));
        assert(!allow.contains(changed.last().0));
        assert(!allow.contains(env.last().0));
    } else {
        assert(changed.drop_last() =~= env.drop_last().update(i, (env[i].0, v)));
        assert(env.drop_last()[i] == env[i]);
        lemma_filter_env_ignores_unlisted(env.drop_last(), i, v, allow);
        assert(changed.last() == env.last());
    }
}

/// Whether `child` lies at or below `parent`, both canonical paths, compared
/// by whole components.
pub open spec fn spec_is_contained(parent: Seq<u8>, child: Seq<u8>) -> bool {
    ||| parent == child
    ||| (child.len() > parent.len() && child.take(parent.len() as int) == parent && (
    child[parent.len() as int] == SLASH || (parent.len() > 0 && parent[parent.len() - 1]
        == SLASH)))
}

/// Checks if `child` is contained within `parent`: both paths already
/// canonical, the child is the parent itself or lies below it.
pub fn is_contained(parent: &Vec<u8>, child: &Vec<u8>) -> (r: bool)
    ensures
        r == spec_is_contained(parent@, child@),
{
    let np = parent.len();
    let nc = child.len();
    if nc < np {
        proof {
            assert(!spec_is_contained(parent@, child@)) by {
                if parent@ == child@ {
                    assert(parent@.len() == child@.len());
                }
            }
        }
        return false;
    }
    let mut i: usize = 0;
    while i < np
        invariant
            np == parent@.len(),
            nc == child@.len(),
            np <= nc,
            i <= np,
            forall|k: int| 0 <= k < i ==> parent@[k] == child@[k],
        decreases np - i,
    {
        if parent[i] != child[i] {
            proof {
                assert(!spec_is_contained(parent@, child@)) by {
                    if parent@ == child@ {
                        assert(parent@[i as int] == child@[i as int]);
                    }
                    if child@.take(np as int) == parent@ {
                        assert(child@.take(np as int)[i as int] == child@[i as int]);
                    }
                }
            }
            return false;
        }
        i = i + 1;
    }
    proof {
        if np == nc {
            assert(parent@ =~= child@);
        } else {
            assert(child@.take(np as int) =~= parent@);
        }
    }
    if np == nc {
        true
    } else {
        if child[np] == SLASH {
            true
        } else if np > 0 && parent[np - 1] == SLASH {
            true
        } else {
            proof {
                assert(!spec_is_contained(parent@, child@)) by {
                    if parent@ == child@ {
                        assert(parent@.len() == child@.len());
                    }
                }
            }
            false
        }
    }
}

/// One dependency link: project `j` names project `k` among its dependencies.
pub open spec fn spec_depends_edge(projects: Seq<Project>, j: int, k: int) -> bool {
    &&& 0 <= j < projects.len()
    &&& 0 <= k < projects.len()
    &&& exists|d: int|
        0 <= d < projects[j].depends_on@.len() && (#[trigger] projects[j].depends_on@[d])@
            == projects[k].name@
}

/// Project `to` lies within `fuel` dependency links of project `from`.
pub open spec fn spec_reachable_n(projects: Seq<Project>, from: int, to: int, fuel: nat) -> bool
    decreases fuel,
{
    if from == to {
        true
    } else if fuel == 0 {
        false
    } else {
        exists|mid: int|
            spec_reachable_n(projects, from, mid, (fuel - 1) as nat) && spec_depends_edge(
                projects,
                mid,
                to,
            )
    }
}

/// Project `to` is `from` itself or one of its transitive dependencies.
pub open spec fn spec_reachable(projects: Seq<Project>, from: int, to: int) -> bool {
    exists|fuel: nat| spec_reachable_n(projects, from, to, fuel)
}

/// Whether a project transitively depended on by `from` lists `g` among its
/// input globs.
pub open spec fn spec_dependency_input(projects: Seq<Project>, from: int, g: Seq<u8>) -> bool {
    exists|p: int|
        0 <= p < projects.len() && spec_reachable(projects, from, p) && (#[trigger] views(
            projects[p].inputs@,
        )).contains(g)
}

impl Config {
    /// The index of the project with the given name, if one is declared;
    /// the first declaration wins.
    pub fn get_project(&self, id: &Vec<u8>) -> (r: Option<usize>)
        ensures
            r is Some ==> ({
                let j = r->0;
                &&& j < self.projects@.len()
                &&& self.projects@[j as int].name@ == id@
                &&& forall|k: int| 0 <= k < j ==> (#[trigger] self.projects@[k].name@) != id@
            }),
            r is None ==> forall|k: int|
                0 <= k < self.projects@.len() ==> (#[trigger] self.projects@[k].name@) != id@,
    {
        let mut j: usize = 0;
        while j < self.projects.len()
            invariant
                j <= self.projects@.len(),
                forall|k: int| 0 <= k < j ==> (#[trigger] self.projects@[k].name@) != id@,
            decreases self.projects@.len() - j,
        {
            if bytes_eq(&self.projects[j].name, id) {
                return Some(j);
            }
            j = j + 1;
        }
        None
    }

    /// The first declared project whose canonical root contains the working
    /// directory. The caller resolves each project's root against the
    /// configuration's own directory and canonicalizes; the roots arrive in
    /// declaration order.
    pub fn get_project_for_cwd(&self, canonical_roots: &Vec<Vec<u8>>, cwd: &Vec<u8>) -> (r: Option<
        usize,
    >)
        requires
            canonical_roots@.len() == self.projects@.len(),
        ensures
            r is Some ==> ({
                let j = r->0;
                &&& j < self.projects@.len()
                &&& spec_is_contained(canonical_roots@[j as int]@, cwd@)
                &&& forall|k: int|
                    0 <= k < j ==> !spec_is_contained((#[trigger] canonical_roots@[k])@, cwd@)
            }),
            r is None ==> forall|k: int|
                0 <= k < self.projects@.len() ==> !spec_is_contained(
                    (#[trigger] canonical_roots@[k])@,
                    cwd@,
                ),
    {
        let mut j: usize = 0;
        while j < self.projects.len()
            invariant
                canonical_roots@.len() == self.projects@.len(),
                j <= self.projects@.len(),
                forall|k: int|
                    0 <= k < j ==> !spec_is_contained((#[trigger] canonical_roots@[k])@, cwd@),
            decreases self.projects@.len() - j,
        {
            if is_contained(&canonical_roots[j], cwd) {
                return Some(j);
            }
            j = j + 1;
        }
        None
    }

    /// The union of input globs of the given project and of every project it
    /// transitively depends on, each project's inputs in declaration order,
    /// with consecutive duplicates collapsed. Every glob in the result is an
    /// input of the project itself or of a transitive dependency, and the
    /// project's own inputs are all present.
    pub fn get_all_depenend_file_globs(&self, project_idx: usize) -> (r: Vec<Vec<u8>>)
        requires
            project_idx < self.projects@.len(),
        ensures
            forall|k: int|
                0 <= k < r@.len() ==> spec_dependency_input(
                    self.projects@,
                    project_idx as int,
                    (#[trigger] r@[k])@,
                ),
            forall|g: Seq<u8>|
                views(self.projects@[project_idx as int].inputs@).contains(g) ==> views(
                    r@,
                ).contains(g),
    {
        let n = self.projects.len();
        let mut selected: Vec<bool> = Vec::new();
        let mut v0: usize = 0;
        while v0 < n
            invariant
                selected@.len() == v0,
                v0 <= n,
                forall|k: int| 0 <= k < v0 ==> !(#[trigger] selected@[k]),
            decreases n - v0,
        {
            selected.push(false);
            v0 = v0 + 1;
        }
        selected.set(project_idx, true);
        proof {
            assert(spec_reachable_n(self.projects@, project_idx as int, project_idx as int, 0));
            assert(spec_reachable(self.projects@, project_idx as int, project_idx as int));
        }

        // propagate selection along dependency links; after as many rounds as
        // there are projects the selection is closed for any acyclic graph
        let mut round: usize = 0;
        while round < n
            invariant
                n == self.projects@.len(),
                selected@.len() == n,
                project_idx < n,
                selected@[project_idx as int],
                forall|p: int|
                    0 <= p < n && (#[trigger] selected@[p]) ==> spec_reachable(
                        self.projects@,
                        project_idx as int,
                        p,
                    ),
            decreases n - round,
        {
            let mut j: usize = 0;
            while j < n
                invariant
                    n == self.projects@.len(),
                    selected@.len() == n,
                    project_idx < n,
                    selected@[project_idx as int],
                forall|p: int|
                    0 <= p < n && (#[trigger] selected@[p]) ==> spec_reachable(
                        self.projects@,
                        project_idx as int,
                        p,
                    ),
                    j <= n,
                decreases n - j,
            {
                if selected[j] {
                    let deps = self.projects[j].depends_on.len();
                    let mut d: usize = 0;
                    while d < deps
                        invariant
                            n == self.projects@.len(),
                            selected@.len() == n,
                            project_idx < n,
                            selected@[project_idx as int],
                            forall|p: int|
                                0 <= p < n && (#[trigger] selected@[p]) ==> spec_reachable(
                                    self.projects@,
                                    project_idx as int,
                                    p,
                                ),
                            j < n,
                            selected@[j as int],
                            deps == self.projects@[j as int].depends_on@.len(),
                            d <= deps,
                        decreases deps - d,
                    {
                        let dep_name = clone_bytes(&self.projects[j].depends_on[d]);
                        match self.get_project(&dep_name) {
                            Some(dep_idx) => {
                                proof {
                                    let projects = self.projects@;
                                    let from = project_idx as int;
                                    assert(spec_reachable(projects, from, j as int));
                                    let fuel = choose|fuel: nat|
                                        spec_reachable_n(projects, from, j as int, fuel);
                                    assert(spec_depends_edge(projects, j as int, dep_idx as int))
                                        by {
                                        assert((projects[j as int].depends_on@[d as int])@
                                            == projects[dep_idx as int].name@);
                                    }
                                    if dep_idx as int == from {
                                        assert(spec_reachable_n(projects, from, dep_idx as int, 0));
                                    } else {
                                        assert(spec_reachable_n(
                                            projects,
                                            from,
                                            dep_idx as int,
                                            fuel + 1,
                                        )) by {
                                            assert(spec_reachable_n(projects, from, j as int, fuel));
                                        }
                                    }
                                    assert(spec_reachable(projects, from, dep_idx as int));
                                }
                                selected.set(dep_idx, true);
                            },
                            None => {},
                        }
                        d = d + 1;
                    }
                }
                j = j + 1;
            }
            round = round + 1;
        }

        // gather the inputs of every selected project, in declaration order
        let mut inputs: Vec<Vec<u8>> = Vec::new();
        let mut j: usize = 0;
        while j < n
            invariant
                n == self.projects@.len(),
                selected@.len() == n,
                project_idx < n,
                selected@[project_idx as int],
                forall|p: int|
                    0 <= p < n && (#[trigger] selected@[p]) ==> spec_reachable(
                        self.projects@,
                        project_idx as int,
                        p,
                    ),
                j <= n,
                forall|k: int|
                    0 <= k < inputs@.len() ==> spec_dependency_input(
                        self.projects@,
                        project_idx as int,
                        (#[trigger] inputs@[k])@,
                    ),
                forall|p: int|
                    0 <= p < j && (#[trigger] selected@[p]) ==> forall|g: Seq<u8>|
                        views(self.projects@[p].inputs@).contains(g) ==> views(inputs@).contains(
                            g,
                        ),
            decreases n - j,
        {
            let ghost pre_inputs = inputs@;
            if selected[j] {
                let m = self.projects[j].inputs.len();
                let mut q: usize = 0;
                let ghost base_inputs = inputs@;
                while q < m
                    invariant
                        n == self.projects@.len(),
                        j < n,
                        m == self.projects@[j as int].inputs@.len(),
                        q <= m,
                        inputs@.len() >= base_inputs.len(),
                        forall|k: int|
                            0 <= k < base_inputs.len() ==> (#[trigger] inputs@[k])
                                == base_inputs[k],
                        forall|k: int|
                            base_inputs.len() <= k < inputs@.len() ==> views(
                                self.projects@[j as int].inputs@,
                            ).contains((#[trigger] inputs@[k])@),
                        forall|g: int|
                            0 <= g < q ==> views(inputs@).contains(
                                (#[trigger] self.projects@[j as int].inputs@[g])@,
                            ),
                    decreases m - q,
                {
                    let glob = clone_bytes(&self.projects[j].inputs[q]);
                    let ghost pre = inputs@;
                    inputs.push(glob);
                    proof {
                        assert(views(self.projects@[j as int].inputs@)[q as int]
                            == self.projects@[j as int].inputs@[q as int]@);
                        assert(inputs@[pre.len() as int]@ == self.projects@[j as int].inputs@[
                            q as int]@);
                        assert forall|g: int| 0 <= g < q + 1 implies views(inputs@).contains(
                            (#[trigger] self.projects@[j as int].inputs@[g])@,
                        ) by {
                            if g < q {
                                let w = choose|w: int|
                                    0 <= w < views(pre).len() && (#[trigger] views(pre)[w])
                                        == self.projects@[j as int].inputs@[g]@;
                                assert(views(inputs@)[w] == self.projects@[j as int].inputs@[g]@);
                            } else {
                                assert(views(inputs@)[pre.len() as int]
                                    == self.projects@[j as int].inputs@[g]@);
                            }
                        }
                    }
                    q = q + 1;
                }
            }
            proof {
                // everything gathered so far is still some project's input
                assert forall|k: int|
                    0 <= k < inputs@.len() implies spec_dependency_input(
                    self.projects@,
                    project_idx as int,
                    (#[trigger] inputs@[k])@,
                ) by {
                    if k < pre_inputs.len() {
                        assert(inputs@[k] == pre_inputs[k]);
                        assert(spec_dependency_input(
                            self.projects@,
                            project_idx as int,
                            pre_inputs[k]@,
                        ));
                    } else {
                        assert(views(self.projects@[j as int].inputs@).contains(inputs@[k]@));
                        assert(selected@[j as int]);
                        assert(spec_reachable(self.projects@, project_idx as int, j as int));
                        assert(spec_dependency_input(
                            self.projects@,
                            project_idx as int,
                            inputs@[k]@,
                        ));
                    }
                }
                // earlier projects' gathered inputs are still present: the
                // list only grew
                assert forall|p: int|
                    0 <= p < j + 1 && (#[trigger] selected@[p]) implies forall|g: Seq<u8>|
                    views(self.projects@[p].inputs@).contains(g) ==> views(inputs@).contains(
                        g,
                    ) by {
                    if p < j {
                        assert forall|g: Seq<u8>|
                            views(self.projects@[p].inputs@).contains(g) implies views(
                            inputs@,
                        ).contains(g) by {
                            assert(views(pre_inputs).contains(g));
                            let w = choose|w: int|
                                0 <= w < views(pre_inputs).len() && (#[trigger] views(
                                    pre_inputs,
                                )[w]) == g;
                            assert(pre_inputs[w]@ == g);
                            assert(inputs@[w] == pre_inputs[w]);
                            assert(views(inputs@)[w] == g);
                        }
                    } else {
                        if selected@[p] {
                            assert forall|g: Seq<u8>|
                                views(self.projects@[p].inputs@).contains(g) implies views(
                                inputs@,
                            ).contains(g) by {
                                let w = choose|w: int|
                                    0 <= w < views(self.projects@[p].inputs@).len() && (
                                    #[trigger] views(self.projects@[p].inputs@)[w]) == g;
                                assert(self.projects@[p].inputs@[w]@ == g);
                                assert(views(inputs@).contains(
                                    (self.projects@[p].inputs@[w])@,
                                ));
                            }
                        }
                    }
                }
            }
            j = j + 1;
        }
        let ghost gathered = inputs@;
        let result = dedup_consecutive(inputs);
        proof {
            assert forall|k: int|
                0 <= k < result@.len() implies spec_dependency_input(
                self.projects@,
                project_idx as int,
                (#[trigger] result@[k])@,
            ) by {
                assert(views(result@)[k] == result@[k]@);
                assert(views(result@).contains(result@[k]@));
                assert(views(gathered).contains(result@[k]@));
                let w = choose|w: int|
                    0 <= w < views(gathered).len() && views(gathered)[w] == result@[k]@;
                assert(gathered[w]@ == result@[k]@);
                assert(0 <= w < gathered.len());
                assert(spec_dependency_input(self.projects@, project_idx as int, gathered[w]@));
            }
            assert forall|g: Seq<u8>|
                views(self.projects@[project_idx as int].inputs@).contains(g) implies views(
                result@,
            ).contains(g) by {
                assert(views(gathered).contains(g));
            }
        }
        result
    }
}

/// A list with consecutive duplicates collapsed.
pub open spec fn spec_dedup_consecutive(s: Seq<Seq<u8>>) -> Seq<Seq<u8>>
    decreases s.len(),
{
    if s.len() == 0 {
        Seq::empty()
    } else {
        let rest = spec_dedup_consecutive(s.drop_last());
        if s.len() >= 2 && s[s.len() - 2] == s.last() {
            rest
        } else {
            rest.push(s.last())
        }
    }
}

/// Collapsing consecutive duplicates keeps exactly the elements of the list.
pub proof fn lemma_dedup_consecutive_contains(s: Seq<Seq<u8>>, x: Seq<u8>)
    ensures
        spec_dedup_consecutive(s).contains(x) <==> s.contains(x),
    decreases s.len(),
{
    if s.len() > 0 {
        lemma_dedup_consecutive_contains(s.drop_last(), x);
        let rest = spec_dedup_consecutive(s.drop_last());
        let full = spec_dedup_consecutive(s);
        if s.contains(x) {
            let i = choose|i: int| 0 <= i < s.len() && s[i] == x;
            if i < s.len() - 1 {
                assert(s.drop_last()[i] == x);
                assert(s.drop_last().contains(x));
                assert(rest.contains(x));
                if !(s.len() >= 2 && s[s.len() - 2] == s.last()) {
                    let j = choose|j: int| 0 <= j < rest.len() && rest[j] == x;
                    assert(full[j] == x);
                }
            } else {
                if s.len() >= 2 && s[s.len() - 2] == s.last() {
                    assert(s.drop_last()[s.len() - 2] == s.last());
                    assert(s.drop_last().contains(x));
                    assert(rest.contains(x));
                } else {
                    assert(full[full.len() - 1] == x);
                }
            }
        }
        if full.contains(x) {
            let j = choose|j: int| 0 <= j < full.len() && full[j] == x;
            if s.len() >= 2 && s[s.len() - 2] == s.last() {
                assert(rest.contains(x));
                let i = choose|i: int| 0 <= i < s.drop_last().len() && s.drop_last()[i] == x;
                assert(s[i] == x);
            } else {
                if j < rest.len() {
                    assert(rest[j] == x);
                    let i = choose|i: int| 0 <= i < s.drop_last().len() && s.drop_last()[i] == x;
                    assert(s[i] == x);
                } else {
                    assert(x == s.last());
                    assert(s[s.len() - 1] == x);
                }
            }
        }
    }
}

/// Collapse consecutive duplicate globs, keeping everything else in order.
pub fn dedup_consecutive(list: Vec<Vec<u8>>) -> (r: Vec<Vec<u8>>)
    ensures
        views(r@) == spec_dedup_consecutive(views(list@)),
        forall|g: Seq<u8>| views(r@).contains(g) <==> views(list@).contains(g),
{
    let mut out: Vec<Vec<u8>> = Vec::new();
    let mut i: usize = 0;
    proof {
        assert(views(out@) =~= spec_dedup_consecutive(views(list@).take(0)));
    }
    while i < list.len()
        invariant
            i <= list@.len(),
            views(out@) == spec_dedup_consecutive(views(list@).take(i as int)),
        decreases list@.len() - i,
    {
        proof {
            assert(views(list@).take(i + 1 as int).drop_last() =~= views(list@).take(i as int));
            assert(views(list@).take(i + 1 as int).last() == list@[i as int]@);
        }
        let keep = if i == 0 {
            true
        } else {
            !bytes_eq(&list[i - 1], &list[i])
        };
        if keep {
            let g = clone_bytes(&list[i]);
            out.push(g);
            proof {
                if i > 0 {
                    assert(views(list@).take(i + 1 as int)[i - 1 as int] == list@[i - 1 as int]@);
                }
                assert(views(out@) =~= spec_dedup_consecutive(views(list@).take(i + 1 as int)));
            }
        } else {
            proof {
                assert(views(list@).take(i + 1 as int)[i - 1 as int] == list@[i - 1 as int]@);
                assert(views(out@) =~= spec_dedup_consecutive(views(list@).take(i + 1 as int)));
            }
        }
        i = i + 1;
    }
    proof {
        assert(views(list@).take(views(list@).len() as int) =~= views(list@));
        assert forall|g: Seq<u8>| views(out@).contains(g) <==> views(list@).contains(g) by {
            lemma_dedup_consecutive_contains(views(list@), g);
        }
    }
    out
}

/// Every candidate location of the configuration file, nearest first: the
/// working directory and each of its ancestors, each joined with the file
/// name.
pub open spec fn spec_config_candidates(cwd: Seq<u8>, name: Seq<u8>, k: int) -> Seq<Seq<u8>>
    decreases k + 1,
{
    if k < 0 {
        Seq::empty()
    } else if k == cwd.len() || (0 <= k < cwd.len() && cwd[k] == SLASH) {
        seq![spec_join_path(cwd.take(k), name)] + spec_config_candidates(cwd, name, k - 1)
    } else {
        spec_config_candidates(cwd, name, k - 1)
    }
}

/// The locations where the configuration file is looked for, nearest first:
/// the working directory itself, then each ancestor up to the root.
pub fn candidate_config_paths(cwd: &Vec<u8>, name: &Vec<u8>) -> (r: Vec<Vec<u8>>)
    ensures
        views(r@) == spec_config_candidates(cwd@, name@, cwd@.len() as int),
{
    let mut out: Vec<Vec<u8>> = Vec::new();
    let n = cwd.len();
    let mut k: usize = n;
    let mut done = false;
    proof {
        assert(views(out@) =~= Seq::<Seq<u8>>::empty());
    }
    while !done
        invariant
            n == cwd@.len(),
            k <= n,
            done ==> k == 0,
            views(out@) + spec_config_candidates(cwd@, name@, (if done {
                -1int
            } else {
                k as int
            })) == spec_config_candidates(cwd@, name@, n as int),
        decreases k + (if done { 0int } else { 1int }),
    {
        let at_boundary = if k == n {
            true
        } else {
            cwd[k] == SLASH
        };
        if at_boundary {
            let mut prefix: Vec<u8> = Vec::new();
            let mut t: usize = 0;
            while t < k
                invariant
                    t <= k,
                    k <= cwd@.len(),
                    prefix@ == cwd@.take(t as int),
                decreases k - t,
            {
                prefix.push(cwd[t]);
                proof {
                    assert(cwd@.take(t + 1 as int) =~= cwd@.take(t as int).push(cwd@[t as int]));
                }
                t = t + 1;
            }
            let candidate = join_path(&prefix, name);
            out.push(candidate);
            proof {
                assert(views(out@) =~= views(out@.drop_last()) + seq![
                    spec_join_path(cwd@.take(k as int), name@),
                ]);
                assert(spec_config_candidates(cwd@, name@, k as int) == seq![
                    spec_join_path(cwd@.take(k as int), name@),
                ] + spec_config_candidates(cwd@, name@, k - 1));
                assert((views(out@.drop_last()) + seq![spec_join_path(cwd@.take(k as int), name@)])
                    + spec_config_candidates(cwd@, name@, k - 1) =~= views(out@.drop_last())
                    + spec_config_candidates(cwd@, name@, k as int));
            }
        }
        if k == 0 {
            done = true;
        } else {
            k = k - 1;
        }
    }
    out
}


/// Changing an environment variable outside the allow-list never changes the
/// fingerprint: the filtered snapshot the fingerprint hashes is the same.
pub proof fn lemma_fingerprint_ignores_unlisted(
    cmd: Seq<u8>,
    env: Seq<(Seq<u8>, Seq<u8>)>,
    i: int,
    v: Seq<u8>,
    allow: Seq<Seq<u8>>,
    files: Seq<(Seq<u8>, Seq<u8>)>,
)
    requires
        0 <= i < env.len(),
        !allow.contains(env[i].0),
    ensures
        crate::fingerprint::spec_fingerprint(
            cmd,
            spec_filter_env(env.update(i, (env[i].0, v)), allow),
            files,
        ) == crate::fingerprint::spec_fingerprint(cmd, spec_filter_env(env, allow), files),
{
    lemma_filter_env_ignores_unlisted(env, i, v, allow);
}

} // verus!
