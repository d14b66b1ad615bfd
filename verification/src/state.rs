//! Server session state: the projects and targets of the workspace, the
//! file → target routing, the watched files whose change invalidates the
//! caches, and the per-target settings, include dirs and Swift arguments.
//!
//! Reading files, running `xcodebuild`/`plutil`, stat-ing and scanning
//! directories happen outside; this state takes their results and makes
//! every decision: what to run, what to keep, what to answer.

use vstd::prelude::*;
use crate::build_settings::{setting, split_multi, split_multi_spec, setting_or, BuildSettings};
use crate::json::{Json, JsonValue, members_view};
use crate::path::{comps, extension, extension_of, file_stem, file_stem_of, join, join_path, parent, parent_of, path_eq, path_starts_with};
use crate::protocol::{jarray, jobject, jstr, ok_response, ok_response_of};
use crate::sort::{lex_lt, str_lt};
use crate::synth::{
    clang_args, scoped_dirs, scoped_include_dirs, swift_args, synthesize_clang_args,
    synthesize_swift_args,
};
use crate::text::{concat, contains_str, owned, starts_with, str_eq, strip_prefix, strs_view, to_ascii_lowercase};

verus! {

broadcast use vstd::string::group_string_axioms;

/// A target: the path of its `.xcodeproj` and its name. Names are not
/// unique across projects, so a target is always qualified by its project.
pub type TargetKey = (String, String);

/// The view of a target key.
pub type Key = (Seq<char>, Seq<char>);

pub open spec fn key_view(k: TargetKey) -> Key {
    (k.0@, k.1@)
}

pub open spec fn keys_view(s: Seq<TargetKey>) -> Seq<Key> {
    s.map_values(|k: TargetKey| key_view(k))
}

/// The order of target keys: by project path, then by name.
pub open spec fn key_lt(a: Key, b: Key) -> bool {
    lex_lt(a.0, b.0) || (a.0 == b.0 && lex_lt(a.1, b.1))
}

/// The least key of a non-empty sequence.
pub open spec fn min_key(s: Seq<Key>) -> Key
    decreases s.len(),
{
    if s.len() <= 1 {
        s[0]
    } else {
        let m = min_key(s.drop_last());
        if key_lt(s.last(), m) {
            s.last()
        } else {
            m
        }
    }
}

/// A modification time, as the time since the Unix epoch (or before it).
#[derive(PartialEq, Eq, Structural, Clone, Copy, Debug)]
pub struct Stamp {
    pub after_epoch: bool,
    pub secs: u64,
    pub nanos: u32,
}

/// Server session state.
pub struct ServerState {
    pub initialized: bool,
    pub root: String,
    pub project_flag: String,
    pub project_path: String,
    pub scheme: Option<String>,
    /// Whether the projects and targets have been enumerated.
    pub enumerated: bool,
    pub workspace_root: String,
    pub projects: Vec<String>,
    pub project_dirs: Vec<String>,
    /// Non-project workspace children (e.g. `common/`) shared by all targets.
    pub shared_dirs: Vec<String>,
    /// Each source file and the targets that compile it.
    pub file_to_targets: Vec<(String, Vec<TargetKey>)>,
    pub target_sources: Vec<(TargetKey, Vec<String>)>,
    /// Every enumerated target, each once.
    pub ordered_targets: Vec<TargetKey>,
    /// Files whose change invalidates the caches, with their last-seen
    /// modification times (`None`: absent).
    pub watched: Vec<(String, Option<Stamp>)>,
    pub schemes: Option<Vec<String>>,
    pub target_settings: Vec<(TargetKey, Option<BuildSettings>)>,
    pub target_includes: Vec<(TargetKey, Vec<String>)>,
    pub target_swift_args: Vec<(TargetKey, Option<Vec<String>>)>,
}

/// The view of the file → targets map.
pub open spec fn ft_view(ft: Seq<(String, Vec<TargetKey>)>) -> Seq<(Seq<char>, Seq<Key>)> {
    ft.map_values(|e: (String, Vec<TargetKey>)| (e.0@, keys_view(e.1@)))
}

/// The targets of the first entry for a path equal (by components) to
/// `file`.
pub open spec fn lookup_file(ft: Seq<(Seq<char>, Seq<Key>)>, file: Seq<char>) -> Option<Seq<Key>>
    decreases ft.len(),
{
    if ft.len() == 0 {
        None
    } else if comps(ft[0].0) == comps(file) {
        Some(ft[0].1)
    } else {
        lookup_file(ft.drop_first(), file)
    }
}

/// Whether the project directory of `k` contains `file`.
pub open spec fn owns_by_prefix(k: Key, file: Seq<char>) -> bool {
    match parent_of(k.0) {
        Some(pd) => comps(pd).is_prefix_of(comps(file)),
        None => false,
    }
}

/// The keys whose project directory contains `file`, in order.
pub open spec fn keys_owning(s: Seq<Key>, file: Seq<char>) -> Seq<Key>
    decreases s.len(),
{
    if s.len() == 0 {
        Seq::empty()
    } else {
        keys_owning(s.drop_last(), file) + if owns_by_prefix(s.last(), file) {
            seq![s.last()]
        } else {
            Seq::empty()
        }
    }
}

/// The least target, if any.
pub open spec fn primary_of(ordered: Seq<Key>) -> Option<Key> {
    if ordered.len() > 0 {
        Some(min_key(ordered))
    } else {
        None
    }
}

/// Routing of a file: the least of the targets that compile it; else the
/// least target whose project directory contains it; else the least target.
pub open spec fn route_of(ft: Seq<(Seq<char>, Seq<Key>)>, ordered: Seq<Key>, file: Seq<char>) -> Option<
    Key,
> {
    match lookup_file(ft, file) {
        Some(ts) if ts.len() > 0 => Some(min_key(ts)),
        _ => if keys_owning(ordered, file).len() > 0 {
            Some(min_key(keys_owning(ordered, file)))
        } else {
            primary_of(ordered)
        },
    }
}

/// The directory of a project (the parent of its `.xcodeproj`), or empty.
pub open spec fn project_dir_of(proj: Seq<char>) -> Seq<char> {
    match parent_of(proj) {
        Some(p) => p,
        None => Seq::empty(),
    }
}

/// Whether a shared dir is, contains or lies inside a project dir.
pub open spec fn touches_project(d: Seq<char>, project_dirs: Seq<Seq<char>>) -> bool {
    exists|k: int|
        0 <= k < project_dirs.len() && (comps(d) == comps(#[trigger] project_dirs[k]) || comps(
            project_dirs[k],
        ).is_prefix_of(comps(d)) || comps(d).is_prefix_of(comps(project_dirs[k])))
}

/// Whether a path equal (by components) to `d` is in `s`.
pub open spec fn contains_path(s: Seq<Seq<char>>, d: Seq<char>) -> bool {
    exists|k: int| 0 <= k < s.len() && comps(#[trigger] s[k]) == comps(d)
}

/// The scan roots after the shared dirs `shared`, starting from `roots`.
pub open spec fn scan_roots_from(
    roots: Seq<Seq<char>>,
    shared: Seq<Seq<char>>,
    project_dirs: Seq<Seq<char>>,
) -> Seq<Seq<char>>
    decreases shared.len(),
{
    if shared.len() == 0 {
        roots
    } else {
        let r = scan_roots_from(roots, shared.drop_last(), project_dirs);
        let d = shared.last();
        if !touches_project(d, project_dirs) && !contains_path(r, d) {
            r.push(d)
        } else {
            r
        }
    }
}

/// A target's scan roots: its own project dir, then each shared dir that
/// neither is nor contains nor lies in a project dir (an ancestor would pull
/// in sibling projects' headers), each once.
pub open spec fn scan_roots_of(proj: Seq<char>, shared: Seq<Seq<char>>, project_dirs: Seq<Seq<char>>) -> Seq<
    Seq<char>,
> {
    scan_roots_from(seq![project_dir_of(proj)], shared, project_dirs)
}

// ── Key helpers ──

fn key_clone(k: &TargetKey) -> (r: TargetKey)
    ensures
        key_view(r) == key_view(*k),
{
    (k.0.clone(), k.1.clone())
}

fn key_eq(a: &TargetKey, b: &TargetKey) -> (r: bool)
    ensures
        r == (key_view(*a) == key_view(*b)),
{
    str_eq(a.0.as_str(), b.0.as_str()) && str_eq(a.1.as_str(), b.1.as_str())
}

fn key_less(a: &TargetKey, b: &TargetKey) -> (r: bool)
    ensures
        r == key_lt(key_view(*a), key_view(*b)),
{
    str_lt(a.0.as_str(), b.0.as_str()) || (str_eq(a.0.as_str(), b.0.as_str()) && str_lt(
        a.1.as_str(),
        b.1.as_str(),
    ))
}

/// The least key of a non-empty list.
fn least_key(s: &Vec<TargetKey>) -> (r: TargetKey)
    requires
        s@.len() > 0,
    ensures
        key_view(r) == min_key(keys_view(s@)),
{
    let ghost kv = keys_view(s@);
    let mut best = key_clone(&s[0]);
    let mut i: usize = 1;
    assert(kv.take(1).len() == 1);
    while i < s.len()
        invariant
            1 <= i <= s@.len(),
            kv == keys_view(s@),
            key_view(best) == min_key(kv.take(i as int)),
        decreases s@.len() - i,
    {
        proof {
            assert(kv.take(i + 1).drop_last() =~= kv.take(i as int));
            assert(kv.take(i + 1).last() == key_view(s@[i as int]));
        }
        if key_less(&s[i], &best) {
            best = key_clone(&s[i]);
        }
        i = i + 1;
    }
    assert(kv.take(s@.len() as int) =~= kv);
    best
}

/// Whether `s` holds a key equal to `k`.
fn contains_key(s: &Vec<TargetKey>, k: &TargetKey) -> (r: bool)
    ensures
        r == keys_view(s@).contains(key_view(*k)),
{
    let mut i: usize = 0;
    while i < s.len()
        invariant
            i <= s@.len(),
            forall|j: int| 0 <= j < i ==> key_view(s@[j]) != key_view(*k),
        decreases s@.len() - i,
    {
        if key_eq(&s[i], k) {
            assert(keys_view(s@)[i as int] == key_view(*k));
            return true;
        }
        i = i + 1;
    }
    proof {
        if keys_view(s@).contains(key_view(*k)) {
            let j = choose|j: int| 0 <= j < keys_view(s@).len() && keys_view(s@)[j] == key_view(*k);
            assert(key_view(s@[j]) == key_view(*k));
        }
    }
    false
}

/// Whether `s` holds a path equal (by components) to `d`.
fn contains_path_exec(s: &Vec<String>, d: &str) -> (r: bool)
    ensures
        r == contains_path(strs_view(s@), d@),
{
    let mut i: usize = 0;
    while i < s.len()
        invariant
            i <= s@.len(),
            forall|j: int| 0 <= j < i ==> comps(s@[j]@) != comps(d@),
        decreases s@.len() - i,
    {
        if path_eq(s[i].as_str(), d) {
            assert(comps(strs_view(s@)[i as int]) == comps(d@));
            return true;
        }
        i = i + 1;
    }
    proof {
        if contains_path(strs_view(s@), d@) {
            let j = choose|j: int| 0 <= j < strs_view(s@).len() && comps(strs_view(s@)[j]) == comps(d@);
            assert(comps(s@[j]@) == comps(d@));
        }
    }
    false
}

/// The directory of a project.
pub fn project_dir(proj: &str) -> (r: String)
    ensures
        r@ == project_dir_of(proj@),
{
    proof {
        reveal_strlit("");
        assert(""@ =~= Seq::<char>::empty());
    }
    match parent(proj) {
        Some(p) => p,
        None => owned(""),
    }
}

/// The index of the first entry for a path equal (by components) to `file`.
fn find_file_entry(ft: &Vec<(String, Vec<TargetKey>)>, file: &str) -> (r: Option<usize>)
    ensures
        match r {
            Some(i) => i < ft@.len() && lookup_file(ft_view(ft@), file@) == Some(ft_view(ft@)[i as int].1),
            None => lookup_file(ft_view(ft@), file@) is None,
        },
{
    let ghost ftv = ft_view(ft@);
    let mut i: usize = 0;
    assert(ftv.skip(0) =~= ftv);
    while i < ft.len()
        invariant
            i <= ft@.len(),
            ftv == ft_view(ft@),
            lookup_file(ftv, file@) == lookup_file(ftv.skip(i as int), file@),
        decreases ft@.len() - i,
    {
        proof {
            assert(ftv.skip(i as int).drop_first() =~= ftv.skip(i + 1));
            assert(ftv.skip(i as int)[0] == ftv[i as int]);
        }
        if path_eq(ft[i].0.as_str(), file) {
            return Some(i);
        }
        i = i + 1;
    }
    assert(ftv.skip(i as int) =~= Seq::<(Seq<char>, Seq<Key>)>::empty());
    None
}

impl ServerState {
    /// Nothing enumerated and nothing cached: a session before its first
    /// enumeration, or after an invalidation.
    pub open spec fn is_fresh(self) -> bool {
        &&& !self.enumerated
        &&& self.workspace_root@.len() == 0
        &&& self.projects@.len() == 0
        &&& self.project_dirs@.len() == 0
        &&& self.shared_dirs@.len() == 0
        &&& self.file_to_targets@.len() == 0
        &&& self.target_sources@.len() == 0
        &&& self.ordered_targets@.len() == 0
        &&& self.watched@.len() == 0
        &&& self.schemes is None
        &&& self.target_settings@.len() == 0
        &&& self.target_includes@.len() == 0
        &&& self.target_swift_args@.len() == 0
    }

    /// The same session identity: initialization, root, project and scheme.
    pub open spec fn same_identity(self, other: ServerState) -> bool {
        &&& self.initialized == other.initialized
        &&& self.root == other.root
        &&& self.project_flag == other.project_flag
        &&& self.project_path == other.project_path
        &&& self.scheme == other.scheme
    }

    /// The same enumeration: projects, targets, file routing and watched
    /// files.
    pub open spec fn same_enumeration(self, other: ServerState) -> bool {
        &&& self.enumerated == other.enumerated
        &&& self.workspace_root == other.workspace_root
        &&& self.projects == other.projects
        &&& self.project_dirs == other.project_dirs
        &&& self.shared_dirs == other.shared_dirs
        &&& self.file_to_targets == other.file_to_targets
        &&& self.target_sources == other.target_sources
        &&& self.ordered_targets == other.ordered_targets
        &&& self.watched == other.watched
    }

    /// The same scheme list and per-target caches.
    pub open spec fn same_caches(self, other: ServerState) -> bool {
        &&& self.schemes == other.schemes
        &&& self.target_settings == other.target_settings
        &&& self.target_includes == other.target_includes
        &&& self.target_swift_args == other.target_swift_args
    }

    /// A session before `build/initialize`.
    pub fn empty() -> (r: ServerState)
        ensures
            r.is_fresh(),
            !r.initialized,
            r.root@.len() == 0,
            r.project_flag@.len() == 0,
            r.project_path@.len() == 0,
            r.scheme is None,
    {
        ServerState {
            initialized: false,
            root: String::new(),
            project_flag: String::new(),
            project_path: String::new(),
            scheme: None,
            enumerated: false,
            workspace_root: String::new(),
            projects: Vec::new(),
            project_dirs: Vec::new(),
            shared_dirs: Vec::new(),
            file_to_targets: Vec::new(),
            target_sources: Vec::new(),
            ordered_targets: Vec::new(),
            watched: Vec::new(),
            schemes: None,
            target_settings: Vec::new(),
            target_includes: Vec::new(),
            target_swift_args: Vec::new(),
        }
    }

    /// A session for `root` with the project named by `buildServer.json` or
    /// found in the root directory (see `workspace::build_server_config` and
    /// `workspace::detect_project`).
    pub fn init_from_root(
        root: &str,
        configured: Option<(String, String, Option<String>)>,
        detected: Option<(String, String)>,
    ) -> (r: ServerState)
        ensures
            !r.initialized,
            !r.enumerated,
            r.root@ == root@,
            match configured {
                Some(c) => r.project_flag@ == c.0@ && r.project_path@ == c.1@ && crate::protocol::opt_string(r.scheme) == crate::protocol::opt_string(c.2),
                None => match detected {
                    Some(d) => r.project_flag@ == d.0@ && r.project_path@ == d.1@ && r.scheme is None,
                    None => r.project_flag@.len() == 0 && r.project_path@.len() == 0 && r.scheme is None,
                },
            },
            r.is_fresh(),
    {
        let mut st = ServerState::empty();
        st.root = owned(root);
        match configured {
            Some((flag, path, scheme)) => {
                st.project_flag = flag;
                st.project_path = path;
                st.scheme = scheme;
            },
            None => match detected {
                Some((flag, path)) => {
                    st.project_flag = flag;
                    st.project_path = path;
                },
                None => {},
            },
        }
        st
    }

    // ── Routing ──

    /// Route a file to its owning target: exact source membership (the
    /// least target when several compile it), else a project-dir prefix
    /// match, else the global primary. `None` only when no targets were
    /// enumerated.
    pub fn route(&self, file: &str) -> (r: Option<TargetKey>)
        ensures
            match r {
                Some(k) => route_of(ft_view(self.file_to_targets@), keys_view(self.ordered_targets@), file@)
                    == Some(key_view(k)),
                None => route_of(
                    ft_view(self.file_to_targets@),
                    keys_view(self.ordered_targets@),
                    file@,
                ) is None,
            },
    {
        match find_file_entry(&self.file_to_targets, file) {
            Some(i) => {
                let ts = &self.file_to_targets[i].1;
                assert(ft_view(self.file_to_targets@)[i as int].1 == keys_view(ts@));
                if ts.len() > 0 {
                    return Some(least_key(ts));
                }
            },
            None => {},
        }
        let ghost kv = keys_view(self.ordered_targets@);
        let mut owning: Vec<TargetKey> = Vec::new();
        let mut j: usize = 0;
        while j < self.ordered_targets.len()
            invariant
                j <= self.ordered_targets@.len(),
                kv == keys_view(self.ordered_targets@),
                keys_view(owning@) == keys_owning(kv.take(j as int), file@),
            decreases self.ordered_targets@.len() - j,
        {
            let k = &self.ordered_targets[j];
            proof {
                assert(kv.take(j + 1).drop_last() =~= kv.take(j as int));
                assert(kv.take(j + 1).last() == key_view(*k));
            }
            let ghost before = keys_view(owning@);
            let owns = match parent(k.0.as_str()) {
                Some(pd) => path_starts_with(file, pd.as_str()),
                None => false,
            };
            if owns {
                owning.push(key_clone(k));
                assert(keys_view(owning@) =~= before + seq![key_view(*k)]);
            } else {
                assert(keys_view(owning@) =~= before + Seq::<Key>::empty());
            }
            j = j + 1;
        }
        assert(kv.take(self.ordered_targets@.len() as int) =~= kv);
        if owning.len() > 0 {
            return Some(least_key(&owning));
        }
        self.primary_target()
    }

    /// Deterministic global primary target (the least by project path, then
    /// name).
    pub fn primary_target(&self) -> (r: Option<TargetKey>)
        ensures
            match r {
                Some(k) => primary_of(keys_view(self.ordered_targets@)) == Some(key_view(k)),
                None => primary_of(keys_view(self.ordered_targets@)) is None,
            },
    {
        if self.ordered_targets.len() > 0 {
            Some(least_key(&self.ordered_targets))
        } else {
            None
        }
    }

    /// Scan roots for a target's scoped include set: its own project dir
    /// plus the shared non-project workspace dirs (`common/`). Sibling
    /// project dirs are excluded.
    pub fn scan_roots_for(&self, key: &TargetKey) -> (r: Vec<String>)
        ensures
            strs_view(r@) == scan_roots_of(key.0@, strs_view(self.shared_dirs@), strs_view(self.project_dirs@)),
    {
        let mut roots: Vec<String> = vec![project_dir(key.0.as_str())];
        let ghost sv = strs_view(self.shared_dirs@);
        let ghost pv = strs_view(self.project_dirs@);
        let ghost r0 = seq![project_dir_of(key.0@)];
        assert(strs_view(roots@) =~= r0);
        let mut i: usize = 0;
        while i < self.shared_dirs.len()
            invariant
                i <= self.shared_dirs@.len(),
                sv == strs_view(self.shared_dirs@),
                pv == strs_view(self.project_dirs@),
                strs_view(roots@) == scan_roots_from(r0, sv.take(i as int), pv),
            decreases self.shared_dirs@.len() - i,
        {
            let d = self.shared_dirs[i].as_str();
            proof {
                assert(sv.take(i + 1).drop_last() =~= sv.take(i as int));
                assert(sv.take(i + 1).last() == d@);
            }
            let mut touches = false;
            let mut k: usize = 0;
            while k < self.project_dirs.len()
                invariant
                    k <= self.project_dirs@.len(),
                    pv == strs_view(self.project_dirs@),
                    touches == exists|q: int|
                        0 <= q < k && (comps(d@) == comps(#[trigger] pv[q]) || comps(pv[q]).is_prefix_of(
                            comps(d@),
                        ) || comps(d@).is_prefix_of(comps(pv[q]))),
                decreases self.project_dirs@.len() - k,
            {
                let pd = self.project_dirs[k].as_str();
                assert(pv[k as int] == pd@);
                if path_eq(d, pd) || path_starts_with(d, pd) || path_starts_with(pd, d) {
                    touches = true;
                }
                k = k + 1;
            }
            let ghost before = strs_view(roots@);
            if !touches && !contains_path_exec(&roots, d) {
                roots.push(owned(d));
                assert(strs_view(roots@) =~= before.push(d@));
            }
            i = i + 1;
        }
        assert(sv.take(self.shared_dirs@.len() as int) =~= sv);
        roots
    }

    // ── Enumeration ──

    /// Whether enumeration should run: not done yet and a project known.
    pub fn needs_enumeration(&self) -> (r: bool)
        ensures
            r == (!self.enumerated && self.project_path@.len() > 0),
    {
        !self.enumerated && !crate::text::is_empty_str(self.project_path.as_str())
    }

    /// Starts an enumeration with the resolved project list (for a
    /// workspace, its members; else the project itself) and the shared
    /// non-project dirs: the workspace root is the project's parent, and
    /// each project's dir is recorded.
    pub fn begin_enumeration(&mut self, projects: Vec<String>, shared: Vec<String>)
        ensures
            final(self).workspace_root@ == project_dir_of(old(self).project_path@),
            strs_view(final(self).projects@) == strs_view(projects@),
            strs_view(final(self).shared_dirs@) == strs_view(shared@),
            strs_view(final(self).project_dirs@) == strs_view(old(self).project_dirs@) + strs_view(
                projects@,
            ).map_values(|p: Seq<char>| project_dir_of(p)),
            final(self).same_identity(*old(self)),
            final(self).same_caches(*old(self)),
            final(self).enumerated == old(self).enumerated,
            final(self).file_to_targets == old(self).file_to_targets,
            final(self).ordered_targets == old(self).ordered_targets,
            final(self).target_sources == old(self).target_sources,
            final(self).watched == old(self).watched,
    {
        self.workspace_root = project_dir(self.project_path.as_str());
        let ghost pv = strs_view(projects@);
        let mut dirs: Vec<String> = Vec::new();
        let mut i: usize = 0;
        while i < projects.len()
            invariant
                i <= projects@.len(),
                pv == strs_view(projects@),
                strs_view(dirs@) == pv.take(i as int).map_values(|p: Seq<char>| project_dir_of(p)),
            decreases projects@.len() - i,
        {
            let ghost before = strs_view(dirs@);
            let d = project_dir(projects[i].as_str());
            dirs.push(d);
            proof {
                assert(strs_view(dirs@) =~= before.push(project_dir_of(pv[i as int])));
                assert(pv.take(i + 1).map_values(|p: Seq<char>| project_dir_of(p)) =~= pv.take(
                    i as int,
                ).map_values(|p: Seq<char>| project_dir_of(p)).push(project_dir_of(pv[i as int])));
            }
            i = i + 1;
        }
        assert(pv.take(projects@.len() as int) =~= pv);
        let ghost start = self.project_dirs@;
        let ghost dv = dirs@;
        self.project_dirs.append(&mut dirs);
        assert(strs_view(self.project_dirs@) =~= strs_view(start) + strs_view(dv));
        self.projects = projects;
        self.shared_dirs = shared;
    }

    /// Records the targets of one project (their sources already filtered to
    /// files that exist): each file maps to the targets that compile it, each
    /// target is listed once, and a target's sources are its latest list.
    pub fn add_project_targets(&mut self, xcodeproj: &str, targets: &Vec<(String, Vec<String>)>)
        ensures
            ft_view(final(self).file_to_targets@) == ft_add_targets(
                ft_view(old(self).file_to_targets@),
                xcodeproj@,
                crate::pbxproj::targets_view(targets@),
            ),
            keys_view(final(self).ordered_targets@) == keys_add_targets(
                keys_view(old(self).ordered_targets@),
                xcodeproj@,
                crate::pbxproj::targets_view(targets@),
            ),
            forall|k: Key| #[trigger] opt_strs(lookup_key(final(self).target_sources@, k)) == sources_after(
                opt_strs(lookup_key(old(self).target_sources@, k)),
                xcodeproj@,
                crate::pbxproj::targets_view(targets@),
                k,
            ),
            final(self).same_identity(*old(self)),
            final(self).same_caches(*old(self)),
            final(self).enumerated == old(self).enumerated,
            final(self).workspace_root == old(self).workspace_root,
            final(self).projects == old(self).projects,
            final(self).project_dirs == old(self).project_dirs,
            final(self).shared_dirs == old(self).shared_dirs,
            final(self).watched == old(self).watched,
    {
        let ghost tv = crate::pbxproj::targets_view(targets@);
        let ghost ts0 = self.target_sources@;
        let ghost ft0 = ft_view(self.file_to_targets@);
        let ghost ot0 = keys_view(self.ordered_targets@);
        let mut i: usize = 0;
        while i < targets.len()
            invariant
                i <= targets@.len(),
                tv == crate::pbxproj::targets_view(targets@),
                ft_view(self.file_to_targets@) == ft_add_targets(ft0, xcodeproj@, tv.take(i as int)),
                keys_view(self.ordered_targets@) == keys_add_targets(ot0, xcodeproj@, tv.take(i as int)),
                forall|k: Key| #[trigger] opt_strs(lookup_key(self.target_sources@, k)) == sources_after(
                    opt_strs(lookup_key(ts0, k)),
                    xcodeproj@,
                    tv.take(i as int),
                    k,
                ),
                self.same_identity(*old(self)),
                self.same_caches(*old(self)),
                self.enumerated == old(self).enumerated,
                self.workspace_root == old(self).workspace_root,
                self.projects == old(self).projects,
                self.project_dirs == old(self).project_dirs,
                self.shared_dirs == old(self).shared_dirs,
                self.watched == old(self).watched,
            decreases targets@.len() - i,
        {
            proof {
                assert(tv.take(i + 1).drop_last() =~= tv.take(i as int));
                assert(tv.take(i + 1).last() == (targets@[i as int].0@, strs_view(targets@[i as int].1@)));
            }
            let key: TargetKey = (owned(xcodeproj), targets[i].0.clone());
            let sources = &targets[i].1;
            let ghost sv = strs_view(sources@);
            let ghost ftb = ft_view(self.file_to_targets@);
            let ghost tsb = self.target_sources@;
            let mut k: usize = 0;
            while k < sources.len()
                invariant
                    k <= sources@.len(),
                    sv == strs_view(sources@),
                    ft_view(self.file_to_targets@) == ft_add_files(ftb, sv.take(k as int), key_view(key)),
                    keys_view(self.ordered_targets@) == keys_add_targets(ot0, xcodeproj@, tv.take(i as int)),
                    self.target_sources@ == tsb,
                    self.same_identity(*old(self)),
                    self.same_caches(*old(self)),
                    self.enumerated == old(self).enumerated,
                    self.workspace_root == old(self).workspace_root,
                    self.projects == old(self).projects,
                    self.project_dirs == old(self).project_dirs,
                    self.shared_dirs == old(self).shared_dirs,
                    self.watched == old(self).watched,
                decreases sources@.len() - k,
            {
                proof {
                    assert(sv.take(k + 1).drop_last() =~= sv.take(k as int));
                }
                add_file_target(&mut self.file_to_targets, sources[k].as_str(), &key);
                k = k + 1;
            }
            assert(sv.take(sources@.len() as int) =~= sv);
            let ghost before = keys_view(self.ordered_targets@);
            if !contains_key(&self.ordered_targets, &key) {
                self.ordered_targets.push(key_clone(&key));
                assert(keys_view(self.ordered_targets@) =~= before.push(key_view(key)));
            }
            let ghost kv = key_view(key);
            let copied = crate::text::clone_strs(sources);
            put_key(&mut self.target_sources, key, copied);
            proof {
                assert forall|k: Key| #[trigger] opt_strs(lookup_key(self.target_sources@, k)) == sources_after(
                    opt_strs(lookup_key(ts0, k)),
                    xcodeproj@,
                    tv.take(i + 1),
                    k,
                ) by {
                    assert(tv.take(i + 1).last().0 == kv.1);
                    if k != kv {
                        assert(lookup_key(self.target_sources@, k) == lookup_key(tsb, k));
                    }
                }
            }
            i = i + 1;
        }
        assert(tv.take(targets@.len() as int) =~= tv);
    }

    /// Ends an enumeration: records the watched files (each path once, its
    /// first entry kept: the pre-read pbxproj sample wins) and marks the
    /// enumeration done.
    pub fn finish_enumeration(&mut self, watched: Vec<(String, Option<Stamp>)>)
        ensures
            final(self).enumerated,
            watched_view(final(self).watched@) == dedup_watched(watched_view(watched@)),
            final(self).same_identity(*old(self)),
            final(self).same_caches(*old(self)),
            final(self).workspace_root == old(self).workspace_root,
            final(self).projects == old(self).projects,
            final(self).project_dirs == old(self).project_dirs,
            final(self).shared_dirs == old(self).shared_dirs,
            final(self).file_to_targets == old(self).file_to_targets,
            final(self).target_sources == old(self).target_sources,
            final(self).ordered_targets == old(self).ordered_targets,
    {
        let ghost wv = watched_view(watched@);
        let mut out: Vec<(String, Option<Stamp>)> = Vec::new();
        let mut i: usize = 0;
        while i < watched.len()
            invariant
                i <= watched@.len(),
                wv == watched_view(watched@),
                watched_view(out@) == dedup_watched(wv.take(i as int)),
            decreases watched@.len() - i,
        {
            proof {
                assert(wv.take(i + 1).drop_last() =~= wv.take(i as int));
                assert(wv.take(i + 1).last() == wv[i as int]);
            }
            let ghost before = watched_view(out@);
            let mut seen = false;
            let mut k: usize = 0;
            while k < out.len()
                invariant
                    k <= out@.len(),
                    seen == exists|q: int| 0 <= q < k && comps(#[trigger] watched_view(out@)[q].0) == comps(wv[i as int].0),
                    i < watched@.len(),
                    wv == watched_view(watched@),
                decreases out@.len() - k,
            {
                if path_eq(out[k].0.as_str(), watched[i].0.as_str()) {
                    seen = true;
                }
                assert(watched_view(out@)[k as int].0 == out@[k as int].0@);
                k = k + 1;
            }
            if !seen {
                out.push((watched[i].0.clone(), watched[i].1));
                assert(watched_view(out@) =~= before.push(wv[i as int]));
            }
            i = i + 1;
        }
        assert(wv.take(watched@.len() as int) =~= wv);
        self.watched = out;
        self.enumerated = true;
    }

    /// Resets all enumeration and cache state, keeping the identity (root,
    /// project, scheme).
    pub fn invalidate(&mut self)
        ensures
            final(self).is_fresh(),
            final(self).same_identity(*old(self)),
    {
        self.enumerated = false;
        self.workspace_root = String::new();
        self.projects = Vec::new();
        self.project_dirs = Vec::new();
        self.shared_dirs = Vec::new();
        self.file_to_targets = Vec::new();
        self.target_sources = Vec::new();
        self.ordered_targets = Vec::new();
        self.watched = Vec::new();
        self.schemes = None;
        self.target_settings = Vec::new();
        self.target_includes = Vec::new();
        self.target_swift_args = Vec::new();
    }

    // ── Staleness ──

    /// Whether a watched file's current modification time (`current[i]` for
    /// `watched[i]`; `None`: absent) differs from the one last seen.
    pub fn watched_changed(&self, current: &Vec<Option<Stamp>>) -> (r: bool)
        requires
            current@.len() == self.watched@.len(),
        ensures
            r == exists|i: int| 0 <= i < current@.len() && current@[i] != #[trigger] self.watched@[i].1,
    {
        let mut i: usize = 0;
        while i < current.len()
            invariant
                i <= current@.len(),
                current@.len() == self.watched@.len(),
                forall|j: int| 0 <= j < i ==> current@[j] == self.watched@[j].1,
            decreases current@.len() - i,
        {
            if current[i] != self.watched[i].1 {
                return true;
            }
            i = i + 1;
        }
        false
    }

    /// Whether the caches are stale: enumerated, and a watched file changed.
    /// No refresh is due before the first enumeration.
    pub fn refresh_needed(&self, current: &Vec<Option<Stamp>>) -> (r: bool)
        requires
            current@.len() == self.watched@.len(),
        ensures
            r == (self.enumerated && exists|i: int| 0 <= i < current@.len() && current@[i] != #[trigger] self.watched@[i].1),
    {
        self.enumerated && self.watched_changed(current)
    }
}

// ── Enumeration specifications ──

/// The view of watched entries.
pub open spec fn watched_view(w: Seq<(String, Option<Stamp>)>) -> Seq<(Seq<char>, Option<Stamp>)> {
    w.map_values(|e: (String, Option<Stamp>)| (e.0@, e.1))
}

/// Watched entries, each path (by components) once, first entry kept.
pub open spec fn dedup_watched(w: Seq<(Seq<char>, Option<Stamp>)>) -> Seq<(Seq<char>, Option<Stamp>)>
    decreases w.len(),
{
    if w.len() == 0 {
        Seq::empty()
    } else {
        let d = dedup_watched(w.drop_last());
        if exists|q: int| 0 <= q < d.len() && comps(#[trigger] d[q].0) == comps(w.last().0) {
            d
        } else {
            d.push(w.last())
        }
    }
}

/// The sources recorded for `k` after the targets of one project: the last
/// list given for it there, else what was recorded before.
pub open spec fn sources_after(
    before: Option<Seq<Seq<char>>>,
    proj: Seq<char>,
    targets: Seq<(Seq<char>, Seq<Seq<char>>)>,
    k: Key,
) -> Option<Seq<Seq<char>>>
    decreases targets.len(),
{
    if targets.len() == 0 {
        before
    } else if k == (proj, targets.last().0) {
        Some(targets.last().1)
    } else {
        sources_after(before, proj, targets.drop_last(), k)
    }
}

/// `k` added to the targets of the entry for `f` (a new entry when none
/// matches `f` by components), unless it is there already.
pub open spec fn ft_add(ft: Seq<(Seq<char>, Seq<Key>)>, f: Seq<char>, k: Key) -> Seq<(Seq<char>, Seq<Key>)>
    decreases ft.len(),
{
    if ft.len() == 0 {
        seq![(f, seq![k])]
    } else if comps(ft[0].0) == comps(f) {
        ft.update(0, (ft[0].0, if ft[0].1.contains(k) {
            ft[0].1
        } else {
            ft[0].1.push(k)
        }))
    } else {
        seq![ft[0]] + ft_add(ft.drop_first(), f, k)
    }
}

/// `k` added for each of `files`, in order.
pub open spec fn ft_add_files(ft: Seq<(Seq<char>, Seq<Key>)>, files: Seq<Seq<char>>, k: Key) -> Seq<
    (Seq<char>, Seq<Key>),
>
    decreases files.len(),
{
    if files.len() == 0 {
        ft
    } else {
        ft_add(ft_add_files(ft, files.drop_last(), k), files.last(), k)
    }
}

/// The file map after the targets of one project.
pub open spec fn ft_add_targets(
    ft: Seq<(Seq<char>, Seq<Key>)>,
    proj: Seq<char>,
    targets: Seq<(Seq<char>, Seq<Seq<char>>)>,
) -> Seq<(Seq<char>, Seq<Key>)>
    decreases targets.len(),
{
    if targets.len() == 0 {
        ft
    } else {
        ft_add_files(
            ft_add_targets(ft, proj, targets.drop_last()),
            targets.last().1,
            (proj, targets.last().0),
        )
    }
}

/// The target list after the targets of one project, each key once.
pub open spec fn keys_add_targets(
    ot: Seq<Key>,
    proj: Seq<char>,
    targets: Seq<(Seq<char>, Seq<Seq<char>>)>,
) -> Seq<Key>
    decreases targets.len(),
{
    if targets.len() == 0 {
        ot
    } else {
        let o = keys_add_targets(ot, proj, targets.drop_last());
        let k = (proj, targets.last().0);
        if o.contains(k) {
            o
        } else {
            o.push(k)
        }
    }
}

/// The first entry whose path equals `f` by components.
fn find_path_entry(ft: &Vec<(String, Vec<TargetKey>)>, f: &str) -> (r: Option<usize>)
    ensures
        match r {
            Some(i) => i < ft@.len() && comps(ft_view(ft@)[i as int].0) == comps(f@) && forall|j: int|
                0 <= j < i ==> comps(#[trigger] ft_view(ft@)[j].0) != comps(f@),
            None => forall|j: int| 0 <= j < ft@.len() ==> comps(#[trigger] ft_view(ft@)[j].0) != comps(f@),
        },
{
    let mut i: usize = 0;
    while i < ft.len()
        invariant
            i <= ft@.len(),
            forall|j: int| 0 <= j < i ==> comps(#[trigger] ft_view(ft@)[j].0) != comps(f@),
        decreases ft@.len() - i,
    {
        assert(ft_view(ft@)[i as int].0 == ft@[i as int].0@);
        if path_eq(ft[i].0.as_str(), f) {
            return Some(i);
        }
        i = i + 1;
    }
    None
}

/// Adds `k` to the entry for `f`.
fn add_file_target(ft: &mut Vec<(String, Vec<TargetKey>)>, f: &str, k: &TargetKey)
    ensures
        ft_view(final(ft)@) == ft_add(ft_view(old(ft)@), f@, key_view(*k)),
{
    let ghost v0 = ft_view(ft@);
    match find_path_entry(ft, f) {
        Some(i) => {
            proof {
                lemma_ft_add_at(v0, f@, key_view(*k), i as int);
            }
            let present = contains_key(&ft[i].1, k);
            assert(v0[i as int].1 == keys_view(ft@[i as int].1@));
            if !present {
                let mut entry = ft.remove(i);
                let ghost ev = keys_view(entry.1@);
                entry.1.push(key_clone(k));
                assert(keys_view(entry.1@) =~= ev.push(key_view(*k)));
                ft.insert(i, entry);
                assert(ft_view(ft@) =~= v0.update(
                    i as int,
                    (v0[i as int].0, v0[i as int].1.push(key_view(*k))),
                ));
            } else {
                assert(v0.update(i as int, (v0[i as int].0, v0[i as int].1)) =~= v0);
            }
        },
        None => {
            proof {
                lemma_ft_add_at(v0, f@, key_view(*k), v0.len() as int);
            }
            let ks = vec![key_clone(k)];
            assert(keys_view(ks@) =~= seq![key_view(*k)]);
            let ghost kv = keys_view(ks@);
            ft.push((owned(f), ks));
            assert(ft_view(ft@) =~= v0 + seq![(f@, kv)]);
        },
    }
}

/// `ft_add` touches the first entry equal to `f`, or appends one.
proof fn lemma_ft_add_at(ft: Seq<(Seq<char>, Seq<Key>)>, f: Seq<char>, k: Key, i: int)
    requires
        0 <= i <= ft.len(),
        forall|j: int| 0 <= j < i ==> comps(ft[j].0) != comps(f),
        i < ft.len() ==> comps(ft[i].0) == comps(f),
    ensures
        i < ft.len() ==> ft_add(ft, f, k) == ft.update(i, (ft[i].0, if ft[i].1.contains(k) {
            ft[i].1
        } else {
            ft[i].1.push(k)
        })),
        i == ft.len() ==> ft_add(ft, f, k) == ft + seq![(f, seq![k])],
    decreases i,
{
    if i > 0 {
        let rest = ft.drop_first();
        assert forall|j: int| 0 <= j < i - 1 implies comps(rest[j].0) != comps(f) by {
            assert(rest[j] == ft[j + 1]);
        }
        if i < ft.len() {
            assert(rest[i - 1] == ft[i]);
        }
        lemma_ft_add_at(rest, f, k, i - 1);
        assert(comps(ft[0].0) != comps(f));
        if i < ft.len() {
            assert(seq![ft[0]] + rest.update(i - 1, (ft[i].0, if ft[i].1.contains(k) {
                ft[i].1
            } else {
                ft[i].1.push(k)
            })) =~= ft.update(i, (ft[i].0, if ft[i].1.contains(k) {
                ft[i].1
            } else {
                ft[i].1.push(k)
            })));
        } else {
            assert(seq![ft[0]] + (rest + seq![(f, seq![k])]) =~= ft + seq![(f, seq![k])]);
        }
    } else if ft.len() == 0 {
        assert(ft + seq![(f, seq![k])] =~= seq![(f, seq![k])]);
    }
}

// ── Per-target caches ──

/// The value of the first entry for `k`.
pub open spec fn lookup_key<V>(m: Seq<(TargetKey, V)>, k: Key) -> Option<V>
    decreases m.len(),
{
    if m.len() == 0 {
        None
    } else if key_view(m[0].0) == k {
        Some(m[0].1)
    } else {
        lookup_key(m.drop_first(), k)
    }
}

proof fn lemma_lookup_key_at<V>(m: Seq<(TargetKey, V)>, k: Key, i: int)
    requires
        0 <= i <= m.len(),
        forall|j: int| 0 <= j < i ==> key_view(#[trigger] m[j].0) != k,
        i < m.len() ==> key_view(m[i].0) == k,
    ensures
        i < m.len() ==> lookup_key(m, k) == Some(m[i].1),
        i == m.len() ==> lookup_key(m, k) is None,
    decreases i,
{
    if i > 0 {
        let rest = m.drop_first();
        assert forall|j: int| 0 <= j < i - 1 implies key_view(#[trigger] rest[j].0) != k by {
            assert(rest[j] == m[j + 1]);
        }
        if i < m.len() {
            assert(rest[i - 1] == m[i]);
        }
        assert(key_view(m[0].0) != k);
        lemma_lookup_key_at(rest, k, i - 1);
    }
}

/// The index of the first entry for `k`.
fn find_key<V>(m: &Vec<(TargetKey, V)>, k: &TargetKey) -> (r: Option<usize>)
    ensures
        match r {
            Some(i) => i < m@.len() && lookup_key(m@, key_view(*k)) == Some(m@[i as int].1)
                && key_view(m@[i as int].0) == key_view(*k) && forall|j: int| 0 <= j < i ==> key_view(#[trigger] m@[j].0) != key_view(*k),
            None => lookup_key(m@, key_view(*k)) is None,
        },
{
    let mut i: usize = 0;
    while i < m.len()
        invariant
            i <= m@.len(),
            forall|j: int| 0 <= j < i ==> key_view(#[trigger] m@[j].0) != key_view(*k),
        decreases m@.len() - i,
    {
        if key_eq(&m[i].0, k) {
            proof {
                lemma_lookup_key_at(m@, key_view(*k), i as int);
            }
            return Some(i);
        }
        i = i + 1;
    }
    proof {
        lemma_lookup_key_at(m@, key_view(*k), m@.len() as int);
    }
    None
}

/// Sets the entry for `k`, replacing an earlier one.
fn put_key<V>(m: &mut Vec<(TargetKey, V)>, k: TargetKey, v: V)
    ensures
        lookup_key(final(m)@, key_view(k)) == Some(v),
        forall|k2: Key| k2 != key_view(k) ==> #[trigger] lookup_key(final(m)@, k2) == lookup_key(old(m)@, k2),
{
    match find_key(m, &k) {
        Some(i) => {
            let ghost m0 = m@;
            let ghost kk = k;
            m.set(i, (k, v));
            proof {
                assert forall|j: int| 0 <= j < i implies key_view(#[trigger] m@[j].0) != key_view(kk) by {
                    assert(m@[j] == m0[j]);
                }
                lemma_lookup_key_at(m@, key_view(kk), i as int);
                assert(m@ == m0.update(i as int, (kk, v)));
                assert forall|k2: Key| k2 != key_view(kk) implies #[trigger] lookup_key(m@, k2) == lookup_key(m0, k2) by {
                    lemma_lookup_update_other(m0, i as int, (kk, v), k2);
                }
            }
        },
        None => {
            let ghost m0 = m@;
            let ghost kk = k;
            m.push((k, v));
            proof {
                lemma_lookup_none_all(m0, key_view(kk));
                assert forall|j: int| 0 <= j < m0.len() implies key_view(#[trigger] m@[j].0) != key_view(kk) by {
                    assert(m@[j] == m0[j]);
                }
                lemma_lookup_key_at(m@, key_view(kk), m0.len() as int);
                assert(m@ == m0.push((kk, v)));
                assert forall|k2: Key| k2 != key_view(kk) implies #[trigger] lookup_key(m@, k2) == lookup_key(m0, k2) by {
                    lemma_lookup_push_other(m0, (kk, v), k2);
                }
            }
        },
    }
}

/// Replacing an entry by one with the same key leaves the other keys' lookups.
proof fn lemma_lookup_update_other<V>(m: Seq<(TargetKey, V)>, i: int, e: (TargetKey, V), k2: Key)
    requires
        0 <= i < m.len(),
        key_view(e.0) == key_view(m[i].0),
        key_view(e.0) != k2,
    ensures
        lookup_key(m.update(i, e), k2) == lookup_key(m, k2),
    decreases m.len(),
{
    if i == 0 {
        assert(m.update(0, e).drop_first() =~= m.drop_first());
    } else {
        assert(m.update(i, e).drop_first() =~= m.drop_first().update(i - 1, e));
        lemma_lookup_update_other(m.drop_first(), i - 1, e, k2);
    }
}

/// Appending an entry for another key leaves a key's lookup.
proof fn lemma_lookup_push_other<V>(m: Seq<(TargetKey, V)>, e: (TargetKey, V), k2: Key)
    requires
        key_view(e.0) != k2,
    ensures
        lookup_key(m.push(e), k2) == lookup_key(m, k2),
    decreases m.len(),
{
    if m.len() == 0 {
        assert(m.push(e).drop_first() =~= Seq::<(TargetKey, V)>::empty());
        assert(lookup_key(m.push(e).drop_first(), k2) is None);
    } else {
        assert(m.push(e)[0] == m[0]);
        assert(m.push(e).drop_first() =~= m.drop_first().push(e));
        lemma_lookup_push_other(m.drop_first(), e, k2);
    }
}

/// An entry for `k` before the found one contradicts `lookup_key`.
proof fn lemma_first_key<V>(m: Seq<(TargetKey, V)>, k: Key, j: int)
    requires
        0 <= j < m.len(),
        key_view(m[j].0) == k,
    ensures
        lookup_key(m, k) is Some,
        exists|q: int| 0 <= q <= j && key_view(#[trigger] m[q].0) == k && lookup_key(m, k) == Some(m[q].1) && forall|p: int| 0 <= p < q ==> key_view(#[trigger] m[p].0) != k,
    decreases j,
{
    if key_view(m[0].0) == k {
        assert(lookup_key(m, k) == Some(m[0].1));
    } else {
        let rest = m.drop_first();
        assert(rest[j - 1] == m[j]);
        lemma_first_key(rest, k, j - 1);
        let q = choose|q: int| 0 <= q <= j - 1 && key_view(#[trigger] rest[q].0) == k && lookup_key(rest, k) == Some(rest[q].1) && forall|p: int| 0 <= p < q ==> key_view(#[trigger] rest[p].0) != k;
        assert(m[q + 1] == rest[q]);
        assert forall|p: int| 0 <= p < q + 1 implies key_view(#[trigger] m[p].0) != k by {
            if p > 0 {
                assert(m[p] == rest[p - 1]);
            }
        }
    }
}

proof fn lemma_lookup_none_all<V>(m: Seq<(TargetKey, V)>, k: Key)
    requires
        lookup_key(m, k) is None,
    ensures
        forall|j: int| 0 <= j < m.len() ==> key_view(#[trigger] m[j].0) != k,
{
    assert forall|j: int| 0 <= j < m.len() implies key_view(#[trigger] m[j].0) != k by {
        if key_view(m[j].0) == k {
            lemma_first_key(m, k, j);
        }
    }
}

/// `{"compilerArguments": args, "workingDirectory": dir}`.
pub open spec fn compiler_options_of(args: Seq<Seq<char>>, working_dir: Seq<char>) -> Json {
    Json::Object(
        seq![
            ("compilerArguments"@, Json::Array(args.map_values(|a: Seq<char>| Json::Str(a)))),
            ("workingDirectory"@, Json::Str(working_dir)),
        ],
    )
}

/// The view of an optional list of strings.
pub open spec fn opt_strs(o: Option<Vec<String>>) -> Option<Seq<Seq<char>>> {
    match o {
        Some(v) => Some(strs_view(v@)),
        None => None,
    }
}

/// The `sourceKitOptions` answer for a file routed to `key`: whole-module
/// arguments for Swift; per-file clang arguments for C-family files; `null`
/// when there are none.
pub open spec fn source_kit_reply_of(
    settings: Seq<(TargetKey, Option<BuildSettings>)>,
    includes: Seq<(TargetKey, Vec<String>)>,
    swift: Seq<(TargetKey, Option<Vec<String>>)>,
    working_dir: Seq<char>,
    id: Json,
    key: Key,
    file: Seq<char>,
    is_swift: bool,
) -> Json {
    if is_swift {
        match lookup_key(swift, key) {
            Some(Some(args)) => if args@.len() > 0 {
                ok_response_of(id, compiler_options_of(strs_view(args@), working_dir))
            } else {
                ok_response_of(id, Json::Null)
            },
            _ => ok_response_of(id, Json::Null),
        }
    } else {
        match lookup_key(settings, key) {
            Some(Some(s)) => {
                let dirs = match lookup_key(includes, key) {
                    Some(d) => strs_view(d@),
                    None => Seq::empty(),
                };
                let args = clang_args(s@, file, dirs);
                if args.len() > 0 {
                    ok_response_of(id, compiler_options_of(args, working_dir))
                } else {
                    ok_response_of(id, Json::Null)
                }
            },
            _ => ok_response_of(id, Json::Null),
        }
    }
}

/// Extensions answered with clang arguments.
pub open spec fn c_family_ext(e: Seq<char>) -> bool {
    e == "c"@ || e == "m"@ || e == "mm"@ || e == "cc"@ || e == "cpp"@ || e == "cxx"@ || e == "h"@
        || e == "hpp"@
}

/// The file of a `sourceKitOptions` document URI and whether it is Swift;
/// `None` (answered with `null`) without a URI or for other extensions.
pub open spec fn source_kit_file_of(uri: Option<Seq<char>>) -> Option<(Seq<char>, bool)> {
    match uri {
        None => None,
        Some(u) => {
            let file = crate::uri::uri_to_path_of(u);
            let ext = crate::synth::file_ext_lower(file);
            if ext == "swift"@ {
                Some((file, true))
            } else if c_family_ext(ext) {
                Some((file, false))
            } else {
                None
            }
        },
    }
}

/// The file of a `sourceKitOptions` document URI and whether it is Swift.
pub fn source_kit_file(uri: Option<&str>) -> (r: Option<(String, bool)>)
    ensures
        match r {
            Some((f, sw)) => source_kit_file_of(crate::build_settings::opt_str(uri)) == Some((f@, sw)),
            None => source_kit_file_of(crate::build_settings::opt_str(uri)) is None,
        },
{
    let u = match uri {
        Some(u) => u,
        None => {
            return None;
        },
    };
    let file = crate::uri::uri_to_path(u);
    let ext = match extension(file.as_str()) {
        Some(e) => to_ascii_lowercase(e.as_str()),
        None => {
            proof {
                reveal_strlit("");
                assert(""@ =~= Seq::<char>::empty());
            }
            to_ascii_lowercase("")
        },
    };
    if str_eq(ext.as_str(), "swift") {
        return Some((file, true));
    }
    let e = ext.as_str();
    if str_eq(e, "c") || str_eq(e, "m") || str_eq(e, "mm") || str_eq(e, "cc") || str_eq(e, "cpp")
        || str_eq(e, "cxx") || str_eq(e, "h") || str_eq(e, "hpp") {
        Some((file, false))
    } else {
        None
    }
}

/// `{"compilerArguments": args, "workingDirectory": dir}`.
fn compiler_options(args: &Vec<String>, working_dir: &str) -> (r: JsonValue)
    ensures
        r@ == compiler_options_of(strs_view(args@), working_dir@),
{
    let ghost av = strs_view(args@);
    let mut items: Vec<JsonValue> = Vec::new();
    let mut i: usize = 0;
    while i < args.len()
        invariant
            i <= args@.len(),
            av == strs_view(args@),
            crate::json::items_view(items@) == av.take(i as int).map_values(|a: Seq<char>| Json::Str(a)),
        decreases args@.len() - i,
    {
        let ghost before = crate::json::items_view(items@);
        items.push(jstr(args[i].as_str()));
        assert(crate::json::items_view(items@) =~= before.push(Json::Str(av[i as int])));
        assert(av.take(i + 1).map_values(|a: Seq<char>| Json::Str(a)) =~= av.take(i as int).map_values(
            |a: Seq<char>| Json::Str(a),
        ).push(Json::Str(av[i as int])));
        i = i + 1;
    }
    assert(av.take(args@.len() as int) =~= av);
    let arr = jarray(items);
    let ghost ag = arr@;
    let m = vec![(owned("compilerArguments"), arr), (owned("workingDirectory"), jstr(working_dir))];
    assert(members_view(m@) =~= seq![("compilerArguments"@, ag), ("workingDirectory"@, Json::Str(working_dir@))]);
    jobject(m)
}

/// The `-showBuildSettings -json` arguments with `tail` after them.
pub fn sbs_args(tail: &Vec<String>) -> (r: Vec<String>)
    ensures
        strs_view(r@) == seq!["-showBuildSettings"@, "-json"@] + strs_view(tail@),
{
    let mut v: Vec<String> = vec![owned("-showBuildSettings"), owned("-json")];
    let ghost v0 = strs_view(v@);
    assert(v0 =~= seq!["-showBuildSettings"@, "-json"@]);
    let mut t = crate::text::clone_strs(tail);
    let ghost tv = t@;
    v.append(&mut t);
    assert(strs_view(v@) =~= v0 + strs_view(tv));
    v
}

/// True when these settings describe the given project dir (guards against
/// a same-named scheme owned by another project of the workspace).
pub open spec fn settings_belong_to_of(m: Seq<(Seq<char>, Json)>, project_dir: Seq<char>) -> bool {
    match setting(m, "PROJECT_DIR"@) {
        Some(p) => comps(p) == comps(project_dir),
        None => false,
    }
}

/// Whether `PROJECT_DIR` of these settings is `project_dir`.
pub fn settings_belong_to(settings: &BuildSettings, project_dir: &str) -> (r: bool)
    ensures
        r == settings_belong_to_of(settings@, project_dir@),
{
    match settings.get("PROJECT_DIR") {
        Some(p) => path_eq(p, project_dir),
        None => false,
    }
}

/// Whether `name` passes `str::is_alphanumeric`; what it is for a given
/// character (Unicode `Alphabetic` or `Numeric`) is named.
pub uninterp spec fn spec_is_alphanumeric(c: char) -> bool;

/// `char::is_alphanumeric`.
#[verifier::external_body]
fn char_is_alphanumeric(c: char) -> (r: bool)
    ensures
        r == spec_is_alphanumeric(c),
{
    c.is_alphanumeric()
}

/// The root path with every character that is not alphanumeric replaced by
/// `-` (a directory name unique to the project).
pub open spec fn sanitized_of(root: Seq<char>) -> Seq<char> {
    root.map_values(|c: char| if spec_is_alphanumeric(c) {
        c
    } else {
        '-'
    })
}

/// Among `(path, size)` candidates, the first of the largest.
pub open spec fn largest_of(c: Seq<(Seq<char>, u64)>) -> Option<(Seq<char>, u64)>
    decreases c.len(),
{
    if c.len() == 0 {
        None
    } else {
        match largest_of(c.drop_last()) {
            Some(b) => if c.last().1 > b.1 {
                Some(c.last())
            } else {
                Some(b)
            },
            None => Some(c.last()),
        }
    }
}

/// The largest of the existing index stores, given with their sizes in the
/// order found (the first of equal sizes wins).
pub fn pick_largest(candidates: &Vec<(String, u64)>) -> (r: Option<String>)
    ensures
        match r {
            Some(p) => largest_of(candidates@.map_values(|e: (String, u64)| (e.0@, e.1))) matches Some(b) && b.0 == p@,
            None => largest_of(candidates@.map_values(|e: (String, u64)| (e.0@, e.1))) is None,
        },
{
    let ghost cv = candidates@.map_values(|e: (String, u64)| (e.0@, e.1));
    let mut best: Option<usize> = None;
    let mut i: usize = 0;
    while i < candidates.len()
        invariant
            i <= candidates@.len(),
            cv == candidates@.map_values(|e: (String, u64)| (e.0@, e.1)),
            match best {
                Some(b) => b < i && largest_of(cv.take(i as int)) == Some(cv[b as int]),
                None => i == 0,
            },
        decreases candidates@.len() - i,
    {
        proof {
            assert(cv.take(i + 1).drop_last() =~= cv.take(i as int));
            assert(cv.take(i + 1).last() == cv[i as int]);
        }
        match best {
            Some(b) => {
                if candidates[i].1 > candidates[b].1 {
                    best = Some(i);
                }
            },
            None => {
                best = Some(i);
            },
        }
        i = i + 1;
    }
    assert(cv.take(candidates@.len() as int) =~= cv);
    match best {
        Some(b) => Some(candidates[b].0.clone()),
        None => None,
    }
}

/// Whether a DerivedData entry named `<name>-<hash>` belongs to one of
/// `names`.
pub open spec fn deriveddata_match_of(names: Seq<Seq<char>>, entry: Seq<char>) -> bool {
    exists|k: int|
        0 <= k < names.len() && (#[trigger] names[k]).is_prefix_of(entry) && entry.len() > names[k].len()
            && entry[names[k].len() as int] == '-'
}

/// Whether a DerivedData entry name is `<name>-…` for one of `names`.
pub fn deriveddata_name_matches(names: &Vec<String>, entry: &str) -> (r: bool)
    ensures
        r == deriveddata_match_of(strs_view(names@), entry@),
{
    let mut i: usize = 0;
    while i < names.len()
        invariant
            i <= names@.len(),
            forall|k: int|
                0 <= k < i ==> !((#[trigger] strs_view(names@)[k]).is_prefix_of(entry@) && entry@.len()
                    > strs_view(names@)[k].len() && entry@[strs_view(names@)[k].len() as int] == '-'),
        decreases names@.len() - i,
    {
        let n = names[i].as_str();
        assert(strs_view(names@)[i as int] == n@);
        match strip_prefix(entry, n) {
            Some(rest) => {
                if starts_with(rest.as_str(), "-") {
                    proof {
                        reveal_strlit("-");
                        assert("-"@[0] == '-');
                        assert(rest@[0] == entry@[n@.len() as int]);
                        assert(strs_view(names@)[i as int].is_prefix_of(entry@));
                        assert(entry@.len() > strs_view(names@)[i as int].len());
                        assert(entry@[strs_view(names@)[i as int].len() as int] == '-');
                    }
                    return true;
                }
                proof {
                    reveal_strlit("-");
                    if entry@.len() > n@.len() && entry@[n@.len() as int] == '-' {
                        assert(rest@[0] == '-');
                        assert("-"@.is_prefix_of(rest@));
                    }
                }
            },
            None => {},
        }
        i = i + 1;
    }
    false
}

impl ServerState {
    /// Whether the target's include dirs (and Swift arguments) are computed.
    pub fn target_processed(&self, key: &TargetKey) -> (r: bool)
        ensures
            r == (lookup_key(self.target_includes@, key_view(*key)) is Some),
    {
        find_key(&self.target_includes, key).is_some()
    }

    /// Whether the target's settings were loaded (successfully or not).
    pub fn settings_loaded(&self, key: &TargetKey) -> (r: bool)
        ensures
            r == (lookup_key(self.target_settings@, key_view(*key)) is Some),
    {
        find_key(&self.target_settings, key).is_some()
    }

    /// The directory containing the workspace (or lone project); empty
    /// before enumeration.
    pub fn workspace_root(&self) -> (r: &str)
        ensures
            r@ == self.workspace_root@,
    {
        self.workspace_root.as_str()
    }

    /// The loaded settings of a target, if any.
    pub fn target_settings(&self, key: &TargetKey) -> (r: Option<&BuildSettings>)
        ensures
            match r {
                Some(s) => lookup_key(self.target_settings@, key_view(*key)) == Some(Some(*s)),
                None => !(lookup_key(self.target_settings@, key_view(*key)) matches Some(Some(_))),
            },
    {
        match find_key(&self.target_settings, key) {
            Some(i) => match &self.target_settings[i].1 {
                Some(s) => Some(s),
                None => None,
            },
            None => None,
        }
    }

    /// The scoped include dirs of a target (none before it is processed).
    pub fn target_includes(&self, key: &TargetKey) -> (r: Vec<String>)
        ensures
            strs_view(r@) == match lookup_key(self.target_includes@, key_view(*key)) {
                Some(d) => strs_view(d@),
                None => Seq::empty(),
            },
    {
        match find_key(&self.target_includes, key) {
            Some(i) => crate::text::clone_strs(&self.target_includes[i].1),
            None => {
                let e: Vec<String> = Vec::new();
                assert(strs_view(e@) =~= Seq::<Seq<char>>::empty());
                e
            },
        }
    }

    /// The whole-module Swift arguments of a target, if any.
    pub fn target_swift_args(&self, key: &TargetKey) -> (r: Option<Vec<String>>)
        ensures
            match r {
                Some(a) => lookup_key(self.target_swift_args@, key_view(*key)) matches Some(Some(x)) && strs_view(x@) == strs_view(a@),
                None => !(lookup_key(self.target_swift_args@, key_view(*key)) matches Some(Some(_))),
            },
    {
        match find_key(&self.target_swift_args, key) {
            Some(i) => match &self.target_swift_args[i].1 {
                Some(a) => Some(crate::text::clone_strs(a)),
                None => None,
            },
            None => None,
        }
    }

    /// Whether the scheme list names `tname`.
    pub fn has_scheme(&self, tname: &str) -> (r: bool)
        ensures
            r == match self.schemes {
                Some(v) => strs_view(v@).contains(tname@),
                None => false,
            },
    {
        match &self.schemes {
            Some(v) => contains_str(v, tname),
            None => false,
        }
    }

    /// The `xcodebuild -list -json` arguments for the session's project.
    pub fn scheme_list_args(&self) -> (r: Vec<String>)
        ensures
            strs_view(r@) == seq!["-list"@, "-json"@, self.project_flag@, self.project_path@],
    {
        let v = vec![owned("-list"), owned("-json"), self.project_flag.clone(), self.project_path.clone()];
        assert(strs_view(v@) =~= seq!["-list"@, "-json"@, self.project_flag@, self.project_path@]);
        v
    }

    /// Records the scheme list, unless one is recorded already.
    pub fn set_schemes(&mut self, schemes: Vec<String>)
        ensures
            old(self).schemes is Some ==> final(self).schemes == old(self).schemes,
            old(self).schemes is None ==> final(self).schemes == Some(schemes),
            final(self).same_identity(*old(self)),
            final(self).same_enumeration(*old(self)),
            final(self).target_settings == old(self).target_settings,
            final(self).target_includes == old(self).target_includes,
            final(self).target_swift_args == old(self).target_swift_args,
    {
        if self.schemes.is_none() {
            self.schemes = Some(schemes);
        }
    }

    /// The `xcodebuild` arguments for a target's settings: for a single
    /// project, `-scheme` of the configured scheme, else of an eponymous
    /// scheme, else `-target`; for a workspace, first `-workspace … -scheme
    /// <target>` when such a scheme exists (to be kept only if its settings
    /// belong to the target's project), then `-project … -target`.
    pub fn settings_args(&self, key: &TargetKey, has_scheme: bool) -> (r: (Option<Vec<String>>, Vec<String>))
        ensures
            self.project_flag@ == "-project"@ ==> r.0 is None && strs_view(r.1@) == seq!["-showBuildSettings"@, "-json"@, "-project"@, key.0@] + match self.scheme {
                Some(s) => seq!["-scheme"@, s@],
                None => if has_scheme {
                    seq!["-scheme"@, key.1@]
                } else {
                    seq!["-target"@, key.1@]
                },
            },
            self.project_flag@ != "-project"@ ==> opt_strs(r.0) == (if has_scheme {
                Some(seq!["-showBuildSettings"@, "-json"@, self.project_flag@, self.project_path@, "-scheme"@, key.1@])
            } else {
                None
            }) && strs_view(r.1@) == seq!["-showBuildSettings"@, "-json"@, "-project"@, key.0@, "-target"@, key.1@],
    {
        let direct = vec![owned("-project"), key.0.clone(), owned("-target"), key.1.clone()];
        assert(strs_view(direct@) =~= seq!["-project"@, key.0@, "-target"@, key.1@]);
        if str_eq(self.project_flag.as_str(), "-project") {
            let tail = match &self.scheme {
                Some(s) => {
                    let t = vec![owned("-project"), key.0.clone(), owned("-scheme"), s.clone()];
                    assert(strs_view(t@) =~= seq!["-project"@, key.0@, "-scheme"@, s@]);
                    t
                },
                None => if has_scheme {
                    let t = vec![owned("-project"), key.0.clone(), owned("-scheme"), key.1.clone()];
                    assert(strs_view(t@) =~= seq!["-project"@, key.0@, "-scheme"@, key.1@]);
                    t
                } else {
                    direct
                },
            };
            let a = sbs_args(&tail);
            proof {
                assert(strs_view(a@) =~= seq!["-showBuildSettings"@, "-json"@, "-project"@, key.0@] + match self.scheme {
                    Some(s) => seq!["-scheme"@, s@],
                    None => if has_scheme {
                        seq!["-scheme"@, key.1@]
                    } else {
                        seq!["-target"@, key.1@]
                    },
                });
            }
            (None, a)
        } else {
            let first = if has_scheme {
                let t = vec![self.project_flag.clone(), self.project_path.clone(), owned("-scheme"), key.1.clone()];
                assert(strs_view(t@) =~= seq![self.project_flag@, self.project_path@, "-scheme"@, key.1@]);
                let a = sbs_args(&t);
                assert(strs_view(a@) =~= seq!["-showBuildSettings"@, "-json"@, self.project_flag@, self.project_path@, "-scheme"@, key.1@]);
                Some(a)
            } else {
                None
            };
            let a = sbs_args(&direct);
            assert(strs_view(a@) =~= seq!["-showBuildSettings"@, "-json"@, "-project"@, key.0@, "-target"@, key.1@]);
            (first, a)
        }
    }

    /// Records a target's settings (or that none could be loaded), unless
    /// they are recorded already.
    pub fn record_settings(&mut self, key: &TargetKey, settings: Option<BuildSettings>)
        ensures
            lookup_key(old(self).target_settings@, key_view(*key)) is Some ==> final(self).target_settings@ == old(self).target_settings@,
            lookup_key(old(self).target_settings@, key_view(*key)) is None ==> lookup_key(final(self).target_settings@, key_view(*key)) == Some(settings),
            forall|k2: Key| k2 != key_view(*key) ==> #[trigger] lookup_key(final(self).target_settings@, k2)
                == lookup_key(old(self).target_settings@, k2),
            final(self).same_identity(*old(self)),
            final(self).same_enumeration(*old(self)),
            final(self).schemes == old(self).schemes,
            final(self).target_includes == old(self).target_includes,
            final(self).target_swift_args == old(self).target_swift_args,
    {
        if find_key(&self.target_settings, key).is_none() {
            put_key(&mut self.target_settings, key_clone(key), settings);
        }
    }

    /// The `.swift` sources of a target.
    pub fn swift_sources(&self, key: &TargetKey) -> (r: Vec<String>)
        ensures
            strs_view(r@) == match lookup_key(self.target_sources@, key_view(*key)) {
                Some(v) => swift_files_of(strs_view(v@)),
                None => Seq::empty(),
            },
    {
        match find_key(&self.target_sources, key) {
            None => {
                let e: Vec<String> = Vec::new();
                assert(strs_view(e@) =~= Seq::<Seq<char>>::empty());
                e
            },
            Some(i) => {
                let v = &self.target_sources[i].1;
                let ghost sv = strs_view(v@);
                let mut out: Vec<String> = Vec::new();
                let mut k: usize = 0;
                while k < v.len()
                    invariant
                        k <= v@.len(),
                        sv == strs_view(v@),
                        strs_view(out@) == swift_files_of(sv.take(k as int)),
                    decreases v@.len() - k,
                {
                    proof {
                        assert(sv.take(k + 1).drop_last() =~= sv.take(k as int));
                        assert(sv.take(k + 1).last() == v@[k as int]@);
                    }
                    let ghost before = strs_view(out@);
                    let is_swift = match extension(v[k].as_str()) {
                        Some(e) => str_eq(e.as_str(), "swift"),
                        None => false,
                    };
                    if is_swift {
                        out.push(v[k].clone());
                        assert(strs_view(out@) =~= before + seq![sv[k as int]]);
                    } else {
                        assert(strs_view(out@) =~= before + Seq::<Seq<char>>::empty());
                    }
                    k = k + 1;
                }
                assert(sv.take(v@.len() as int) =~= sv);
                out
            },
        }
    }

    /// Completes a target: its scoped include dirs from the header dirs
    /// found under each of its scan roots (`found[r]` for the `r`-th root of
    /// `scan_roots_for`), less its HEADER_SEARCH_PATHS; and, when it has
    /// `.swift` sources and a module cache dir is available, its
    /// whole-module Swift arguments. A target without settings gets no
    /// include dirs and no Swift arguments.
    pub fn finish_target(&mut self, key: &TargetKey, found: &Vec<Vec<String>>, module_cache: Option<String>)
        ensures
            match lookup_key(old(self).target_settings@, key_view(*key)) {
                Some(Some(s)) => {
                    let hsp = split_multi_spec(setting_or(s@, "HEADER_SEARCH_PATHS"@, Seq::empty()));
                    &&& lookup_key(final(self).target_includes@, key_view(*key)) matches Some(inc)
                    &&& crate::sort::sorted_strict(strs_view(inc@))
                    &&& strs_view(inc@).to_set() == scoped_dirs(found@.map_values(|v: Vec<String>| strs_view(v@)), hsp)
                    &&& lookup_key(final(self).target_swift_args@, key_view(*key)) matches Some(sw)
                    &&& {
                        let files = match lookup_key(old(self).target_sources@, key_view(*key)) {
                            Some(v) => swift_files_of(strs_view(v@)),
                            None => Seq::empty(),
                        };
                        if files.len() == 0 || module_cache is None {
                            sw is None
                        } else {
                            opt_strs(sw) == Some(swift_args(s@, files, old(self).workspace_root@, strs_view(inc@), module_cache->0@))
                        }
                    }
                },
                _ => {
                    &&& lookup_key(final(self).target_includes@, key_view(*key)) matches Some(inc)
                    &&& inc@.len() == 0
                    &&& lookup_key(final(self).target_swift_args@, key_view(*key)) == Some(None::<Vec<String>>)
                },
            },
            forall|k2: Key| k2 != key_view(*key) ==> #[trigger] lookup_key(final(self).target_includes@, k2)
                == lookup_key(old(self).target_includes@, k2),
            forall|k2: Key| k2 != key_view(*key) ==> #[trigger] lookup_key(final(self).target_swift_args@, k2)
                == lookup_key(old(self).target_swift_args@, k2),
            final(self).same_identity(*old(self)),
            final(self).same_enumeration(*old(self)),
            final(self).schemes == old(self).schemes,
            final(self).target_settings == old(self).target_settings,
    {
        let ghost settings0 = self.target_settings@;
        let (includes, swift) = match self.target_settings(key) {
            None => (Vec::new(), None),
            Some(s) => {
                let hsp = split_multi(s.get_or("HEADER_SEARCH_PATHS", ""));
                proof {
                    reveal_strlit("");
                    assert(""@ =~= Seq::<char>::empty());
                }
                let includes = scoped_include_dirs(found, &hsp);
                let files = self.swift_sources(key);
                let swift = if files.len() == 0 {
                    None
                } else {
                    match &module_cache {
                        None => None,
                        Some(c) => Some(synthesize_swift_args(s, &files, self.workspace_root.as_str(), &includes, c.as_str())),
                    }
                };
                (includes, swift)
            },
        };
        put_key(&mut self.target_includes, key_clone(key), includes);
        put_key(&mut self.target_swift_args, key_clone(key), swift);
    }

    /// The `sourceKitOptions` answer for `file` routed to `key`.
    pub fn source_kit_reply(&self, id: &JsonValue, key: &TargetKey, file: &str, is_swift: bool) -> (r: JsonValue)
        ensures
            r@ == source_kit_reply_of(
                self.target_settings@,
                self.target_includes@,
                self.target_swift_args@,
                self.workspace_root@,
                id@,
                key_view(*key),
                file@,
                is_swift,
            ),
    {
        let wd = self.workspace_root.as_str();
        if is_swift {
            return match find_key(&self.target_swift_args, key) {
                Some(i) => match &self.target_swift_args[i].1 {
                    Some(args) => if args.len() > 0 {
                        ok_response(id, compiler_options(args, wd))
                    } else {
                        ok_response(id, JsonValue::Null)
                    },
                    None => ok_response(id, JsonValue::Null),
                },
                None => ok_response(id, JsonValue::Null),
            };
        }
        match self.target_settings(key) {
            None => ok_response(id, JsonValue::Null),
            Some(s) => {
                let dirs = self.target_includes(key);
                let args = synthesize_clang_args(s, file, &dirs);
                if args.len() > 0 {
                    ok_response(id, compiler_options(&args, wd))
                } else {
                    ok_response(id, JsonValue::Null)
                }
            },
        }
    }

    /// The file stems of the workspace (or lone project) and of each
    /// target's project, each once, in that order: the names of their
    /// DerivedData folders.
    pub fn index_store_names(&self) -> (r: Vec<String>)
        ensures
            strs_view(r@) == stems_from(
                stems_from(Seq::empty(), seq![self.project_path@]),
                keys_view(self.ordered_targets@).map_values(|k: Key| k.0),
            ),
    {
        let mut names: Vec<String> = Vec::new();
        assert(strs_view(names@) =~= Seq::<Seq<char>>::empty());
        add_stem(&mut names, self.project_path.as_str());
        proof {
            let one = seq![self.project_path@];
            assert(one.drop_last() =~= Seq::<Seq<char>>::empty());
            assert(one.last() == self.project_path@);
            assert(stems_from(Seq::empty(), one.drop_last()) == Seq::<Seq<char>>::empty());
            reveal_with_fuel(stems_from, 2);
            assert(strs_view(names@) =~= stems_from(Seq::empty(), one));
        }
        let ghost base = strs_view(names@);
        assert(projs_base_ok(base, self.project_path@));
        let ghost projs = keys_view(self.ordered_targets@).map_values(|k: Key| k.0);
        let mut i: usize = 0;
        while i < self.ordered_targets.len()
            invariant
                i <= self.ordered_targets@.len(),
                projs == keys_view(self.ordered_targets@).map_values(|k: Key| k.0),
                strs_view(names@) == stems_from(base, projs.take(i as int)),
            decreases self.ordered_targets@.len() - i,
        {
            proof {
                assert(projs.take(i + 1).drop_last() =~= projs.take(i as int));
                assert(projs.take(i + 1).last() == self.ordered_targets@[i as int].0@);
            }
            add_stem(&mut names, self.ordered_targets[i].0.as_str());
            i = i + 1;
        }
        assert(projs.take(self.ordered_targets@.len() as int) =~= projs);
        names
    }

    /// The cache directory `<home>/<under>/<sanitized root>` unique to the
    /// project.
    pub fn cache_subdir_path(&self, home: &str, under: &str) -> (r: String)
        ensures
            r@ == join_path(join_path(home@, under@), sanitized_of(self.root@)),
    {
        let cs = crate::text::to_chars(self.root.as_str());
        let mut out: Vec<char> = Vec::new();
        let mut i: usize = 0;
        while i < cs.len()
            invariant
                i <= cs@.len(),
                cs@ == self.root@,
                out@ == sanitized_of(cs@.take(i as int)),
            decreases cs@.len() - i,
        {
            let c = cs[i];
            let m = if char_is_alphanumeric(c) {
                c
            } else {
                '-'
            };
            out.push(m);
            assert(sanitized_of(cs@.take(i + 1)) =~= sanitized_of(cs@.take(i as int)).push(m));
            i = i + 1;
        }
        assert(cs@.take(cs@.len() as int) =~= cs@);
        let sanitized = crate::text::from_chars(&out);
        let a = join(home, under);
        join(a.as_str(), sanitized.as_str())
    }
}

/// The names after the workspace's own stem.
pub open spec fn projs_base_ok(base: Seq<Seq<char>>, project_path: Seq<char>) -> bool {
    base == stems_from(Seq::empty(), seq![project_path])
}

/// The `.swift` files, in order.
pub open spec fn swift_files_of(files: Seq<Seq<char>>) -> Seq<Seq<char>>
    decreases files.len(),
{
    if files.len() == 0 {
        Seq::empty()
    } else {
        swift_files_of(files.drop_last()) + if extension_of(files.last()) == Some("swift"@) {
            seq![files.last()]
        } else {
            Seq::empty()
        }
    }
}

/// The file stems of `paths` added to `names`, each once.
pub open spec fn stems_from(names: Seq<Seq<char>>, paths: Seq<Seq<char>>) -> Seq<Seq<char>>
    decreases paths.len(),
{
    if paths.len() == 0 {
        names
    } else {
        let n = stems_from(names, paths.drop_last());
        match file_stem_of(paths.last()) {
            Some(s) => if n.contains(s) {
                n
            } else {
                n.push(s)
            },
            None => n,
        }
    }
}

fn add_stem(names: &mut Vec<String>, p: &str)
    ensures
        strs_view(final(names)@) == match file_stem_of(p@) {
            Some(s) => if strs_view(old(names)@).contains(s) {
                strs_view(old(names)@)
            } else {
                strs_view(old(names)@).push(s)
            },
            None => strs_view(old(names)@),
        },
{
    match file_stem(p) {
        Some(s) => {
            if !contains_str(names, s.as_str()) {
                let ghost before = strs_view(names@);
                let ghost sv = s@;
                names.push(s);
                assert(strs_view(names@) =~= before.push(sv));
            }
        },
        None => {},
    }
}

// ── Session steps between the I/O ──

/// The `sourceKitOptions` answer for a document URI: `null` when the file
/// is neither C-family nor Swift, or no target routes it; else the routed
/// target's arguments (see `source_kit_reply_of`).
pub open spec fn source_kit_answer_of(st: ServerState, id: Json, uri: Option<Seq<char>>) -> Json {
    match source_kit_file_of(uri) {
        None => ok_response_of(id, Json::Null),
        Some((file, sw)) => match route_of(ft_view(st.file_to_targets@), keys_view(st.ordered_targets@), file) {
            None => ok_response_of(id, Json::Null),
            Some(k) => source_kit_reply_of(
                st.target_settings@,
                st.target_includes@,
                st.target_swift_args@,
                st.workspace_root@,
                id,
                k,
                file,
                sw,
            ),
        },
    }
}

/// The result of the arguments a `synth` run prints for `file` routed to
/// `key`: the whole-module Swift arguments for a `.swift` file, else the
/// per-file clang arguments; an error when those are unavailable.
pub open spec fn synth_output_of(st: ServerState, key: Key, file: Seq<char>) -> Result<Seq<Seq<char>>, Seq<char>> {
    if crate::synth::file_ext_lower(file) == "swift"@ {
        match lookup_key(st.target_swift_args@, key) {
            Some(Some(a)) => Ok(strs_view(a@)),
            _ => Err("synth: no Swift args (no .swift sources or settings unavailable)"@),
        }
    } else {
        match lookup_key(st.target_settings@, key) {
            Some(Some(s)) => Ok(clang_args(
                s@,
                file,
                match lookup_key(st.target_includes@, key) {
                    Some(d) => strs_view(d@),
                    None => Seq::empty(),
                },
            )),
            _ => Err("synth: settings unavailable for the routed target"@),
        }
    }
}

/// The `.xcconfig` files among the entries of the project dirs, in order.
pub open spec fn xcconfigs_of(entries: Seq<Seq<Seq<char>>>) -> Seq<Seq<char>>
    decreases entries.len(),
{
    if entries.len() == 0 {
        Seq::empty()
    } else {
        xcconfigs_of(entries.drop_last()) + entries.last().filter(
            |p: Seq<char>| extension_of(p) == Some("xcconfig"@),
        )
    }
}

/// The stat-only watch candidates: the shallow `*.xcconfig` of the project
/// dirs (`entries[i]` lists the `i`-th project dir), then `Package.resolved`
/// at the workspace root, then in each project dir.
pub open spec fn watch_candidates_of(
    entries: Seq<Seq<Seq<char>>>,
    workspace_root: Seq<char>,
    project_dirs: Seq<Seq<char>>,
) -> Seq<Seq<char>> {
    xcconfigs_of(entries) + seq![join_path(workspace_root, "Package.resolved"@)] + project_dirs.map_values(
        |d: Seq<char>| join_path(d, "Package.resolved"@),
    )
}

/// Where the primary target's index store would be, from its loaded
/// settings.
pub open spec fn primary_store_candidate_of(st: ServerState) -> Option<Seq<char>> {
    match primary_of(keys_view(st.ordered_targets@)) {
        Some(k) => match lookup_key(st.target_settings@, k) {
            Some(Some(s)) => crate::build_settings::index_store_path_of(s@),
            _ => None,
        },
        None => None,
    }
}

/// The settings from a workspace `-scheme <target>` run are kept only when
/// they belong to the target's own project.
pub open spec fn kept_scheme_settings_of(key: Key, settings: Option<Seq<(Seq<char>, Json)>>) -> Option<
    Seq<(Seq<char>, Json)>,
> {
    match settings {
        Some(s) => if settings_belong_to_of(s, project_dir_of(key.0)) {
            Some(s)
        } else {
            None
        },
        None => None,
    }
}

/// The view of optional settings.
pub open spec fn opt_settings(o: Option<BuildSettings>) -> Option<Seq<(Seq<char>, Json)>> {
    match o {
        Some(s) => Some(s@),
        None => None,
    }
}

/// Keep the settings of a workspace `-scheme <target>` run only when they
/// belong to the target's project (a same-named scheme of another project
/// is refused); `None` asks for the `-project … -target` run.
pub fn keep_scheme_settings(key: &TargetKey, settings: Option<BuildSettings>) -> (r: Option<BuildSettings>)
    ensures
        opt_settings(r) == kept_scheme_settings_of(key_view(*key), opt_settings(settings)),
{
    match settings {
        Some(s) => {
            let dir = project_dir(key.0.as_str());
            if settings_belong_to(&s, dir.as_str()) {
                Some(s)
            } else {
                None
            }
        },
        None => None,
    }
}

impl ServerState {
    /// Answer a `sourceKitOptions` request for `uri` (never a JSON-RPC
    /// error). The caller has refreshed, enumerated and processed the routed
    /// target first.
    pub fn source_kit_answer(&self, id: &JsonValue, uri: Option<&str>) -> (r: JsonValue)
        ensures
            r@ == source_kit_answer_of(*self, id@, crate::build_settings::opt_str(uri)),
            exists|res: Json| r@ == ok_response_of(id@, res),
    {
        match source_kit_file(uri) {
            None => {
                let r = ok_response(id, JsonValue::Null);
                assert(r@ == ok_response_of(id@, Json::Null));
                r
            },
            Some((file, is_swift)) => match self.route(file.as_str()) {
                None => {
                    let r = ok_response(id, JsonValue::Null);
                    assert(r@ == ok_response_of(id@, Json::Null));
                    r
                },
                Some(key) => {
                    let r = self.source_kit_reply(id, &key, file.as_str(), is_swift);
                    proof {
                        lemma_source_kit_reply_ok(
                            self.target_settings@,
                            self.target_includes@,
                            self.target_swift_args@,
                            self.workspace_root@,
                            id@,
                            key_view(key),
                            file@,
                            is_swift,
                        );
                    }
                    r
                },
            },
        }
    }

    /// Completes `build/initialize` on a session set up from the root URI:
    /// the session is initialized and the request is answered with the
    /// initialize result.
    pub fn complete_initialize(
        &mut self,
        id: &JsonValue,
        root_uri: &str,
        version: &str,
        index_store: Option<String>,
        index_db: Option<String>,
    ) -> (r: JsonValue)
        ensures
            final(self).initialized,
            r@ == ok_response_of(
                id@,
                crate::protocol::initialize_result_of(
                    root_uri@,
                    version@,
                    crate::protocol::opt_string(index_store),
                    crate::protocol::opt_string(index_db),
                ),
            ),
            final(self).root == old(self).root,
            final(self).project_flag == old(self).project_flag,
            final(self).project_path == old(self).project_path,
            final(self).scheme == old(self).scheme,
            final(self).same_enumeration(*old(self)),
            final(self).same_caches(*old(self)),
    {
        let result = crate::protocol::initialize_result(root_uri, version, index_store, index_db);
        self.initialized = true;
        ok_response(id, result)
    }

    /// The staleness check of a refresh: when enumerated and a watched file
    /// changed (`current[i]` for `watched[i]`), drop the enumeration and the
    /// caches (keeping the identity) and return `true`, so the caller
    /// enumerates again; otherwise change nothing.
    pub fn begin_refresh(&mut self, current: &Vec<Option<Stamp>>) -> (r: bool)
        requires
            current@.len() == old(self).watched@.len(),
        ensures
            r == (old(self).enumerated && exists|i: int|
                0 <= i < current@.len() && current@[i] != #[trigger] old(self).watched@[i].1),
            !r ==> *final(self) == *old(self),
            r ==> final(self).is_fresh() && final(self).same_identity(*old(self)),
    {
        if self.refresh_needed(current) {
            self.invalidate();
            true
        } else {
            false
        }
    }

    /// The arguments a `synth` run prints for `file` routed to `key`.
    pub fn synth_output(&self, key: &TargetKey, file: &str) -> (r: Result<Vec<String>, String>)
        ensures
            match r {
                Ok(a) => synth_output_of(*self, key_view(*key), file@) == Ok::<Seq<Seq<char>>, Seq<char>>(strs_view(a@)),
                Err(e) => synth_output_of(*self, key_view(*key), file@) == Err::<Seq<Seq<char>>, Seq<char>>(e@),
            },
    {
        let ext = crate::synth::file_ext_lower_exec(file);
        if str_eq(ext.as_str(), "swift") {
            match self.target_swift_args(key) {
                Some(a) => Ok(a),
                None => Err(owned("synth: no Swift args (no .swift sources or settings unavailable)")),
            }
        } else {
            match self.target_settings(key) {
                Some(s) => {
                    let dirs = self.target_includes(key);
                    Ok(synthesize_clang_args(s, file, &dirs))
                },
                None => Err(owned("synth: settings unavailable for the routed target")),
            }
        }
    }

    /// The files to stat besides the pbxprojs (see `watch_candidates_of`);
    /// `entries[i]` are the entries of the `i`-th project dir.
    pub fn watch_candidates(&self, entries: &Vec<Vec<String>>) -> (r: Vec<String>)
        ensures
            strs_view(r@) == watch_candidates_of(
                entries@.map_values(|v: Vec<String>| strs_view(v@)),
                self.workspace_root@,
                strs_view(self.project_dirs@),
            ),
    {
        let ghost ev = entries@.map_values(|v: Vec<String>| strs_view(v@));
        let mut out: Vec<String> = Vec::new();
        let mut i: usize = 0;
        while i < entries.len()
            invariant
                i <= entries@.len(),
                ev == entries@.map_values(|v: Vec<String>| strs_view(v@)),
                strs_view(out@) == xcconfigs_of(ev.take(i as int)),
            decreases entries@.len() - i,
        {
            let es = &entries[i];
            let ghost sv = strs_view(es@);
            let ghost start = strs_view(out@);
            proof {
                assert(ev.take(i + 1).drop_last() =~= ev.take(i as int));
                assert(ev.take(i + 1).last() == sv);
            }
            let mut k: usize = 0;
            while k < es.len()
                invariant
                    k <= es@.len(),
                    sv == strs_view(es@),
                    strs_view(out@) == start + sv.take(k as int).filter(
                        |p: Seq<char>| extension_of(p) == Some("xcconfig"@),
                    ),
                decreases es@.len() - k,
            {
                proof {
                    assert(sv.take(k + 1).drop_last() =~= sv.take(k as int));
                    reveal(Seq::filter);
                }
                let ghost before = strs_view(out@);
                let is_xc = match extension(es[k].as_str()) {
                    Some(e) => str_eq(e.as_str(), "xcconfig"),
                    None => false,
                };
                if is_xc {
                    out.push(es[k].clone());
                    assert(strs_view(out@) =~= before.push(sv[k as int]));
                } else {
                    assert(strs_view(out@) =~= before);
                }
                k = k + 1;
            }
            assert(sv.take(es@.len() as int) =~= sv);
            i = i + 1;
        }
        assert(ev.take(entries@.len() as int) =~= ev);
        let ghost xs = strs_view(out@);
        out.push(join(self.workspace_root.as_str(), "Package.resolved"));
        let ghost pv = strs_view(self.project_dirs@);
        let ghost mid = strs_view(out@);
        let mut j: usize = 0;
        while j < self.project_dirs.len()
            invariant
                j <= self.project_dirs@.len(),
                pv == strs_view(self.project_dirs@),
                strs_view(out@) == mid + pv.take(j as int).map_values(|d: Seq<char>| join_path(d, "Package.resolved"@)),
            decreases self.project_dirs@.len() - j,
        {
            let ghost before = strs_view(out@);
            out.push(join(self.project_dirs[j].as_str(), "Package.resolved"));
            proof {
                assert(strs_view(out@) =~= before.push(join_path(pv[j as int], "Package.resolved"@)));
                assert(pv.take(j + 1).map_values(|d: Seq<char>| join_path(d, "Package.resolved"@)) =~= pv.take(
                    j as int,
                ).map_values(|d: Seq<char>| join_path(d, "Package.resolved"@)).push(join_path(pv[j as int], "Package.resolved"@)));
            }
            j = j + 1;
        }
        assert(pv.take(self.project_dirs@.len() as int) =~= pv);
        assert(strs_view(out@) =~= watch_candidates_of(ev, self.workspace_root@, pv));
        out
    }

    /// Where the primary target's index store would be (to be advertised
    /// once seen on disk; else the caller falls back to the largest store
    /// named after the workspace or a project).
    pub fn primary_store_candidate(&self) -> (r: Option<String>)
        ensures
            crate::protocol::opt_string(r) == primary_store_candidate_of(*self),
    {
        match self.primary_target() {
            None => None,
            Some(k) => match self.target_settings(&k) {
                Some(s) => crate::build_settings::derive_index_store_path(s),
                None => None,
            },
        }
    }
}

/// A routed `sourceKitOptions` answer is always a success response.
proof fn lemma_source_kit_reply_ok(
    settings: Seq<(TargetKey, Option<BuildSettings>)>,
    includes: Seq<(TargetKey, Vec<String>)>,
    swift: Seq<(TargetKey, Option<Vec<String>>)>,
    working_dir: Seq<char>,
    id: Json,
    key: Key,
    file: Seq<char>,
    is_swift: bool,
)
    ensures
        exists|res: Json| source_kit_reply_of(settings, includes, swift, working_dir, id, key, file, is_swift)
            == ok_response_of(id, res),
{
    let r = source_kit_reply_of(settings, includes, swift, working_dir, id, key, file, is_swift);
    if is_swift {
        match lookup_key(swift, key) {
            Some(Some(args)) => if args@.len() > 0 {
                assert(r == ok_response_of(id, compiler_options_of(strs_view(args@), working_dir)));
            } else {
                assert(r == ok_response_of(id, Json::Null));
            },
            _ => {
                assert(r == ok_response_of(id, Json::Null));
            },
        }
    } else {
        match lookup_key(settings, key) {
            Some(Some(s)) => {
                let dirs = match lookup_key(includes, key) {
                    Some(d) => strs_view(d@),
                    None => Seq::empty(),
                };
                let args = clang_args(s@, file, dirs);
                if args.len() > 0 {
                    assert(r == ok_response_of(id, compiler_options_of(args, working_dir)));
                } else {
                    assert(r == ok_response_of(id, Json::Null));
                }
            },
            _ => {
                assert(r == ok_response_of(id, Json::Null));
            },
        }
    }
}

// ── Laws ──

proof fn lemma_key_lt_transitive(a: Key, b: Key, c: Key)
    requires
        key_lt(a, b),
        key_lt(b, c),
    ensures
        key_lt(a, c),
{
    if lex_lt(a.0, b.0) && lex_lt(b.0, c.0) {
        crate::sort::lemma_lex_transitive(a.0, b.0, c.0);
    } else if lex_lt(a.0, b.0) {
    } else if lex_lt(b.0, c.0) {
    } else {
        crate::sort::lemma_lex_transitive(a.1, b.1, c.1);
    }
}

proof fn lemma_key_lt_irreflexive(a: Key)
    ensures
        !key_lt(a, a),
{
    crate::sort::lemma_lex_irreflexive(a.0);
    crate::sort::lemma_lex_irreflexive(a.1);
}

/// The least key is one of the keys, and no key is less than it.
pub proof fn lemma_min_key(s: Seq<Key>)
    requires
        s.len() > 0,
    ensures
        s.contains(min_key(s)),
        forall|i: int| 0 <= i < s.len() ==> !key_lt(#[trigger] s[i], min_key(s)),
    decreases s.len(),
{
    if s.len() == 1 {
        lemma_key_lt_irreflexive(s[0]);
        assert(s[0] == min_key(s));
    } else {
        let p = s.drop_last();
        lemma_min_key(p);
        let m0 = min_key(p);
        let j = choose|j: int| 0 <= j < p.len() && p[j] == m0;
        assert(s[j] == m0);
        if key_lt(s.last(), m0) {
            assert(s[s.len() - 1] == s.last());
            lemma_key_lt_irreflexive(s.last());
            assert forall|i: int| 0 <= i < s.len() implies !key_lt(#[trigger] s[i], min_key(s)) by {
                if i < s.len() - 1 {
                    assert(s[i] == p[i]);
                    if key_lt(s[i], s.last()) {
                        lemma_key_lt_transitive(s[i], s.last(), m0);
                    }
                }
            }
        } else {
            assert forall|i: int| 0 <= i < s.len() implies !key_lt(#[trigger] s[i], min_key(s)) by {
                if i < s.len() - 1 {
                    assert(s[i] == p[i]);
                }
            }
        }
    }
}

/// Law: a file compiled by several targets routes to the least of them
/// (by project path, then name), whatever order they were recorded in.
pub proof fn lemma_route_least_owner(ft: Seq<(Seq<char>, Seq<Key>)>, ordered: Seq<Key>, file: Seq<char>)
    requires
        lookup_file(ft, file) matches Some(ts) && ts.len() > 0,
    ensures
        route_of(ft, ordered, file) matches Some(k) && lookup_file(ft, file)->0.contains(k) && forall|i: int|
            0 <= i < lookup_file(ft, file)->0.len() ==> !key_lt(#[trigger] lookup_file(ft, file)->0[i], k),
{
    lemma_min_key(lookup_file(ft, file)->0);
}

/// Law: the primary target is the least target.
pub proof fn lemma_primary_least(ordered: Seq<Key>)
    requires
        ordered.len() > 0,
    ensures
        primary_of(ordered) matches Some(k) && ordered.contains(k) && forall|i: int|
            0 <= i < ordered.len() ==> !key_lt(#[trigger] ordered[i], k),
{
    lemma_min_key(ordered);
}

/// Keys in strictly increasing order.
pub open spec fn keys_sorted(s: Seq<Key>) -> bool {
    forall|i: int, j: int| 0 <= i < j < s.len() ==> key_lt(#[trigger] s[i], #[trigger] s[j])
}

/// The least of sorted keys is the first.
proof fn lemma_min_sorted(s: Seq<Key>)
    requires
        s.len() > 0,
        keys_sorted(s),
    ensures
        min_key(s) == s[0],
    decreases s.len(),
{
    if s.len() > 1 {
        let p = s.drop_last();
        assert forall|i: int, j: int| 0 <= i < j < p.len() implies key_lt(#[trigger] p[i], #[trigger] p[j]) by {
            assert(p[i] == s[i] && p[j] == s[j]);
        }
        lemma_min_sorted(p);
        assert(p[0] == s[0]);
        assert(key_lt(s[0], s[s.len() - 1]));
        if key_lt(s.last(), s[0]) {
            lemma_key_lt_transitive(s[0], s.last(), s[0]);
            lemma_key_lt_irreflexive(s[0]);
        }
    }
}

/// The keys owning a file are keys of `s`, and in `s`'s order.
proof fn lemma_keys_owning_sorted(s: Seq<Key>, file: Seq<char>)
    requires
        keys_sorted(s),
    ensures
        keys_sorted(keys_owning(s, file)),
        forall|x: Key| keys_owning(s, file).contains(x) ==> s.contains(x),
    decreases s.len(),
{
    if s.len() > 0 {
        let p = s.drop_last();
        assert forall|i: int, j: int| 0 <= i < j < p.len() implies key_lt(#[trigger] p[i], #[trigger] p[j]) by {
            assert(p[i] == s[i] && p[j] == s[j]);
        }
        lemma_keys_owning_sorted(p, file);
        let o = keys_owning(p, file);
        assert forall|x: Key| o.contains(x) implies s.contains(x) && key_lt(x, s.last()) by {
            assert(p.contains(x));
            let q = choose|q: int| 0 <= q < p.len() && p[q] == x;
            assert(p[q] == s[q]);
            assert(s[q] == x);
            assert(key_lt(s[q], s[s.len() - 1]));
        }
        if owns_by_prefix(s.last(), file) {
            let r = o + seq![s.last()];
            assert forall|i: int, j: int| 0 <= i < j < r.len() implies key_lt(#[trigger] r[i], #[trigger] r[j]) by {
                if j == r.len() - 1 {
                    assert(r[i] == o[i]);
                    assert(o.contains(o[i]));
                } else {
                    assert(r[i] == o[i] && r[j] == o[j]);
                }
            }
            assert forall|x: Key| r.contains(x) implies s.contains(x) by {
                let q = choose|q: int| 0 <= q < r.len() && r[q] == x;
                if q < o.len() {
                    assert(o[q] == x);
                    assert(o.contains(x));
                } else {
                    assert(s[s.len() - 1] == x);
                }
            }
        } else {
            assert(keys_owning(s, file) =~= o);
        }
    }
}

/// The targets found for a file are those of one of the entries.
proof fn lemma_lookup_file_entry(ft: Seq<(Seq<char>, Seq<Key>)>, file: Seq<char>)
    requires
        lookup_file(ft, file) is Some,
    ensures
        exists|e: int| 0 <= e < ft.len() && lookup_file(ft, file) == Some(#[trigger] ft[e].1),
    decreases ft.len(),
{
    if comps(ft[0].0) != comps(file) {
        lemma_lookup_file_entry(ft.drop_first(), file);
        let e = choose|e: int| 0 <= e < ft.drop_first().len() && lookup_file(ft.drop_first(), file) == Some(
            #[trigger] ft.drop_first()[e].1,
        );
        assert(ft[e + 1] == ft.drop_first()[e]);
    } else {
        assert(lookup_file(ft, file) == Some(ft[0].1));
    }
}

/// Law: with the target list and every file's target list sorted (as an
/// enumeration leaves them in order) and every file's targets enumerated,
/// a file routes to the first target compiling it; else to the first
/// target whose project dir contains it; else to the first target; the
/// route is an enumerated target, and there is none only when no target
/// was enumerated.
pub proof fn lemma_route_sorted(ft: Seq<(Seq<char>, Seq<Key>)>, ordered: Seq<Key>, file: Seq<char>)
    requires
        keys_sorted(ordered),
        forall|e: int| 0 <= e < ft.len() ==> keys_sorted(#[trigger] ft[e].1),
        forall|e: int, q: int| 0 <= e < ft.len() && 0 <= q < ft[e].1.len() ==> ordered.contains(#[trigger] ft[e].1[q]),
    ensures
        route_of(ft, ordered, file) is None <==> ordered.len() == 0,
        route_of(ft, ordered, file) matches Some(k) ==> {
            &&& ordered.contains(k)
            &&& if lookup_file(ft, file) matches Some(ts) && ts.len() > 0 {
                k == lookup_file(ft, file)->0[0]
            } else if keys_owning(ordered, file).len() > 0 {
                k == keys_owning(ordered, file)[0]
            } else {
                k == ordered[0]
            }
        },
{
    lemma_keys_owning_sorted(ordered, file);
    match lookup_file(ft, file) {
        Some(ts) => {
            lemma_lookup_file_entry(ft, file);
            let e = choose|e: int| 0 <= e < ft.len() && lookup_file(ft, file) == Some(#[trigger] ft[e].1);
            if ts.len() > 0 {
                lemma_min_sorted(ts);
                assert(ordered.contains(ft[e].1[0]));
            }
        },
        None => {},
    }
    let ko = keys_owning(ordered, file);
    if ko.len() > 0 {
        lemma_min_sorted(ko);
        assert(ko.contains(ko[0]));
    }
    if ordered.len() > 0 {
        lemma_min_sorted(ordered);
        assert(ordered.contains(ordered[0]));
    } else {
        assert(ko.len() == 0) by {
            if ko.len() > 0 {
                assert(ko.contains(ko[0]));
            }
        }
    }
}

/// The scan roots after the shared dirs keep the starting roots, add only
/// shared dirs that touch no project dir, never two equal paths, and every
/// shared dir that touches no project dir is among them.
proof fn lemma_scan_roots_from(roots: Seq<Seq<char>>, shared: Seq<Seq<char>>, pdirs: Seq<Seq<char>>)
    requires
        forall|i: int, j: int| 0 <= i < j < roots.len() ==> comps(#[trigger] roots[i]) != comps(#[trigger] roots[j]),
    ensures
        ({
            let r = scan_roots_from(roots, shared, pdirs);
            &&& r.len() >= roots.len()
            &&& r.subrange(0, roots.len() as int) == roots
            &&& forall|i: int| roots.len() <= i < r.len() ==> shared.contains(#[trigger] r[i]) && !touches_project(r[i], pdirs)
            &&& forall|i: int, j: int| 0 <= i < j < r.len() ==> comps(#[trigger] r[i]) != comps(#[trigger] r[j])
            &&& forall|k: int| 0 <= k < shared.len() && !touches_project(#[trigger] shared[k], pdirs) ==> contains_path(r, shared[k])
        }),
    decreases shared.len(),
{
    if shared.len() > 0 {
        let sp = shared.drop_last();
        lemma_scan_roots_from(roots, sp, pdirs);
        let r0 = scan_roots_from(roots, sp, pdirs);
        let d = shared.last();
        let r = scan_roots_from(roots, shared, pdirs);
        assert forall|x: Seq<char>| sp.contains(x) implies shared.contains(x) by {
            let q = choose|q: int| 0 <= q < sp.len() && sp[q] == x;
            assert(shared[q] == sp[q]);
        }
        assert(shared[shared.len() - 1] == d);
        if !touches_project(d, pdirs) && !contains_path(r0, d) {
            assert(r == r0.push(d));
            assert(r.subrange(0, roots.len() as int) =~= r0.subrange(0, roots.len() as int));
            assert forall|i: int| roots.len() <= i < r.len() implies shared.contains(#[trigger] r[i]) && !touches_project(r[i], pdirs) by {
                if i < r0.len() {
                    assert(r[i] == r0[i]);
                    assert(sp.contains(r0[i]));
                }
            }
            assert forall|i: int, j: int| 0 <= i < j < r.len() implies comps(#[trigger] r[i]) != comps(#[trigger] r[j]) by {
                assert(r[i] == r0[i]);
                if j < r0.len() {
                    assert(r[j] == r0[j]);
                } else {
                    assert(r[j] == d);
                    if comps(r0[i]) == comps(d) {
                        assert(contains_path(r0, d));
                    }
                }
            }
            assert forall|k: int| 0 <= k < shared.len() && !touches_project(#[trigger] shared[k], pdirs) implies contains_path(r, shared[k]) by {
                if k < sp.len() {
                    assert(sp[k] == shared[k]);
                    assert(contains_path(r0, sp[k]));
                    let q = choose|q: int| 0 <= q < r0.len() && comps(#[trigger] r0[q]) == comps(sp[k]);
                    assert(r[q] == r0[q]);
                } else {
                    assert(r[r.len() - 1] == d);
                }
            }
        } else {
            assert(r == r0);
            assert forall|i: int| roots.len() <= i < r.len() implies shared.contains(#[trigger] r[i]) && !touches_project(r[i], pdirs) by {
                assert(sp.contains(r0[i]));
            }
            assert forall|k: int| 0 <= k < shared.len() && !touches_project(#[trigger] shared[k], pdirs) implies contains_path(r, shared[k]) by {
                if k < sp.len() {
                    assert(sp[k] == shared[k]);
                }
            }
        }
    }
}

/// Law: a target's scan roots are its project dir, then shared dirs that
/// neither are, contain, nor lie inside a project dir, no path twice; and
/// every such shared dir is among them.
pub proof fn lemma_scan_roots_shape(proj: Seq<char>, shared: Seq<Seq<char>>, pdirs: Seq<Seq<char>>)
    ensures
        ({
            let r = scan_roots_of(proj, shared, pdirs);
            &&& r.len() >= 1
            &&& r[0] == project_dir_of(proj)
            &&& forall|i: int| 1 <= i < r.len() ==> shared.contains(#[trigger] r[i]) && !touches_project(r[i], pdirs)
            &&& forall|i: int, j: int| 0 <= i < j < r.len() ==> comps(#[trigger] r[i]) != comps(#[trigger] r[j])
            &&& forall|k: int| 0 <= k < shared.len() && !touches_project(#[trigger] shared[k], pdirs) ==> contains_path(r, shared[k])
        }),
{
    let roots = seq![project_dir_of(proj)];
    lemma_scan_roots_from(roots, shared, pdirs);
    let r = scan_roots_of(proj, shared, pdirs);
    assert(r.subrange(0, 1)[0] == r[0]);
}

/// Law: a `sourceKitOptions` document is answered with clang arguments
/// exactly when its path's extension, lower-cased, is one of `c`, `m`,
/// `mm`, `cc`, `cpp`, `cxx`, `h`, `hpp`; with Swift arguments for `swift`;
/// and with `null` for any other extension, or without a URI.
pub proof fn lemma_source_kit_extensions(u: Seq<char>)
    ensures
        source_kit_file_of(None) is None,
        ({
            let p = crate::uri::uri_to_path_of(u);
            let e = crate::synth::file_ext_lower(p);
            let c_family = e == "c"@ || e == "m"@ || e == "mm"@ || e == "cc"@ || e == "cpp"@ || e == "cxx"@ || e
                == "h"@ || e == "hpp"@;
            &&& c_family ==> source_kit_file_of(Some(u)) == Some((p, false))
            &&& e == "swift"@ ==> source_kit_file_of(Some(u)) == Some((p, true))
            &&& !c_family && e != "swift"@ ==> source_kit_file_of(Some(u)) is None
        }),
{
    reveal_strlit("swift");
    reveal_strlit("c");
    reveal_strlit("m");
    reveal_strlit("mm");
    reveal_strlit("cc");
    reveal_strlit("cpp");
    reveal_strlit("cxx");
    reveal_strlit("h");
    reveal_strlit("hpp");
    let p = crate::uri::uri_to_path_of(u);
    let e = crate::synth::file_ext_lower(p);
    if e == "swift"@ {
        assert(e.len() == 5);
        assert(!c_family_ext(e));
    } else {
        assert(c_family_ext(e) == (e == "c"@ || e == "m"@ || e == "mm"@ || e == "cc"@ || e == "cpp"@ || e == "cxx"@
            || e == "h"@ || e == "hpp"@));
    }
}

} // verus!
