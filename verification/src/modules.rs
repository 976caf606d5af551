//! The module server's catalogue: which directories are modules, under which names, in which
//! order, and which one is served at `/`.
//!
//! A module is served under the name its `package.json` declares, exactly as written, whatever its
//! scope; only when no name is declared does the directory name stand in. The filesystem is probed by
//! the caller, which hands over what it found as [`ScannedPath`]s.

use vstd::prelude::*;
use crate::path_order::{is_sorted_unique_of, sorted_unique_paths};
use crate::paths::{file_name, join, same_path, same_path_exec};
use crate::text::{chars_of, lex_le, lex_le_exec, lemma_lex_le_total, lemma_lex_le_transitive, string_from_chars};

verus! {

/// Modules config: the directories to scan, the module served at `/`, and whether to also serve what
/// the mise config in scope staged.
pub struct ModulesConfig {
    pub paths: Vec<String>,
    /// Name of the module served at `/`, exactly as its `package.json` declares it; empty for none.
    pub root: String,
    pub mise_discover: bool,
}

impl ModulesConfig {
    /// Config that serves exactly `paths`, which is what a caller naming directories outright wants.
    pub fn new(paths: Vec<String>, root: String) -> (r: ModulesConfig)
        ensures
            r.paths@ == paths@,
            r.root@ == root@,
            !r.mise_discover,
    {
        ModulesConfig { paths, root, mise_discover: false }
    }
}

pub open spec fn path_texts(v: Seq<String>) -> Seq<Seq<char>> {
    v.map_values(|p: String| p@)
}

/// The directories to scan: the configured paths as given; or, when the mise-staged modules are
/// served too, the configured and staged directories together, sorted by `Path`'s ordering with `==`
/// duplicates removed (a directory reached both ways is scanned once).
pub fn module_paths(config: &ModulesConfig, staged: &Vec<String>) -> (r: Vec<String>)
    ensures
        !config.mise_discover ==> path_texts(r@) == path_texts(config.paths@),
        config.mise_discover ==> is_sorted_unique_of(path_texts(r@), path_texts(config.paths@ + staged@)),
{
    let mut all: Vec<String> = Vec::new();
    let mut k: usize = 0;
    while k < config.paths.len()
        invariant
            k <= config.paths@.len(),
            path_texts(all@) == path_texts(config.paths@.take(k as int)),
        decreases config.paths@.len() - k,
    {
        let ghost before = all@;
        all.push(config.paths[k].clone());
        proof {
            assert(all@ == before.push(config.paths@[k as int]));
            assert(config.paths@.take(k + 1) =~= config.paths@.take(k as int).push(config.paths@[k as int]));
            assert(path_texts(all@) =~= path_texts(before).push(config.paths@[k as int]@));
            assert(path_texts(all@) =~= path_texts(config.paths@.take(k + 1)));
        }
        k = k + 1;
    }
    assert(config.paths@.take(config.paths@.len() as int) =~= config.paths@);
    if !config.mise_discover {
        return all;
    }
    let mut m: usize = 0;
    while m < staged.len()
        invariant
            m <= staged@.len(),
            path_texts(all@) == path_texts(config.paths@ + staged@.take(m as int)),
        decreases staged@.len() - m,
    {
        let ghost before = all@;
        all.push(staged[m].clone());
        proof {
            assert(all@ == before.push(staged@[m as int]));
            assert(config.paths@ + staged@.take(m + 1) =~= (config.paths@ + staged@.take(m as int)).push(staged@[m as int]));
            assert(path_texts(all@) =~= path_texts(before).push(staged@[m as int]@));
            assert(path_texts(all@) =~= path_texts(config.paths@ + staged@.take(m + 1)));
        }
        m = m + 1;
    }
    assert(staged@.take(staged@.len() as int) =~= staged@);
    let r = sorted_unique_paths(&all);
    assert(path_texts(r@) == r@.map_values(|p: String| p@));
    assert(path_texts(all@) == all@.map_values(|p: String| p@));
    r
}

/// The `name` a `package.json` text declares: the string member `name` of the JSON object the text
/// parses to, or `None` when the text is not JSON or has no string `name`.
pub uninterp spec fn declared_package_name(text: Seq<char>) -> Option<Seq<char>>;

/// Calls `serde_json::from_str` into a `serde_json::Value`, then reads `name` with `Value::get` and
/// `as_str`; the outcome is named by `declared_package_name`.
#[verifier::external_body]
fn package_json_name(text: &str) -> (r: Option<String>)
    ensures
        opt_view(r) == declared_package_name(text@),
{
    let value: serde_json::Value = serde_json::from_str(text).ok()?;
    Some(value.get("name")?.as_str()?.to_string())
}

/// The package name a `package.json` declares, exactly as written, given the file's text (`None` when
/// it could not be read).
pub fn read_package_name(contents: Option<String>) -> (r: Option<String>)
    ensures
        opt_view(r) == match contents {
            Some(text) => declared_package_name(text@),
            None => None,
        },
{
    match contents {
        Some(text) => package_json_name(text.as_str()),
        None => None,
    }
}

/// What a directory holds, as far as module discovery cares.
pub enum DirProbe {
    /// `<dir>/pkg` is a directory; `declared` is the `name` its `package.json` declares, if readable.
    PkgDir { declared: Option<String> },
    /// `<dir>/package.json` is a file; `declared` is its `name`, if readable.
    PackageJson { declared: Option<String> },
    /// Neither.
    Neither,
}

/// One entry of a configured directory that is not itself a module.
pub struct EntryScan {
    /// The entry's path (`<configured dir>/<name>`).
    pub path: String,
    /// The entry's file name, when it is valid UTF-8.
    pub name: Option<String>,
    /// Whether the entry is a directory (following symlinks).
    pub is_dir: bool,
    pub probe: DirProbe,
}

/// One configured path and what it holds.
pub struct ScannedPath {
    pub path: String,
    pub probe: DirProbe,
    /// The entries of the path when it is neither kind of module and is a readable directory.
    pub entries: Option<Vec<EntryScan>>,
}

/// A module as (name, served directory).
pub type ModuleView = (Seq<char>, Seq<char>);

pub open spec fn pkg_rel() -> Seq<char> {
    seq!['p', 'k', 'g']
}

pub open spec fn opt_view(o: Option<String>) -> Option<Seq<char>> {
    match o {
        Some(s) => Some(s@),
        None => None,
    }
}

/// The declared name, or else the fallback name.
pub open spec fn declared_or(declared: Option<String>, fallback: Option<Seq<char>>) -> Option<Seq<char>> {
    match declared {
        Some(n) => Some(n@),
        None => fallback,
    }
}

/// The module (if any) that a directory `dir` with probe `probe` provides.
pub open spec fn probed_module(probe: DirProbe, dir: Seq<char>, fallback: Option<Seq<char>>) -> Seq<ModuleView> {
    match probe {
        DirProbe::PkgDir { declared } => match declared_or(declared, fallback) {
            Some(n) => seq![(n, join(dir, pkg_rel()))],
            None => Seq::empty(),
        },
        DirProbe::PackageJson { declared } => match declared_or(declared, fallback) {
            Some(n) => seq![(n, dir)],
            None => Seq::empty(),
        },
        DirProbe::Neither => Seq::empty(),
    }
}

/// `p` names the same path as one of the configured paths.
pub open spec fn is_configured(configured: Seq<Seq<char>>, p: Seq<char>) -> bool {
    exists|k: int| 0 <= k < configured.len() && same_path(#[trigger] configured[k], p)
}

/// The modules found among the entries of a configured directory, in entry order. An entry that is
/// itself a configured path is left to its own scan.
pub open spec fn entry_modules(entries: Seq<EntryScan>, configured: Seq<Seq<char>>) -> Seq<ModuleView>
    decreases entries.len(),
{
    if entries.len() == 0 {
        Seq::empty()
    } else {
        let e = entries.last();
        entry_modules(entries.drop_last(), configured) + if e.is_dir && !is_configured(configured, e.path@) {
            probed_module(e.probe, e.path@, opt_view(e.name))
        } else {
            Seq::empty()
        }
    }
}

/// The modules one configured path contributes.
pub open spec fn path_modules(sp: ScannedPath, configured: Seq<Seq<char>>) -> Seq<ModuleView> {
    match sp.probe {
        DirProbe::Neither => match sp.entries {
            Some(es) => entry_modules(es@, configured),
            None => Seq::empty(),
        },
        _ => probed_module(sp.probe, sp.path@, file_name(sp.path@)),
    }
}

pub open spec fn configured_paths(scans: Seq<ScannedPath>) -> Seq<Seq<char>> {
    scans.map_values(|sp: ScannedPath| sp.path@)
}

/// The modules of the scans `scans[..n]`, in scan order, against the configured set `configured`.
pub open spec fn gathered(scans: Seq<ScannedPath>, configured: Seq<Seq<char>>) -> Seq<ModuleView>
    decreases scans.len(),
{
    if scans.len() == 0 {
        Seq::empty()
    } else {
        gathered(scans.drop_last(), configured) + path_modules(scans.last(), configured)
    }
}

/// Insert `x` into the name-sorted `s` after every module whose name is not greater (so the sort is
/// stable).
pub open spec fn insert_by_name(x: ModuleView, s: Seq<ModuleView>) -> Seq<ModuleView>
    decreases s.len(),
{
    if s.len() == 0 {
        seq![x]
    } else if lex_le(s.last().0, x.0) {
        s.push(x)
    } else {
        insert_by_name(x, s.drop_last()).push(s.last())
    }
}

/// `s` stably sorted by name in `str`'s order.
pub open spec fn sort_by_name(s: Seq<ModuleView>) -> Seq<ModuleView>
    decreases s.len(),
{
    if s.len() == 0 {
        Seq::empty()
    } else {
        insert_by_name(s.last(), sort_by_name(s.drop_last()))
    }
}

/// The modules the scans provide, stably sorted by name.
pub open spec fn spec_list_modules(scans: Seq<ScannedPath>) -> Seq<ModuleView> {
    sort_by_name(gathered(scans, configured_paths(scans)))
}

pub open spec fn pairs_view(v: Seq<(String, String)>) -> Seq<ModuleView> {
    v.map_values(|p: (String, String)| (p.0@, p.1@))
}

proof fn lemma_insert_at(x: ModuleView, s: Seq<ModuleView>, j: int)
    requires
        0 <= j <= s.len(),
        forall|k: int| j <= k < s.len() ==> !lex_le(#[trigger] s[k].0, x.0),
        j > 0 ==> lex_le(s[j - 1].0, x.0),
    ensures
        insert_by_name(x, s) == s.insert(j, x),
    decreases s.len(),
{
    if s.len() == j {
        assert(s.insert(j, x) =~= s.push(x));
    } else {
        let t = s.drop_last();
        assert forall|k: int| j <= k < t.len() implies !lex_le(#[trigger] t[k].0, x.0) by {
            assert(t[k] == s[k]);
        }
        lemma_insert_at(x, t, j);
        assert(t.insert(j, x).push(s.last()) =~= s.insert(j, x));
    }
}

pub open spec fn vec_views(v: Seq<Vec<char>>) -> Seq<Seq<char>> {
    v.map_values(|c: Vec<char>| c@)
}

pub open spec fn opt_chars(o: Option<Vec<char>>) -> Option<Seq<char>> {
    match o {
        Some(v) => Some(v@),
        None => None,
    }
}

/// The module pair as a (name, dir) view.
fn pair_of(name: &Vec<char>, dir: &Vec<char>) -> (r: (String, String))
    ensures
        r.0@ == name@,
        r.1@ == dir@,
{
    (string_from_chars(name), string_from_chars(dir))
}

/// The module a probed directory provides, pushed onto `out`.
fn push_probed(out: &mut Vec<(String, String)>, probe: &DirProbe, dir: &str, fallback: Option<Vec<char>>)
    ensures
        pairs_view(final(out)@) == pairs_view(old(out)@) + probed_module(*probe, dir@, opt_chars(fallback)),
{
    let ghost fb = opt_chars(fallback);
    let (declared, with_pkg) = match probe {
        DirProbe::PkgDir { declared } => (declared, true),
        DirProbe::PackageJson { declared } => (declared, false),
        DirProbe::Neither => {
            assert(pairs_view(out@) =~= pairs_view(out@) + Seq::<ModuleView>::empty());
            return;
        },
    };
    let name: Vec<char> = match declared {
        Some(n) => chars_of(n.as_str()),
        None => match fallback {
            Some(f) => f,
            None => {
                assert(pairs_view(out@) =~= pairs_view(out@) + Seq::<ModuleView>::empty());
                return;
            },
        },
    };
    let d = chars_of(dir);
    let served = if with_pkg {
        let mut v: Vec<char> = Vec::new();
        let mut i: usize = 0;
        while i < d.len()
            invariant
                i <= d.len(),
                v@ == d@.take(i as int),
            decreases d.len() - i,
        {
            v.push(d[i]);
            i = i + 1;
            assert(v@ =~= d@.take(i as int));
        }
        assert(d@.take(d.len() as int) =~= d@);
        if !(d.len() == 0 || d[d.len() - 1] == '/') {
            v.push('/');
        }
        v.push('p');
        v.push('k');
        v.push('g');
        assert(v@ =~= join(dir@, pkg_rel()));
        v
    } else {
        d
    };
    let p = pair_of(&name, &served);
    let ghost before = out@;
    out.push(p);
    assert(pairs_view(out@) =~= pairs_view(before) + probed_module(*probe, dir@, fb));
}

/// Whether `p` names the same path as one of `configured`.
fn is_configured_exec(configured: &Vec<Vec<char>>, p: &Vec<char>) -> (r: bool)
    ensures
        r == is_configured(vec_views(configured@), p@),
{
    let ghost cv = vec_views(configured@);
    let mut k: usize = 0;
    while k < configured.len()
        invariant
            k <= configured.len(),
            cv == vec_views(configured@),
            forall|m: int| 0 <= m < k ==> !same_path(#[trigger] cv[m], p@),
        decreases configured.len() - k,
    {
        if same_path_exec(&configured[k], p) {
            assert(same_path(cv[k as int], p@));
            return true;
        }
        k = k + 1;
    }
    false
}

/// The modules among a configured directory's entries.
fn push_entry_modules(out: &mut Vec<(String, String)>, entries: &Vec<EntryScan>, configured: &Vec<Vec<char>>)
    ensures
        pairs_view(final(out)@) == pairs_view(old(out)@) + entry_modules(
            entries@,
            vec_views(configured@),
        ),
{
    let ghost cv = vec_views(configured@);
    let ghost start = pairs_view(out@);
    let mut i: usize = 0;
    assert(entries@.take(0) =~= Seq::<EntryScan>::empty());
    while i < entries.len()
        invariant
            i <= entries.len(),
            cv == vec_views(configured@),
            pairs_view(out@) == start + entry_modules(entries@.take(i as int), cv),
        decreases entries.len() - i,
    {
        let e = &entries[i];
        let p = chars_of(e.path.as_str());
        assert(entries@.take(i + 1).drop_last() =~= entries@.take(i as int));
        assert(entries@.take(i + 1).last() == entries@[i as int]);
        if e.is_dir && !is_configured_exec(configured, &p) {
            let fallback = match &e.name {
                Some(n) => Some(chars_of(n.as_str())),
                None => None,
            };
            push_probed(out, &e.probe, e.path.as_str(), fallback);
        } else {
            assert(pairs_view(out@) =~= pairs_view(out@) + Seq::<ModuleView>::empty());
        }
        i = i + 1;
        assert(pairs_view(out@) =~= start + entry_modules(entries@.take(i as int), cv));
    }
    assert(entries@.take(entries.len() as int) =~= entries@);
}

/// The file name of the path text `p` (its last component, unless that is `..` or there is none).
fn file_name_of(p: &str) -> (r: Option<Vec<char>>)
    ensures
        match r {
            Some(n) => file_name(p@) == Some(n@),
            None => file_name(p@) is None,
        },
{
    let v = chars_of(p);
    match crate::paths::file_name_bounds(&v) {
        Some((a, b)) => {
            let mut n: Vec<char> = Vec::new();
            let mut i = a;
            while i < b
                invariant
                    a <= i <= b <= v.len(),
                    n@ == v@.subrange(a as int, i as int),
                decreases b - i,
            {
                n.push(v[i]);
                i = i + 1;
                assert(n@ =~= v@.subrange(a as int, i as int));
            }
            Some(n)
        },
        None => None,
    }
}

/// Insert `x` into the name-sorted `out` after every module whose name is not greater.
fn insert_sorted(out: &mut Vec<(String, String)>, x: (String, String))
    ensures
        pairs_view(final(out)@) == insert_by_name((x.0@, x.1@), pairs_view(old(out)@)),
{
    let ghost s = pairs_view(out@);
    let ghost xv = (x.0@, x.1@);
    let xn = chars_of(x.0.as_str());
    let mut j = out.len();
    while j > 0 && !lex_le_exec(&chars_of(out[j - 1].0.as_str()), &xn)
        invariant
            j <= out.len(),
            s == pairs_view(out@),
            xn@ == xv.0,
            forall|k: int| j <= k < s.len() ==> !lex_le(#[trigger] s[k].0, xv.0),
        decreases j,
    {
        j = j - 1;
    }
    proof {
        lemma_insert_at(xv, s, j as int);
    }
    out.insert(j, x);
    assert(pairs_view(out@) =~= s.insert(j as int, xv));
}

/// Scan results to modules: every configured path in order (a module itself, or a directory whose
/// entries are), each named by its `package.json` or else its directory name, stably sorted by name.
pub fn list_modules(scans: &Vec<ScannedPath>) -> (r: Vec<(String, String)>)
    ensures
        pairs_view(r@) == spec_list_modules(scans@),
{
    let mut configured: Vec<Vec<char>> = Vec::new();
    let mut i: usize = 0;
    while i < scans.len()
        invariant
            i <= scans.len(),
            configured@.len() == i,
            vec_views(configured@) == configured_paths(scans@.take(i as int)),
        decreases scans.len() - i,
    {
        let ghost before = configured@;
        let c = chars_of(scans[i].path.as_str());
        configured.push(c);
        assert(configured@[i as int]@ == scans@[i as int].path@);
        assert forall|m: int| 0 <= m < i + 1 implies #[trigger] vec_views(configured@)[m]
            == configured_paths(scans@.take(i + 1))[m] by {
            if m < i {
                assert(vec_views(before)[m] == configured_paths(scans@.take(i as int))[m]);
            }
        }
        i = i + 1;
        assert(vec_views(configured@) =~= configured_paths(scans@.take(i as int)));
    }
    assert(scans@.take(scans.len() as int) =~= scans@);
    let ghost cv = configured_paths(scans@);
    let mut found: Vec<(String, String)> = Vec::new();
    let mut i: usize = 0;
    assert(scans@.take(0) =~= Seq::<ScannedPath>::empty());
    while i < scans.len()
        invariant
            i <= scans.len(),
            cv == configured_paths(scans@),
            vec_views(configured@) == cv,
            pairs_view(found@) == gathered(scans@.take(i as int), cv),
        decreases scans.len() - i,
    {
        let sp = &scans[i];
        assert(scans@.take(i + 1).drop_last() =~= scans@.take(i as int));
        assert(scans@.take(i + 1).last() == scans@[i as int]);
        match &sp.probe {
            DirProbe::Neither => match &sp.entries {
                Some(es) => push_entry_modules(&mut found, es, &configured),
                None => {
                    assert(pairs_view(found@) =~= pairs_view(found@) + Seq::<ModuleView>::empty());
                },
            },
            _ => {
                let fallback = file_name_of(sp.path.as_str());
                push_probed(&mut found, &sp.probe, sp.path.as_str(), fallback);
            },
        }
        i = i + 1;
    }
    assert(scans@.take(scans.len() as int) =~= scans@);
    let mut sorted: Vec<(String, String)> = Vec::new();
    let mut k: usize = 0;
    let ghost g = pairs_view(found@);
    assert(g.take(0) =~= Seq::<ModuleView>::empty());
    while k < found.len()
        invariant
            k <= found.len(),
            g == pairs_view(found@),
            pairs_view(sorted@) == sort_by_name(g.take(k as int)),
        decreases found.len() - k,
    {
        let x = (found[k].0.clone(), found[k].1.clone());
        assert(g.take(k + 1).drop_last() =~= g.take(k as int));
        assert(g.take(k + 1).last() == g[k as int]);
        insert_sorted(&mut sorted, x);
        k = k + 1;
    }
    assert(g.take(found.len() as int) =~= g);
    sorted
}

/// Names are sorted in `str`'s order.
pub open spec fn sorted_by_name(s: Seq<ModuleView>) -> bool {
    forall|i: int, j: int| 0 <= i < j < s.len() ==> lex_le(#[trigger] s[i].0, #[trigger] s[j].0)
}

proof fn lemma_insert_keeps_sorted(x: ModuleView, s: Seq<ModuleView>)
    requires
        sorted_by_name(s),
    ensures
        sorted_by_name(insert_by_name(x, s)),
        insert_by_name(x, s).to_multiset() == s.to_multiset().insert(x),
    decreases s.len(),
{
    broadcast use vstd::seq_lib::group_seq_properties;
    if s.len() == 0 {
        assert(insert_by_name(x, s) =~= seq![x]);
    } else if lex_le(s.last().0, x.0) {
        let r = s.push(x);
        assert forall|i: int, j: int| 0 <= i < j < r.len() implies lex_le(#[trigger] r[i].0, #[trigger] r[j].0) by {
            if j == s.len() {
                if i < s.len() - 1 {
                    lemma_lex_le_transitive(s[i].0, s.last().0, x.0);
                }
            }
        }
    } else {
        let t = s.drop_last();
        assert(sorted_by_name(t));
        lemma_insert_keeps_sorted(x, t);
        let it = insert_by_name(x, t);
        let r = it.push(s.last());
        lemma_lex_le_total(s.last().0, x.0);
        assert forall|i: int, j: int| 0 <= i < j < r.len() implies lex_le(#[trigger] r[i].0, #[trigger] r[j].0) by {
            if j == it.len() {
                // Every element of `it` is `x` or an element of `t`, each at most `s.last()`.
                assert(it.to_multiset().count(r[i]) > 0) by {
                    assert(it.contains(it[i]));
                }
                assert(it.to_multiset() == t.to_multiset().insert(x));
                if r[i] != x {
                    assert(t.to_multiset().count(r[i]) > 0);
                    assert(t.contains(r[i]));
                    let m = choose|m: int| 0 <= m < t.len() && t[m] == r[i];
                    assert(s[m] == t[m]);
                }
            }
        }
        assert(s =~= t.push(s.last()));
    }
}

/// The module list is sorted by name and holds exactly the gathered modules: sorting neither drops,
/// duplicates nor invents an entry.
pub proof fn listed_modules_are_sorted_permutation(s: Seq<ModuleView>)
    ensures
        sorted_by_name(sort_by_name(s)),
        sort_by_name(s).to_multiset() == s.to_multiset(),
    decreases s.len(),
{
    broadcast use vstd::seq_lib::group_seq_properties;
    if s.len() > 0 {
        listed_modules_are_sorted_permutation(s.drop_last());
        lemma_insert_keeps_sorted(s.last(), sort_by_name(s.drop_last()));
        assert(s =~= s.drop_last().push(s.last()));
    }
}

/// The route prefix a module is served under: `/modules/<name>`.
pub open spec fn spec_mount_path(name: Seq<char>) -> Seq<char> {
    seq!['/', 'm', 'o', 'd', 'u', 'l', 'e', 's', '/'] + name
}

pub fn mount_path(name: &str) -> (r: String)
    ensures
        r@ == spec_mount_path(name@),
{
    let mut r = string_from_chars(&vec!['/', 'm', 'o', 'd', 'u', 'l', 'e', 's', '/']);
    r.append(name);
    assert(r@ =~= spec_mount_path(name@));
    r
}

/// Which module `configure` serves at `/`.
pub enum RootChoice {
    /// No root module was named: nothing is served at `/`.
    Unset,
    /// The first listed module with the root's name, served from this directory.
    Found(String),
    /// A root module was named but none of the scanned paths provides it.
    Missing,
}

/// Pick the root module: unset for an empty name, else the directory of the first module with that
/// name, else missing.
pub fn choose_root(modules: &Vec<(String, String)>, root: &str) -> (r: RootChoice)
    ensures
        root@.len() == 0 <==> r is Unset,
        r matches RootChoice::Found(dir) ==> exists|k: int|
            0 <= k < modules@.len() && (#[trigger] modules@[k]).0@ == root@ && dir@ == modules@[k].1@
                && forall|m: int| 0 <= m < k ==> modules@[m].0@ != root@,
        r is Missing ==> root@.len() > 0 && forall|k: int| 0 <= k < modules@.len() ==> (#[trigger] modules@[k]).0@ != root@,
{
    let rv = chars_of(root);
    if rv.len() == 0 {
        return RootChoice::Unset;
    }
    let mut k: usize = 0;
    while k < modules.len()
        invariant
            k <= modules.len(),
            rv@ == root@,
            rv@.len() > 0,
            forall|m: int| 0 <= m < k ==> (#[trigger] modules@[m]).0@ != root@,
        decreases modules.len() - k,
    {
        let n = chars_of(modules[k].0.as_str());
        if crate::text::range_equals(&n, 0, n.len(), &rv) {
            assert(n@.subrange(0, n@.len() as int) =~= n@);
            return RootChoice::Found(modules[k].1.clone());
        }
        assert(n@.subrange(0, n@.len() as int) =~= n@);
        k = k + 1;
    }
    RootChoice::Missing
}

/// The names of the listed modules, in order (the `/modules/` listing).
pub fn module_names(modules: &Vec<(String, String)>) -> (r: Vec<String>)
    ensures
        r@.len() == modules@.len(),
        forall|k: int| 0 <= k < r@.len() ==> (#[trigger] r@[k])@ == modules@[k].0@,
{
    let mut r: Vec<String> = Vec::new();
    let mut k: usize = 0;
    while k < modules.len()
        invariant
            k <= modules.len(),
            r@.len() == k,
            forall|m: int| 0 <= m < k ==> (#[trigger] r@[m])@ == modules@[m].0@,
        decreases modules.len() - k,
    {
        r.push(modules[k].0.clone());
        k = k + 1;
    }
    r
}

} // verus!

verus! {

/// A scanned directory entry is a module exactly when it is a directory, is not itself a configured
/// path, and holds a `pkg/` build or a `package.json` with a name (declared, else the entry's own):
/// a `pkg/` build is served from `<entry>/pkg`, a `package.json` module from the entry itself, and the
/// entry's module comes after those of the entries before it.
pub proof fn entries_with_a_build_are_served_from_it(
    entries: Seq<EntryScan>,
    e: EntryScan,
    configured: Seq<Seq<char>>,
)
    ensures
        !e.is_dir || is_configured(configured, e.path@) ==> entry_modules(entries.push(e), configured)
            == entry_modules(entries, configured),
        e.is_dir && !is_configured(configured, e.path@) ==> match e.probe {
            DirProbe::PkgDir { declared } => match (declared, e.name) {
                (Some(d), _) => entry_modules(entries.push(e), configured) == entry_modules(entries, configured).push(
                    (d@, join(e.path@, seq!['p', 'k', 'g'])),
                ),
                (None, Some(n)) => entry_modules(entries.push(e), configured) == entry_modules(
                    entries,
                    configured,
                ).push((n@, join(e.path@, seq!['p', 'k', 'g']))),
                (None, None) => entry_modules(entries.push(e), configured) == entry_modules(entries, configured),
            },
            DirProbe::PackageJson { declared } => match (declared, e.name) {
                (Some(d), _) => entry_modules(entries.push(e), configured) == entry_modules(entries, configured).push(
                    (d@, e.path@),
                ),
                (None, Some(n)) => entry_modules(entries.push(e), configured) == entry_modules(
                    entries,
                    configured,
                ).push((n@, e.path@)),
                (None, None) => entry_modules(entries.push(e), configured) == entry_modules(entries, configured),
            },
            DirProbe::Neither => entry_modules(entries.push(e), configured) == entry_modules(entries, configured),
        },
{
    let s = entries.push(e);
    assert(s.drop_last() =~= entries);
    assert(s.last() == e);
    let before = entry_modules(entries, configured);
    assert(before + Seq::<ModuleView>::empty() =~= before);
    match e.probe {
        DirProbe::PkgDir { declared } => {
            assert(pkg_rel() =~= seq!['p', 'k', 'g']);
            match declared {
                Some(d) => {
                    assert(before + seq![(d@, join(e.path@, pkg_rel()))] =~= before.push((d@, join(e.path@, pkg_rel()))));
                },
                None => match e.name {
                    Some(n) => {
                        assert(before + seq![(n@, join(e.path@, pkg_rel()))] =~= before.push(
                            (n@, join(e.path@, pkg_rel())),
                        ));
                    },
                    None => {},
                },
            }
        },
        DirProbe::PackageJson { declared } => {
            match declared {
                Some(d) => {
                    assert(before + seq![(d@, e.path@)] =~= before.push((d@, e.path@)));
                },
                None => match e.name {
                    Some(n) => {
                        assert(before + seq![(n@, e.path@)] =~= before.push((n@, e.path@)));
                    },
                    None => {},
                },
            }
        },
        DirProbe::Neither => {},
    }
}

/// A configured path that holds a `pkg/` build with a name is served from `<path>/pkg` under that
/// name, the declared one first, else the path's own file name; one with a root `package.json` is
/// served from the path itself; any other contributes the modules among its entries.
pub proof fn configured_builds_are_served_from_them(sp: ScannedPath, configured: Seq<Seq<char>>)
    ensures
        match sp.probe {
            DirProbe::PkgDir { declared: Some(d) } => path_modules(sp, configured) == seq![
                (d@, join(sp.path@, seq!['p', 'k', 'g'])),
            ],
            DirProbe::PackageJson { declared: Some(d) } => path_modules(sp, configured) == seq![(d@, sp.path@)],
            DirProbe::PkgDir { declared: None } => path_modules(sp, configured) == match file_name(sp.path@) {
                Some(n) => seq![(n, join(sp.path@, seq!['p', 'k', 'g']))],
                None => Seq::empty(),
            },
            DirProbe::PackageJson { declared: None } => path_modules(sp, configured) == match file_name(sp.path@) {
                Some(n) => seq![(n, sp.path@)],
                None => Seq::empty(),
            },
            DirProbe::Neither => path_modules(sp, configured) == match sp.entries {
                Some(es) => entry_modules(es@, configured),
                None => Seq::empty(),
            },
        },
{
    assert(pkg_rel() =~= seq!['p', 'k', 'g']);
}

/// The modules of the configured paths are gathered path by path, in configuration order, before the
/// list is sorted by name.
pub proof fn paths_contribute_in_order(scans: Seq<ScannedPath>, sp: ScannedPath, configured: Seq<Seq<char>>)
    ensures
        gathered(scans.push(sp), configured) == gathered(scans, configured) + path_modules(sp, configured),
        gathered(Seq::empty(), configured) == Seq::<ModuleView>::empty(),
{
    assert(scans.push(sp).drop_last() =~= scans);
}

} // verus!
