//! Workspace health checks: collecting dependency usage across manifests,
//! version-conflict detection, and the outdated-dependency records computed
//! from registry answers.
use vstd::prelude::*;

use crate::analyzer::{AnalyzeError, DependencyAnalyzer, ManifestFile};
use crate::manifest::parse_manifest;
use crate::package::{DependencyAnalysisResult, PackageJson};
use crate::strmap::str_eq;
use crate::version::{
    extract_version_from_spec, is_skipped_spec, lemma_lex_total, lex_le, should_skip_dependency,
    str_lex_le, strip_range_prefix,
};

verus! {

/// One outdated dependency occurrence: a dependency of one package whose
/// bare current version differs from the registry's latest version.
pub struct OutdatedDependency {
    /// The dependency name.
    pub name: String,
    /// The bare current version, stripped of its range operator.
    pub current: String,
    /// The latest version the registry reported.
    pub latest: String,
    /// The package that declares the dependency.
    pub package: String,
    /// The dependency kind it is declared under.
    pub dep_type: String,
}

impl Clone for OutdatedDependency {
    fn clone(&self) -> (r: Self)
        ensures
            r == *self,
    {
        OutdatedDependency {
            name: self.name.clone(),
            current: self.current.clone(),
            latest: self.latest.clone(),
            package: self.package.clone(),
            dep_type: self.dep_type.clone(),
        }
    }
}

/// One use of a dependency, for conflict detection.
pub struct ConflictUsage {
    /// The package that declares the dependency.
    pub package: String,
    /// The raw version spec.
    pub version_spec: String,
    /// The bare version, stripped of its range operator.
    pub resolved_version: String,
    /// The dependency kind it is declared under.
    pub dep_type: String,
}

impl Clone for ConflictUsage {
    fn clone(&self) -> (r: Self)
        ensures
            r == *self,
    {
        ConflictUsage {
            package: self.package.clone(),
            version_spec: self.version_spec.clone(),
            resolved_version: self.resolved_version.clone(),
            dep_type: self.dep_type.clone(),
        }
    }
}

/// One dependency name used at two or more distinct resolved versions.
pub struct VersionConflict {
    /// The dependency name.
    pub name: String,
    /// Every use of the dependency across the workspace.
    pub conflicts: Vec<ConflictUsage>,
    /// The recommended unified version: the lexicographic maximum of the
    /// distinct resolved versions.
    pub recommended_version: String,
}

/// One dependency as first seen across all manifests, with every package
/// that uses it.
pub struct DependencyInfo {
    /// The dependency name.
    pub name: String,
    /// The first-seen version spec.
    pub version_spec: String,
    /// The `(package, kind)` pairs that declare the dependency.
    pub used_by: Vec<(String, String)>,
}

/// Clones a vector of usages, entry for entry.
fn clone_usages(v: &Vec<ConflictUsage>) -> (r: Vec<ConflictUsage>)
    ensures
        r@ == v@,
{
    let n = v.len();
    let mut r: Vec<ConflictUsage> = Vec::new();
    let mut i: usize = 0;
    while i < n
        invariant
            n == v@.len(),
            0 <= i <= n,
            r@ == v@.take(i as int),
        decreases n - i,
    {
        r.push(v[i].clone());
        proof {
            assert(r@ =~= v@.take(i as int + 1));
        }
        i = i + 1;
    }
    proof {
        assert(v@.take(n as int) == v@);
    }
    r
}

/// Every non-locally-resolving entry of a view-level dependency map has its
/// name among the collected entries.
pub open spec fn infos_cover_map(
    infos: Seq<DependencyInfo>,
    m: Seq<(Seq<char>, Seq<char>)>,
) -> bool {
    forall|e: int|
        0 <= e < m.len() && !is_skipped_spec((#[trigger] m[e]).1) ==> infos_have_name(
            infos,
            m[e].0,
        )
}

/// The files declare the dependency `d` for package `p` under kind `k` at
/// some spec.
pub open spec fn user_declared(
    files: Seq<ManifestFile>,
    d: Seq<char>,
    p: Seq<char>,
    k: Seq<char>,
) -> bool {
    exists|sv: Seq<char>| #[trigger] files_declare_usage(files, d, p, sv, k)
}

/// Some decodable file declares the dependency name at all.
pub open spec fn info_name_declared(files: Seq<ManifestFile>, d: Seq<char>) -> bool {
    exists|p: Seq<char>, sv: Seq<char>, k: Seq<char>|
        #[trigger] files_declare_usage(files, d, p, sv, k)
}

/// Every non-locally-resolving usage the decoded manifest declares is
/// listed under its dependency's users.
pub open spec fn infos_cover_manifest_users(
    infos: Seq<DependencyInfo>,
    m: crate::manifest::ManifestView,
) -> bool {
    forall|d: Seq<char>, sv: Seq<char>, k: Seq<char>|
        #[trigger] manifest_declares_usage(m, d, sv, k) ==> info_has_user(
            infos,
            d,
            checker_pkg_name(m),
            k,
        )
}

/// A later step never loses a user the entries already list, so user
/// coverage is kept.
proof fn lemma_info_users_step(
    pre: Seq<DependencyInfo>,
    post: Seq<DependencyInfo>,
    m: crate::manifest::ManifestView,
)
    requires
        infos_cover_manifest_users(pre, m),
        forall|d: Seq<char>, p: Seq<char>, k: Seq<char>|
            #[trigger] info_has_user(pre, d, p, k) ==> info_has_user(post, d, p, k),
    ensures
        infos_cover_manifest_users(post, m),
{
}

/// Well-formed collected dependencies: distinct names, no locally-resolving
/// spec kept, and at least one user per entry.
pub open spec fn dep_infos_wf(s: Seq<DependencyInfo>) -> bool {
    &&& forall|i: int, j: int| 0 <= i < j < s.len() ==> s[i].name@ != s[j].name@
    &&& forall|i: int| 0 <= i < s.len() ==> !is_skipped_spec((#[trigger] s[i]).version_spec@)
    &&& forall|i: int| 0 <= i < s.len() ==> (#[trigger] s[i]).used_by@.len() > 0
}

/// Some collected entry carries the dependency name.
pub open spec fn infos_have_name(s: Seq<DependencyInfo>, k: Seq<char>) -> bool {
    exists|i: int| 0 <= i < s.len() && (#[trigger] s[i]).name@ == k
}

/// The entry of dependency `d` lists `(p, k)` among its users.
pub open spec fn info_has_user(
    s: Seq<DependencyInfo>,
    d: Seq<char>,
    p: Seq<char>,
    k: Seq<char>,
) -> bool {
    exists|i: int, u: int|
        0 <= i < s.len() && 0 <= u < s[i].used_by@.len() && s[i].name@ == d && (
        #[trigger] s[i].used_by@[u]).0@ == p && s[i].used_by@[u].1@ == k
}

/// The step from `pre` to `post` appends exactly the user `(p, k)` to the
/// entry of dependency `d` at position `i` — extending it when it exists
/// and starting it with spec `sv` otherwise — and leaves every other entry
/// unchanged.
pub open spec fn entry_gains_user(
    pre: Seq<DependencyInfo>,
    post: Seq<DependencyInfo>,
    i: int,
    d: Seq<char>,
    sv: Seq<char>,
    p: Seq<char>,
    k: Seq<char>,
) -> bool {
    &&& 0 <= i < post.len()
    &&& post[i].name@ == d
    &&& (if i < pre.len() {
        &&& pre[i].name@ == d
        &&& post.len() == pre.len()
        &&& post[i].version_spec@ == pre[i].version_spec@
        &&& crate::manifest::str_pairs_view(post[i].used_by@) == crate::manifest::str_pairs_view(
            pre[i].used_by@,
        ).push((p, k))
    } else {
        &&& i == pre.len()
        &&& post.len() == pre.len() + 1
        &&& post[i].version_spec@ == sv
        &&& crate::manifest::str_pairs_view(post[i].used_by@) == seq![(p, k)]
    })
    &&& forall|j: int| 0 <= j < pre.len() && j != i ==> post[j] == pre[j]
}

/// Appends a use of the dependency to its entry, or starts a new entry with
/// this first-seen version spec.
pub fn add_or_update_dependency(
    unique_dependencies: &mut Vec<DependencyInfo>,
    dep_name: &str,
    version_spec: &str,
    package_name: &str,
    dep_type: &str,
)
    requires
        dep_infos_wf(old(unique_dependencies)@),
        !is_skipped_spec(version_spec@),
    ensures
        dep_infos_wf(final(unique_dependencies)@),
        infos_have_name(final(unique_dependencies)@, dep_name@),
        forall|k: Seq<char>|
            #![trigger infos_have_name(final(unique_dependencies)@, k)]
            #![trigger infos_have_name(old(unique_dependencies)@, k)]
            infos_have_name(final(unique_dependencies)@, k) == (infos_have_name(
                old(unique_dependencies)@,
                k,
            ) || k == dep_name@),
        exists|i: int|
            #[trigger] entry_gains_user(
                old(unique_dependencies)@,
                final(unique_dependencies)@,
                i,
                dep_name@,
                version_spec@,
                package_name@,
                dep_type@,
            ),
        forall|d: Seq<char>, p: Seq<char>, k: Seq<char>|
            #![trigger info_has_user(final(unique_dependencies)@, d, p, k)]
            #![trigger info_has_user(old(unique_dependencies)@, d, p, k)]
            info_has_user(final(unique_dependencies)@, d, p, k) == (info_has_user(
                old(unique_dependencies)@,
                d,
                p,
                k,
            ) || (d == dep_name@ && p == package_name@ && k == dep_type@)),
{
    let mut owned: Vec<DependencyInfo> = Vec::new();
    core::mem::swap(unique_dependencies, &mut owned);
    let result = add_or_update_impl(owned, dep_name, version_spec, package_name, dep_type);
    *unique_dependencies = result;
}

/// The ownership-style worker behind `add_or_update_dependency`.
fn add_or_update_impl(
    unique: Vec<DependencyInfo>,
    dep_name: &str,
    version_spec: &str,
    package_name: &str,
    dep_type: &str,
) -> (r: Vec<DependencyInfo>)
    requires
        dep_infos_wf(unique@),
        !is_skipped_spec(version_spec@),
    ensures
        dep_infos_wf(r@),
        infos_have_name(r@, dep_name@),
        forall|k: Seq<char>|
            #![trigger infos_have_name(r@, k)]
            #![trigger infos_have_name(unique@, k)]
            infos_have_name(r@, k) == (infos_have_name(unique@, k) || k == dep_name@),
        exists|i: int|
            #[trigger] entry_gains_user(
                unique@,
                r@,
                i,
                dep_name@,
                version_spec@,
                package_name@,
                dep_type@,
            ),
        forall|d: Seq<char>, p: Seq<char>, k: Seq<char>|
            #![trigger info_has_user(r@, d, p, k)]
            #![trigger info_has_user(unique@, d, p, k)]
            info_has_user(r@, d, p, k) == (info_has_user(unique@, d, p, k) || (d == dep_name@ && p
                == package_name@ && k == dep_type@)),
{
    let mut work = unique;
    let ghost pre = work@;
    let n = work.len();
    let mut i: usize = 0;
    while i < n
        invariant
            n == work@.len(),
            0 <= i <= n,
            work@ == pre,
            pre == unique@,
            dep_infos_wf(work@),
            forall|j: int| 0 <= j < i ==> (#[trigger] work@[j]).name@ != dep_name@,
        decreases n - i,
    {
        if str_eq(work[i].name.as_str(), dep_name) {
            let entry = &work[i];
            let updated = DependencyInfo {
                name: entry.name.clone(),
                version_spec: entry.version_spec.clone(),
                used_by: {
                    let mut ub = crate::strmap::clone_string_map(&entry.used_by);
                    ub.push((package_name.to_owned(), dep_type.to_owned()));
                    ub
                },
            };
            work.set(i, updated);
            proof {
                assert forall|a: int, b: int|
                    0 <= a < b < work@.len() implies work@[a].name@ != work@[b].name@ by {
                    assert(pre[a].name@ != pre[b].name@);
                }
                assert forall|k: Seq<char>|
                    #![trigger infos_have_name(work@, k)]
                    #![trigger infos_have_name(pre, k)]
                    infos_have_name(work@, k) == (infos_have_name(pre, k) || k
                        == dep_name@) by {
                    if infos_have_name(work@, k) {
                        let t = choose|t: int|
                            0 <= t < work@.len() && (#[trigger] work@[t]).name@ == k;
                        assert(pre[t].name@ == k);
                    }
                    if infos_have_name(pre, k) {
                        let t = choose|t: int| 0 <= t < pre.len() && (#[trigger] pre[t]).name@ == k;
                        assert(work@[t].name@ == k);
                    }
                    if k == dep_name@ {
                        assert(work@[i as int].name@ == k);
                    }
                }
                assert(entry_gains_user(
                    pre,
                    work@,
                    i as int,
                    dep_name@,
                    version_spec@,
                    package_name@,
                    dep_type@,
                )) by {
                    assert(work@[i as int].used_by@ == pre[i as int].used_by@.push(
                        work@[i as int].used_by@.last(),
                    ));
                    assert(crate::manifest::str_pairs_view(work@[i as int].used_by@)
                        =~= crate::manifest::str_pairs_view(pre[i as int].used_by@).push(
                        (package_name@, dep_type@),
                    ));
                }
                assert forall|d: Seq<char>, p: Seq<char>, k: Seq<char>|
                    #![trigger info_has_user(work@, d, p, k)]
                    #![trigger info_has_user(pre, d, p, k)]
                    info_has_user(work@, d, p, k) == (info_has_user(pre, d, p, k) || (d
                        == dep_name@ && p == package_name@ && k == dep_type@)) by {
                    if info_has_user(work@, d, p, k) {
                        let (t, u) = choose|t: int, u: int|
                            0 <= t < work@.len() && 0 <= u < work@[t].used_by@.len()
                                && work@[t].name@ == d && (#[trigger] work@[t].used_by@[u]).0@
                                == p && work@[t].used_by@[u].1@ == k;
                        if t == i as int {
                            if u < pre[t].used_by@.len() {
                                assert(work@[t].used_by@[u] == pre[t].used_by@[u]);
                                assert(info_has_user(pre, d, p, k));
                            } else {
                                assert(d == dep_name@ && p == package_name@ && k == dep_type@);
                            }
                        } else {
                            assert(work@[t] == pre[t]);
                            assert(info_has_user(pre, d, p, k));
                        }
                    }
                    if info_has_user(pre, d, p, k) {
                        let (t, u) = choose|t: int, u: int|
                            0 <= t < pre.len() && 0 <= u < pre[t].used_by@.len() && pre[t].name@
                                == d && (#[trigger] pre[t].used_by@[u]).0@ == p
                                && pre[t].used_by@[u].1@ == k;
                        if t == i as int {
                            assert(work@[t].used_by@[u] == pre[t].used_by@[u]);
                        } else {
                            assert(work@[t] == pre[t]);
                        }
                        assert(info_has_user(work@, d, p, k));
                    }
                    if d == dep_name@ && p == package_name@ && k == dep_type@ {
                        let u = work@[i as int].used_by@.len() - 1;
                        assert((work@[i as int].used_by@[u]).0@ == package_name@
                            && work@[i as int].used_by@[u].1@ == dep_type@);
                        assert(info_has_user(work@, d, p, k));
                    }
                }
            }
            return work;
        }
        i = i + 1;
    }
    let mut used_by: Vec<(String, String)> = Vec::new();
    used_by.push((package_name.to_owned(), dep_type.to_owned()));
    let entry = DependencyInfo {
        name: dep_name.to_owned(),
        version_spec: version_spec.to_owned(),
        used_by,
    };
    work.push(entry);
    proof {
        assert(work@.last().name@ == dep_name@);
        assert forall|a: int, b: int|
            0 <= a < b < work@.len() implies work@[a].name@ != work@[b].name@ by {
            if b == work@.len() - 1 {
                assert(pre[a].name@ != dep_name@);
            } else {
                assert(pre[a].name@ != pre[b].name@);
            }
        }
        assert forall|k: Seq<char>|
            #![trigger infos_have_name(work@, k)]
            #![trigger infos_have_name(pre, k)]
            infos_have_name(work@, k) == (infos_have_name(pre, k) || k == dep_name@) by {
            if infos_have_name(work@, k) {
                let t = choose|t: int|
                    0 <= t < work@.len() && (#[trigger] work@[t]).name@ == k;
                if t < pre.len() {
                    assert(pre[t].name@ == k);
                }
            }
            if infos_have_name(pre, k) {
                let t = choose|t: int| 0 <= t < pre.len() && (#[trigger] pre[t]).name@ == k;
                assert(work@[t].name@ == k);
            }
        }
        assert(entry_gains_user(
            pre,
            work@,
            pre.len() as int,
            dep_name@,
            version_spec@,
            package_name@,
            dep_type@,
        )) by {
            let i = pre.len() as int;
            assert(work@[i].used_by@.len() == 1);
            assert(crate::manifest::str_pairs_view(work@[i].used_by@) =~= seq![
                (package_name@, dep_type@),
            ]);
        }
        assert forall|d: Seq<char>, p: Seq<char>, k: Seq<char>|
            #![trigger info_has_user(work@, d, p, k)]
            #![trigger info_has_user(pre, d, p, k)]
            info_has_user(work@, d, p, k) == (info_has_user(pre, d, p, k) || (d == dep_name@ && p
                == package_name@ && k == dep_type@)) by {
            if info_has_user(work@, d, p, k) {
                let (t, u) = choose|t: int, u: int|
                    0 <= t < work@.len() && 0 <= u < work@[t].used_by@.len() && work@[t].name@
                        == d && (#[trigger] work@[t].used_by@[u]).0@ == p
                        && work@[t].used_by@[u].1@ == k;
                if t < pre.len() {
                    assert(work@[t] == pre[t]);
                    assert(info_has_user(pre, d, p, k));
                } else {
                    assert(d == dep_name@ && p == package_name@ && k == dep_type@);
                }
            }
            if info_has_user(pre, d, p, k) {
                let (t, u) = choose|t: int, u: int|
                    0 <= t < pre.len() && 0 <= u < pre[t].used_by@.len() && pre[t].name@ == d && (
                    #[trigger] pre[t].used_by@[u]).0@ == p && pre[t].used_by@[u].1@ == k;
                assert(work@[t] == pre[t]);
                assert(info_has_user(work@, d, p, k));
            }
            if d == dep_name@ && p == package_name@ && k == dep_type@ {
                let i = pre.len() as int;
                assert((work@[i].used_by@[0]).0@ == package_name@ && work@[i].used_by@[0].1@
                    == dep_type@);
                assert(info_has_user(work@, d, p, k));
            }
        }
    }
    work
}

/// Folds one manifest's three dependency maps into the collected entries,
/// skipping every locally-resolving spec: each non-skipped entry's name and
/// `(package, kind)` user are kept, nothing already collected is lost, and
/// nothing outside the three maps is invented.
pub fn process_package_dependencies(
    package_json: &PackageJson,
    package_name: &str,
    unique_dependencies: &mut Vec<DependencyInfo>,
)
    requires
        dep_infos_wf(old(unique_dependencies)@),
    ensures
        dep_infos_wf(final(unique_dependencies)@),
        forall|k: Seq<char>|
            infos_have_name(old(unique_dependencies)@, k) ==> infos_have_name(
                final(unique_dependencies)@,
                k,
            ),
        forall|e: int|
            0 <= e < package_json.dependencies@.len() && !is_skipped_spec(
                (#[trigger] package_json.dependencies@[e]).1@,
            ) ==> infos_have_name(final(unique_dependencies)@, package_json.dependencies@[e].0@)
                && info_has_user(
                final(unique_dependencies)@,
                package_json.dependencies@[e].0@,
                package_name@,
                "dependencies"@,
            ),
        forall|e: int|
            0 <= e < package_json.dev_dependencies@.len() && !is_skipped_spec(
                (#[trigger] package_json.dev_dependencies@[e]).1@,
            ) ==> infos_have_name(
                final(unique_dependencies)@,
                package_json.dev_dependencies@[e].0@,
            ) && info_has_user(
                final(unique_dependencies)@,
                package_json.dev_dependencies@[e].0@,
                package_name@,
                "devDependencies"@,
            ),
        forall|e: int|
            0 <= e < package_json.peer_dependencies@.len() && !is_skipped_spec(
                (#[trigger] package_json.peer_dependencies@[e]).1@,
            ) ==> infos_have_name(
                final(unique_dependencies)@,
                package_json.peer_dependencies@[e].0@,
            ) && info_has_user(
                final(unique_dependencies)@,
                package_json.peer_dependencies@[e].0@,
                package_name@,
                "peerDependencies"@,
            ),
        forall|nm: Seq<char>|
            #[trigger] infos_have_name(final(unique_dependencies)@, nm) ==> infos_have_name(
                old(unique_dependencies)@,
                nm,
            ) || (exists|e: int|
                0 <= e < package_json.dependencies@.len() && (
                #[trigger] package_json.dependencies@[e]).0@ == nm && !is_skipped_spec(
                    package_json.dependencies@[e].1@,
                )) || (exists|e: int|
                0 <= e < package_json.dev_dependencies@.len() && (
                #[trigger] package_json.dev_dependencies@[e]).0@ == nm && !is_skipped_spec(
                    package_json.dev_dependencies@[e].1@,
                )) || (exists|e: int|
                0 <= e < package_json.peer_dependencies@.len() && (
                #[trigger] package_json.peer_dependencies@[e]).0@ == nm && !is_skipped_spec(
                    package_json.peer_dependencies@[e].1@,
                )),
        forall|d: Seq<char>, p: Seq<char>, k: Seq<char>|
            #[trigger] info_has_user(final(unique_dependencies)@, d, p, k) ==> info_has_user(
                old(unique_dependencies)@,
                d,
                p,
                k,
            ) || (p == package_name@ && ((k == "dependencies"@ && (exists|e: int|
                0 <= e < package_json.dependencies@.len() && (
                #[trigger] package_json.dependencies@[e]).0@ == d && !is_skipped_spec(
                    package_json.dependencies@[e].1@,
                ))) || (k == "devDependencies"@ && (exists|e: int|
                0 <= e < package_json.dev_dependencies@.len() && (
                #[trigger] package_json.dev_dependencies@[e]).0@ == d && !is_skipped_spec(
                    package_json.dev_dependencies@[e].1@,
                ))) || (k == "peerDependencies"@ && (exists|e: int|
                0 <= e < package_json.peer_dependencies@.len() && (
                #[trigger] package_json.peer_dependencies@[e]).0@ == d && !is_skipped_spec(
                    package_json.peer_dependencies@[e].1@,
                ))))),
        forall|d: Seq<char>, p: Seq<char>, k: Seq<char>|
            #[trigger] info_has_user(old(unique_dependencies)@, d, p, k) ==> info_has_user(
                final(unique_dependencies)@,
                d,
                p,
                k,
            ),
{
    process_one_map(&package_json.dependencies, "dependencies", package_name, unique_dependencies);
    process_one_map(
        &package_json.dev_dependencies,
        "devDependencies",
        package_name,
        unique_dependencies,
    );
    process_one_map(
        &package_json.peer_dependencies,
        "peerDependencies",
        package_name,
        unique_dependencies,
    );
}

/// Folds one dependency map into the collected entries: every non-skipped
/// entry's name and `(package, kind)` user are kept, existing names and
/// users are never lost, and no name or user outside the map is invented.
fn process_one_map(
    map: &Vec<(String, String)>,
    dep_type: &str,
    package_name: &str,
    unique_dependencies: &mut Vec<DependencyInfo>,
)
    requires
        dep_infos_wf(old(unique_dependencies)@),
    ensures
        dep_infos_wf(final(unique_dependencies)@),
        forall|k: Seq<char>|
            infos_have_name(old(unique_dependencies)@, k) ==> infos_have_name(
                final(unique_dependencies)@,
                k,
            ),
        forall|e: int|
            0 <= e < map@.len() && !is_skipped_spec((#[trigger] map@[e]).1@) ==> infos_have_name(
                final(unique_dependencies)@,
                map@[e].0@,
            ),
        forall|nm: Seq<char>|
            #[trigger] infos_have_name(final(unique_dependencies)@, nm) ==> infos_have_name(
                old(unique_dependencies)@,
                nm,
            ) || (exists|e: int|
                0 <= e < map@.len() && (#[trigger] map@[e]).0@ == nm && !is_skipped_spec(
                    map@[e].1@,
                )),
        forall|e: int|
            0 <= e < map@.len() && !is_skipped_spec((#[trigger] map@[e]).1@) ==> info_has_user(
                final(unique_dependencies)@,
                map@[e].0@,
                package_name@,
                dep_type@,
            ),
        forall|d: Seq<char>, p: Seq<char>, k: Seq<char>|
            #[trigger] info_has_user(final(unique_dependencies)@, d, p, k) ==> info_has_user(
                old(unique_dependencies)@,
                d,
                p,
                k,
            ) || (p == package_name@ && k == dep_type@ && (exists|e: int|
                0 <= e < map@.len() && (#[trigger] map@[e]).0@ == d && !is_skipped_spec(
                    map@[e].1@,
                ))),
        forall|d: Seq<char>, p: Seq<char>, k: Seq<char>|
            #[trigger] info_has_user(old(unique_dependencies)@, d, p, k) ==> info_has_user(
                final(unique_dependencies)@,
                d,
                p,
                k,
            ),
{
    let n = map.len();
    let mut e: usize = 0;
    while e < n
        invariant
            n == map@.len(),
            0 <= e <= n,
            dep_infos_wf(unique_dependencies@),
            forall|k: Seq<char>|
                infos_have_name(old(unique_dependencies)@, k) ==> infos_have_name(
                    unique_dependencies@,
                    k,
                ),
            forall|ee: int|
                0 <= ee < e && !is_skipped_spec((#[trigger] map@[ee]).1@) ==> infos_have_name(
                    unique_dependencies@,
                    map@[ee].0@,
                ),
            forall|nm: Seq<char>|
                #[trigger] infos_have_name(unique_dependencies@, nm) ==> infos_have_name(
                    old(unique_dependencies)@,
                    nm,
                ) || (exists|ee: int|
                    0 <= ee < e && (#[trigger] map@[ee]).0@ == nm && !is_skipped_spec(
                        map@[ee].1@,
                    )),
            forall|ee: int|
                0 <= ee < e && !is_skipped_spec((#[trigger] map@[ee]).1@) ==> info_has_user(
                    unique_dependencies@,
                    map@[ee].0@,
                    package_name@,
                    dep_type@,
                ),
            forall|d: Seq<char>, p: Seq<char>, k: Seq<char>|
                #[trigger] info_has_user(unique_dependencies@, d, p, k) ==> info_has_user(
                    old(unique_dependencies)@,
                    d,
                    p,
                    k,
                ) || (p == package_name@ && k == dep_type@ && (exists|ee: int|
                    0 <= ee < e && (#[trigger] map@[ee]).0@ == d && !is_skipped_spec(
                        map@[ee].1@,
                    ))),
            forall|d: Seq<char>, p: Seq<char>, k: Seq<char>|
                #[trigger] info_has_user(old(unique_dependencies)@, d, p, k) ==> info_has_user(
                    unique_dependencies@,
                    d,
                    p,
                    k,
                ),
        decreases n - e,
    {
        let ghost pre = unique_dependencies@;
        let skip = should_skip_dependency(map[e].1.as_str());
        if !skip {
            add_or_update_dependency(
                unique_dependencies,
                map[e].0.as_str(),
                map[e].1.as_str(),
                package_name,
                dep_type,
            );
        }
        proof {
            assert forall|nm: Seq<char>|
                #[trigger] infos_have_name(unique_dependencies@, nm) implies infos_have_name(
                old(unique_dependencies)@,
                nm,
            ) || (exists|ee: int|
                0 <= ee < e + 1 && (#[trigger] map@[ee]).0@ == nm && !is_skipped_spec(
                    map@[ee].1@,
                )) by {
                if !infos_have_name(old(unique_dependencies)@, nm) {
                    if infos_have_name(pre, nm) {
                        let ee = choose|ee: int|
                            0 <= ee < e && (#[trigger] map@[ee]).0@ == nm && !is_skipped_spec(
                                map@[ee].1@,
                            );
                        assert(0 <= ee < e + 1);
                    } else {
                        assert(!skip && nm == map@[e as int].0@);
                    }
                }
            }
            assert forall|d: Seq<char>, p: Seq<char>, k: Seq<char>|
                #[trigger] info_has_user(unique_dependencies@, d, p, k) implies info_has_user(
                old(unique_dependencies)@,
                d,
                p,
                k,
            ) || (p == package_name@ && k == dep_type@ && (exists|ee: int|
                0 <= ee < e + 1 && (#[trigger] map@[ee]).0@ == d && !is_skipped_spec(
                    map@[ee].1@,
                ))) by {
                if !info_has_user(old(unique_dependencies)@, d, p, k) {
                    if info_has_user(pre, d, p, k) {
                        let ee = choose|ee: int|
                            0 <= ee < e && (#[trigger] map@[ee]).0@ == d && !is_skipped_spec(
                                map@[ee].1@,
                            );
                        assert(0 <= ee < e + 1);
                    } else {
                        assert(!skip && d == map@[e as int].0@ && p == package_name@ && k
                            == dep_type@);
                    }
                }
            }
        }
        e = e + 1;
    }
}

/// A health checker for one workspace.
pub struct HealthChecker {
    /// The workspace root directory.
    pub workspace_root: String,
    /// Whether detailed reporting is on.
    pub verbose: bool,
}

impl HealthChecker {
    /// Creates a health checker for the given workspace root.
    pub fn new(workspace_root: String) -> (r: Self)
        ensures
            r.workspace_root@ == workspace_root@,
            !r.verbose,
    {
        HealthChecker { workspace_root, verbose: false }
    }

    /// Switches detailed reporting on or off.
    pub fn with_verbose(self, verbose: bool) -> (r: Self)
        ensures
            r.workspace_root@ == self.workspace_root@,
            r.verbose == verbose,
    {
        HealthChecker { workspace_root: self.workspace_root, verbose }
    }

    /// Analyzes the workspace and reports its circular dependencies: the
    /// cycle list of a sound analysis of exactly these manifest files, and
    /// an error exactly when no manifest decodes.
    pub fn check_circular_dependencies(&self, files: &Vec<ManifestFile>) -> (r: Result<
        Vec<Vec<String>>,
        AnalyzeError,
    >)
        ensures
            match r {
                Ok(cycles) => exists|res: DependencyAnalysisResult|
                    #[trigger] crate::analyzer::analysis_sound(res)
                        && crate::analyzer::analysis_matches_files(res, files@) && cycles@
                        == res.circular_dependencies@,
                Err(e) => e is WorkspaceEmpty,
            },
            (r is Err) == (forall|i: int|
                0 <= i < files@.len() ==> crate::manifest::manifest_of(
                    (#[trigger] files@[i]).text@,
                ) is None),
    {
        let analyzer = DependencyAnalyzer::new(self.workspace_root.clone()).with_verbose(
            self.verbose,
        );
        match analyzer.analyze(files) {
            Ok(res) => {
                let ghost result_ghost = res;
                let DependencyAnalysisResult { circular_dependencies, .. } = res;
                proof {
                    assert(crate::analyzer::analysis_sound(result_ghost)
                        && crate::analyzer::analysis_matches_files(result_ghost, files@)
                        && circular_dependencies@ == result_ghost.circular_dependencies@);
                }
                Ok(circular_dependencies)
            },
            Err(e) => Err(e),
        }
    }

    /// Collects, across every manifest that decodes, each distinct
    /// dependency name with its first-seen spec and all of its users: a
    /// locally-resolving spec is never collected, every other declared
    /// dependency is, every declared `(package, kind)` usage is listed
    /// under its dependency, and nothing that no manifest declares is
    /// collected.
    pub fn collect_unique_dependencies(&self, files: &Vec<ManifestFile>) -> (r: Vec<
        DependencyInfo,
    >)
        ensures
            dep_infos_wf(r@),
            forall|i: int|
                0 <= i < files@.len() ==> match crate::manifest::manifest_of(
                    (#[trigger] files@[i]).text@,
                ) {
                    Some(m) => infos_cover_map(r@, m.dependencies) && infos_cover_map(
                        r@,
                        m.dev_dependencies,
                    ) && infos_cover_map(r@, m.peer_dependencies) && infos_cover_manifest_users(
                        r@,
                        m,
                    ),
                    None => true,
                },
            forall|t: int| 0 <= t < r@.len() ==> #[trigger] info_name_declared(files@, r@[t].name@),
            forall|d: Seq<char>, p: Seq<char>, k: Seq<char>|
                #[trigger] info_has_user(r@, d, p, k) ==> user_declared(files@, d, p, k),
    {
        let n = files.len();
        let mut unique: Vec<DependencyInfo> = Vec::new();
        let mut i: usize = 0;
        while i < n
            invariant
                n == files@.len(),
                0 <= i <= n,
                dep_infos_wf(unique@),
                forall|ii: int|
                    0 <= ii < i ==> match crate::manifest::manifest_of(
                        (#[trigger] files@[ii]).text@,
                    ) {
                        Some(m) => infos_cover_map(unique@, m.dependencies) && infos_cover_map(
                            unique@,
                            m.dev_dependencies,
                        ) && infos_cover_map(unique@, m.peer_dependencies)
                            && infos_cover_manifest_users(unique@, m),
                        None => true,
                    },
                forall|nm: Seq<char>|
                    #[trigger] infos_have_name(unique@, nm) ==> info_name_declared(
                        files@.take(i as int),
                        nm,
                    ),
                forall|d: Seq<char>, p: Seq<char>, k: Seq<char>|
                    #[trigger] info_has_user(unique@, d, p, k) ==> user_declared(
                        files@.take(i as int),
                        d,
                        p,
                        k,
                    ),
            decreases n - i,
        {
            let ghost pre = unique@;
            match parse_manifest(files[i].text.as_str()) {
                Some(pj) => {
                    let package_name = pj.get_name("unknown");
                    process_package_dependencies(&pj, package_name.as_str(), &mut unique);
                    proof {
                        let m = crate::manifest::manifest_of(files@[i as int].text@)->0;
                        assert(m == crate::manifest::package_json_view(pj));
                        assert(package_name@ == checker_pkg_name(m));
                        assert(infos_cover_map(unique@, m.dependencies)) by {
                            assert forall|e: int|
                                0 <= e < m.dependencies.len() && !is_skipped_spec(
                                    (#[trigger] m.dependencies[e]).1,
                                ) implies infos_have_name(unique@, m.dependencies[e].0) by {
                                assert(m.dependencies[e] == (
                                    pj.dependencies@[e].0@,
                                    pj.dependencies@[e].1@,
                                ));
                            }
                        }
                        assert(infos_cover_map(unique@, m.dev_dependencies)) by {
                            assert forall|e: int|
                                0 <= e < m.dev_dependencies.len() && !is_skipped_spec(
                                    (#[trigger] m.dev_dependencies[e]).1,
                                ) implies infos_have_name(unique@, m.dev_dependencies[e].0) by {
                                assert(m.dev_dependencies[e] == (
                                    pj.dev_dependencies@[e].0@,
                                    pj.dev_dependencies@[e].1@,
                                ));
                            }
                        }
                        assert(infos_cover_map(unique@, m.peer_dependencies)) by {
                            assert forall|e: int|
                                0 <= e < m.peer_dependencies.len() && !is_skipped_spec(
                                    (#[trigger] m.peer_dependencies[e]).1,
                                ) implies infos_have_name(unique@, m.peer_dependencies[e].0) by {
                                assert(m.peer_dependencies[e] == (
                                    pj.peer_dependencies@[e].0@,
                                    pj.peer_dependencies@[e].1@,
                                ));
                            }
                        }
                        assert(infos_cover_manifest_users(unique@, m)) by {
                            assert forall|d: Seq<char>, sv: Seq<char>, k: Seq<char>|
                                #[trigger] manifest_declares_usage(m, d, sv, k) implies
                                info_has_user(unique@, d, checker_pkg_name(m), k) by {
                                if k == "dependencies"@ && map_declares(m.dependencies, d, sv) {
                                    let e = choose|e: int|
                                        0 <= e < m.dependencies.len()
                                            && #[trigger] m.dependencies[e] == (d, sv);
                                    assert(m.dependencies[e] == (
                                        pj.dependencies@[e].0@,
                                        pj.dependencies@[e].1@,
                                    ));
                                    assert(info_has_user(
                                        unique@,
                                        pj.dependencies@[e].0@,
                                        package_name@,
                                        "dependencies"@,
                                    ));
                                } else if k == "devDependencies"@ && map_declares(
                                    m.dev_dependencies,
                                    d,
                                    sv,
                                ) {
                                    let e = choose|e: int|
                                        0 <= e < m.dev_dependencies.len()
                                            && #[trigger] m.dev_dependencies[e] == (d, sv);
                                    assert(m.dev_dependencies[e] == (
                                        pj.dev_dependencies@[e].0@,
                                        pj.dev_dependencies@[e].1@,
                                    ));
                                    assert(info_has_user(
                                        unique@,
                                        pj.dev_dependencies@[e].0@,
                                        package_name@,
                                        "devDependencies"@,
                                    ));
                                } else {
                                    let e = choose|e: int|
                                        0 <= e < m.peer_dependencies.len()
                                            && #[trigger] m.peer_dependencies[e] == (d, sv);
                                    assert(m.peer_dependencies[e] == (
                                        pj.peer_dependencies@[e].0@,
                                        pj.peer_dependencies@[e].1@,
                                    ));
                                    assert(info_has_user(
                                        unique@,
                                        pj.peer_dependencies@[e].0@,
                                        package_name@,
                                        "peerDependencies"@,
                                    ));
                                }
                            }
                        }
                        // the new names and users all come from this manifest
                        assert forall|nm: Seq<char>|
                            #[trigger] infos_have_name(unique@, nm) implies info_name_declared(
                            files@.take(i as int + 1),
                            nm,
                        ) by {
                            assert(files@.take(i as int + 1)[i as int] == files@[i as int]);
                            if infos_have_name(pre, nm) {
                                assert(info_name_declared(files@.take(i as int), nm));
                                let (p2, sv2, k2) = choose|
                                    p2: Seq<char>,
                                    sv2: Seq<char>,
                                    k2: Seq<char>,
                                | #[trigger] files_declare_usage(
                                    files@.take(i as int),
                                    nm,
                                    p2,
                                    sv2,
                                    k2,
                                );
                                lemma_usage_in_longer_prefix(
                                    files@,
                                    i as int,
                                    i as int + 1,
                                    nm,
                                    p2,
                                    sv2,
                                    k2,
                                );
                            } else if exists|e: int|
                                0 <= e < pj.dependencies@.len() && (
                                #[trigger] pj.dependencies@[e]).0@ == nm && !is_skipped_spec(
                                    pj.dependencies@[e].1@,
                                ) {
                                let e = choose|e: int|
                                    0 <= e < pj.dependencies@.len() && (
                                    #[trigger] pj.dependencies@[e]).0@ == nm && !is_skipped_spec(
                                        pj.dependencies@[e].1@,
                                    );
                                assert(m.dependencies[e] == (nm, pj.dependencies@[e].1@));
                                assert(map_declares(m.dependencies, nm, pj.dependencies@[e].1@));
                                assert(manifest_declares_usage(
                                    m,
                                    nm,
                                    pj.dependencies@[e].1@,
                                    "dependencies"@,
                                ));
                                assert(files_declare_usage(
                                    files@.take(i as int + 1),
                                    nm,
                                    checker_pkg_name(m),
                                    pj.dependencies@[e].1@,
                                    "dependencies"@,
                                ));
                            } else if exists|e: int|
                                0 <= e < pj.dev_dependencies@.len() && (
                                #[trigger] pj.dev_dependencies@[e]).0@ == nm && !is_skipped_spec(
                                    pj.dev_dependencies@[e].1@,
                                ) {
                                let e = choose|e: int|
                                    0 <= e < pj.dev_dependencies@.len() && (
                                    #[trigger] pj.dev_dependencies@[e]).0@ == nm
                                        && !is_skipped_spec(pj.dev_dependencies@[e].1@);
                                assert(m.dev_dependencies[e] == (nm, pj.dev_dependencies@[e].1@));
                                assert(manifest_declares_usage(
                                    m,
                                    nm,
                                    pj.dev_dependencies@[e].1@,
                                    "devDependencies"@,
                                ));
                                assert(files_declare_usage(
                                    files@.take(i as int + 1),
                                    nm,
                                    checker_pkg_name(m),
                                    pj.dev_dependencies@[e].1@,
                                    "devDependencies"@,
                                ));
                            } else {
                                let e = choose|e: int|
                                    0 <= e < pj.peer_dependencies@.len() && (
                                    #[trigger] pj.peer_dependencies@[e]).0@ == nm
                                        && !is_skipped_spec(pj.peer_dependencies@[e].1@);
                                assert(m.peer_dependencies[e] == (
                                    nm,
                                    pj.peer_dependencies@[e].1@,
                                ));
                                assert(manifest_declares_usage(
                                    m,
                                    nm,
                                    pj.peer_dependencies@[e].1@,
                                    "peerDependencies"@,
                                ));
                                assert(files_declare_usage(
                                    files@.take(i as int + 1),
                                    nm,
                                    checker_pkg_name(m),
                                    pj.peer_dependencies@[e].1@,
                                    "peerDependencies"@,
                                ));
                            }
                        }
                        assert forall|d: Seq<char>, p: Seq<char>, k: Seq<char>|
                            #[trigger] info_has_user(unique@, d, p, k) implies user_declared(
                            files@.take(i as int + 1),
                            d,
                            p,
                            k,
                        ) by {
                            assert(files@.take(i as int + 1)[i as int] == files@[i as int]);
                            if info_has_user(pre, d, p, k) {
                                assert(user_declared(files@.take(i as int), d, p, k));
                                let sv2 = choose|sv2: Seq<char>| #[trigger] files_declare_usage(
                                    files@.take(i as int),
                                    d,
                                    p,
                                    sv2,
                                    k,
                                );
                                lemma_usage_in_longer_prefix(
                                    files@,
                                    i as int,
                                    i as int + 1,
                                    d,
                                    p,
                                    sv2,
                                    k,
                                );
                            } else {
                                assert(p == package_name@);
                                if k == "dependencies"@ && (exists|e: int|
                                    0 <= e < pj.dependencies@.len() && (
                                    #[trigger] pj.dependencies@[e]).0@ == d && !is_skipped_spec(
                                        pj.dependencies@[e].1@,
                                    )) {
                                    let e = choose|e: int|
                                        0 <= e < pj.dependencies@.len() && (
                                        #[trigger] pj.dependencies@[e]).0@ == d
                                            && !is_skipped_spec(pj.dependencies@[e].1@);
                                    assert(m.dependencies[e] == (d, pj.dependencies@[e].1@));
                                    assert(manifest_declares_usage(
                                        m,
                                        d,
                                        pj.dependencies@[e].1@,
                                        "dependencies"@,
                                    ));
                                    assert(files_declare_usage(
                                        files@.take(i as int + 1),
                                        d,
                                        p,
                                        pj.dependencies@[e].1@,
                                        "dependencies"@,
                                    ));
                                } else if k == "devDependencies"@ && (exists|e: int|
                                    0 <= e < pj.dev_dependencies@.len() && (
                                    #[trigger] pj.dev_dependencies@[e]).0@ == d
                                        && !is_skipped_spec(pj.dev_dependencies@[e].1@)) {
                                    let e = choose|e: int|
                                        0 <= e < pj.dev_dependencies@.len() && (
                                        #[trigger] pj.dev_dependencies@[e]).0@ == d
                                            && !is_skipped_spec(pj.dev_dependencies@[e].1@);
                                    assert(m.dev_dependencies[e] == (
                                        d,
                                        pj.dev_dependencies@[e].1@,
                                    ));
                                    assert(manifest_declares_usage(
                                        m,
                                        d,
                                        pj.dev_dependencies@[e].1@,
                                        "devDependencies"@,
                                    ));
                                    assert(files_declare_usage(
                                        files@.take(i as int + 1),
                                        d,
                                        p,
                                        pj.dev_dependencies@[e].1@,
                                        "devDependencies"@,
                                    ));
                                } else {
                                    let e = choose|e: int|
                                        0 <= e < pj.peer_dependencies@.len() && (
                                        #[trigger] pj.peer_dependencies@[e]).0@ == d
                                            && !is_skipped_spec(pj.peer_dependencies@[e].1@);
                                    assert(m.peer_dependencies[e] == (
                                        d,
                                        pj.peer_dependencies@[e].1@,
                                    ));
                                    assert(manifest_declares_usage(
                                        m,
                                        d,
                                        pj.peer_dependencies@[e].1@,
                                        "peerDependencies"@,
                                    ));
                                    assert(files_declare_usage(
                                        files@.take(i as int + 1),
                                        d,
                                        p,
                                        pj.peer_dependencies@[e].1@,
                                        "peerDependencies"@,
                                    ));
                                }
                            }
                        }
                    }
                },
                None => {
                    proof {
                        assert forall|nm: Seq<char>|
                            #[trigger] infos_have_name(unique@, nm) implies info_name_declared(
                            files@.take(i as int + 1),
                            nm,
                        ) by {
                            let (p2, sv2, k2) = choose|p2: Seq<char>, sv2: Seq<char>, k2: Seq<char>|
                                #[trigger] files_declare_usage(
                                    files@.take(i as int),
                                    nm,
                                    p2,
                                    sv2,
                                    k2,
                                );
                            lemma_usage_in_longer_prefix(
                                files@,
                                i as int,
                                i as int + 1,
                                nm,
                                p2,
                                sv2,
                                k2,
                            );
                        }
                        assert forall|d: Seq<char>, p: Seq<char>, k: Seq<char>|
                            #[trigger] info_has_user(unique@, d, p, k) implies user_declared(
                            files@.take(i as int + 1),
                            d,
                            p,
                            k,
                        ) by {
                            let sv2 = choose|sv2: Seq<char>| #[trigger] files_declare_usage(
                                files@.take(i as int),
                                d,
                                p,
                                sv2,
                                k,
                            );
                            lemma_usage_in_longer_prefix(
                                files@,
                                i as int,
                                i as int + 1,
                                d,
                                p,
                                sv2,
                                k,
                            );
                        }
                    }
                },
            }
            proof {
                assert forall|ii: int|
                    0 <= ii < i + 1 implies match crate::manifest::manifest_of(
                    (#[trigger] files@[ii]).text@,
                ) {
                    Some(m) => infos_cover_map(unique@, m.dependencies) && infos_cover_map(
                        unique@,
                        m.dev_dependencies,
                    ) && infos_cover_map(unique@, m.peer_dependencies)
                        && infos_cover_manifest_users(unique@, m),
                    None => true,
                } by {
                    if ii < i as int {
                        match crate::manifest::manifest_of(files@[ii].text@) {
                            Some(m) => {
                                lemma_cover_monotone(pre, unique@, m.dependencies);
                                lemma_cover_monotone(pre, unique@, m.dev_dependencies);
                                lemma_cover_monotone(pre, unique@, m.peer_dependencies);
                                lemma_info_users_step(pre, unique@, m);
                            },
                            None => {},
                        }
                    }
                }
            }
            i = i + 1;
        }
        proof {
            assert(files@.take(n as int) == files@);
            assert forall|t: int|
                0 <= t < unique@.len() implies #[trigger] info_name_declared(
                files@,
                unique@[t].name@,
            ) by {
                assert(infos_have_name(unique@, unique@[t].name@));
            }
        }
        unique
    }
}

/// A usage declared within a prefix of the files is declared within any
/// longer prefix.
proof fn lemma_usage_in_longer_prefix(
    files: Seq<ManifestFile>,
    i: int,
    j: int,
    d: Seq<char>,
    p: Seq<char>,
    sv: Seq<char>,
    k: Seq<char>,
)
    requires
        0 <= i <= j <= files.len(),
        files_declare_usage(files.take(i), d, p, sv, k),
    ensures
        files_declare_usage(files.take(j), d, p, sv, k),
{
    let ii = choose|ii: int|
        0 <= ii < files.take(i).len() && match crate::manifest::manifest_of(
            (#[trigger] files.take(i)[ii]).text@,
        ) {
            Some(m) => p == checker_pkg_name(m) && manifest_declares_usage(m, d, sv, k),
            None => false,
        };
    assert(files.take(j)[ii] == files.take(i)[ii]);
}

/// Coverage survives adding entries, since the collection keeps every name
/// it holds.
proof fn lemma_cover_monotone(
    pre: Seq<DependencyInfo>,
    post: Seq<DependencyInfo>,
    m: Seq<(Seq<char>, Seq<char>)>,
)
    requires
        infos_cover_map(pre, m),
        forall|k: Seq<char>| infos_have_name(pre, k) ==> infos_have_name(post, k),
    ensures
        infos_cover_map(post, m),
{
}

/// Record `rec` is the outdated record owed to user `u` of dependency `d`
/// whose registry answer was `latest`.
pub open spec fn is_outdated_record_for(
    d: DependencyInfo,
    latest: Seq<char>,
    u: int,
    rec: OutdatedDependency,
) -> bool {
    &&& 0 <= u < d.used_by@.len()
    &&& rec.name@ == d.name@
    &&& rec.current@ == strip_range_prefix(d.version_spec@)
    &&& rec.latest@ == latest
    &&& rec.package@ == d.used_by@[u].0@
    &&& rec.dep_type@ == d.used_by@[u].1@
}

/// The record belongs to some collected dependency whose registry answer
/// came back with a differing latest version.
pub open spec fn outdated_record_justified(
    unique: Seq<DependencyInfo>,
    answers: Seq<Option<String>>,
    rec: OutdatedDependency,
) -> bool {
    exists|i: int, u: int|
        0 <= i < unique.len() && answers[i] is Some && strip_range_prefix(
            unique[i].version_spec@,
        ) != answers[i]->0@ && #[trigger] is_outdated_record_for(unique[i], answers[i]->0@, u, rec)
}

/// Some returned record is the one owed to user `u` of dependency `d`.
pub open spec fn has_outdated_record_for(
    records: Seq<OutdatedDependency>,
    d: DependencyInfo,
    latest: Seq<char>,
    u: int,
) -> bool {
    exists|t: int| 0 <= t < records.len() && is_outdated_record_for(d, latest, u, #[trigger] records[t])
}

/// The outdated records for one dependency, given the registry's answer: no
/// record when the registry gave no answer or the bare current version
/// equals the latest, and otherwise one record per using package.
pub fn process_dependency_version(dep: &DependencyInfo, latest: &Option<String>) -> (r: Vec<
    OutdatedDependency,
>)
    ensures
        match latest {
            Some(l) => {
                if strip_range_prefix(dep.version_spec@) == l@ {
                    r@.len() == 0
                } else {
                    r@.len() == dep.used_by@.len() && (forall|u: int|
                        0 <= u < r@.len() ==> is_outdated_record_for(
                            *dep,
                            l@,
                            u,
                            #[trigger] r@[u],
                        ))
                }
            },
            None => r@.len() == 0,
        },
{
    let mut r: Vec<OutdatedDependency> = Vec::new();
    let latest_version = match latest {
        Some(l) => l,
        None => {
            return r;
        },
    };
    let current_version = extract_version_from_spec(dep.version_spec.as_str());
    if crate::version::is_version_satisfied(current_version.as_str(), latest_version.as_str()) {
        return r;
    }
    let n = dep.used_by.len();
    let mut u: usize = 0;
    while u < n
        invariant
            n == dep.used_by@.len(),
            0 <= u <= n,
            current_version@ == strip_range_prefix(dep.version_spec@),
            latest_version@ == latest->0@,
            r@.len() == u,
            forall|t: int|
                0 <= t < u ==> is_outdated_record_for(*dep, latest_version@, t, #[trigger] r@[t]),
        decreases n - u,
    {
        let record = OutdatedDependency {
            name: dep.name.clone(),
            current: current_version.clone(),
            latest: latest_version.clone(),
            package: dep.used_by[u].0.clone(),
            dep_type: dep.used_by[u].1.clone(),
        };
        r.push(record);
        u = u + 1;
    }
    r
}

/// Joins the registry answers to the collected dependencies: exactly the
/// records that `process_dependency_version` owes, over the whole batch.
pub fn collect_outdated_records(
    unique: &Vec<DependencyInfo>,
    answers: &Vec<Option<String>>,
) -> (r: Vec<OutdatedDependency>)
    requires
        answers@.len() == unique@.len(),
    ensures
        forall|t: int|
            0 <= t < r@.len() ==> outdated_record_justified(unique@, answers@, #[trigger] r@[t]),
        forall|i: int, u: int|
            0 <= i < unique@.len() && answers@[i] is Some && strip_range_prefix(
                unique@[i].version_spec@,
            ) != answers@[i]->0@ && 0 <= u < unique@[i].used_by@.len()
                ==> #[trigger] has_outdated_record_for(r@, unique@[i], answers@[i]->0@, u),
{
    let n = unique.len();
    let mut r: Vec<OutdatedDependency> = Vec::new();
    let mut i: usize = 0;
    while i < n
        invariant
            n == unique@.len(),
            answers@.len() == n,
            0 <= i <= n,
            forall|t: int|
                0 <= t < r@.len() ==> outdated_record_justified(unique@, answers@, #[trigger] r@[t]),
            forall|ii: int, u: int|
                0 <= ii < i && answers@[ii] is Some && strip_range_prefix(
                    unique@[ii].version_spec@,
                ) != answers@[ii]->0@ && 0 <= u < unique@[ii].used_by@.len()
                    ==> #[trigger] has_outdated_record_for(r@, unique@[ii], answers@[ii]->0@, u),
        decreases n - i,
    {
        let ghost pre = r@;
        let recs = process_dependency_version(&unique[i], &answers[i]);
        let rn = recs.len();
        let mut t: usize = 0;
        let mut recs_work = recs;
        let ghost recs0 = recs_work@;
        while t < rn
            invariant
                rn == recs0.len(),
                recs_work@ == recs0.skip(t as int),
                0 <= t <= rn,
                r@ == pre + recs0.take(t as int),
            decreases rn - t,
        {
            let rec = recs_work.remove(0);
            proof {
                assert(recs0.skip(t as int)[0] == recs0[t as int]);
                assert(recs0.skip(t as int).remove(0) =~= recs0.skip(t as int + 1));
            }
            r.push(rec);
            proof {
                assert(r@ =~= pre + recs0.take(t as int + 1));
            }
            t = t + 1;
        }
        proof {
            assert(recs0.take(rn as int) == recs0);
            assert(r@ == pre + recs0);
            if answers@[i as int] is Some && strip_range_prefix(unique@[i as int].version_spec@)
                != answers@[i as int]->0@ {
                assert forall|u: int|
                    0 <= u < unique@[i as int].used_by@.len() implies has_outdated_record_for(
                    r@,
                    unique@[i as int],
                    answers@[i as int]->0@,
                    u,
                ) by {
                    assert(is_outdated_record_for(
                        unique@[i as int],
                        answers@[i as int]->0@,
                        u,
                        recs0[u],
                    ));
                    assert(r@[pre.len() + u] == recs0[u]);
                }
            }
            assert forall|t2: int|
                0 <= t2 < r@.len() implies outdated_record_justified(
                unique@,
                answers@,
                #[trigger] r@[t2],
            ) by {
                if t2 >= pre.len() {
                    let u = t2 - pre.len();
                    assert(r@[t2] == recs0[u]);
                    assert(answers@[i as int] is Some);
                    assert(is_outdated_record_for(
                        unique@[i as int],
                        answers@[i as int]->0@,
                        u,
                        r@[t2],
                    ));
                } else {
                    assert(pre[t2] == r@[t2]);
                }
            }
            assert forall|ii: int, u: int|
                0 <= ii < i + 1 && answers@[ii] is Some && strip_range_prefix(
                    unique@[ii].version_spec@,
                ) != answers@[ii]->0@ && 0 <= u < unique@[ii].used_by@.len() implies
                #[trigger] has_outdated_record_for(r@, unique@[ii], answers@[ii]->0@, u) by {
                if ii < i as int {
                    assert(has_outdated_record_for(pre, unique@[ii], answers@[ii]->0@, u));
                    let t3 = choose|t3: int|
                        0 <= t3 < pre.len() && is_outdated_record_for(
                            unique@[ii],
                            answers@[ii]->0@,
                            u,
                            #[trigger] pre[t3],
                        );
                    assert(r@[t3] == pre[t3]);
                }
            }
        }
        i = i + 1;
    }
    r
}

/// Position `t` is the first record of its dependency name.
pub open spec fn is_first_of_name(s: Seq<OutdatedDependency>, t: int) -> bool {
    forall|j: int| 0 <= j < t ==> (#[trigger] s[j]).name@ != s[t].name@
}

/// How many records among the first `upto` are the first of their name:
/// the number of distinct dependency names among them.
pub open spec fn distinct_name_count(s: Seq<OutdatedDependency>, upto: int) -> nat
    decreases upto,
{
    if upto <= 0 {
        0
    } else {
        distinct_name_count(s, upto - 1) + (if is_first_of_name(s, upto - 1) {
            1nat
        } else {
            0nat
        })
    }
}

/// Some record among the first `upto` carries the name.
pub open spec fn name_seen_before(s: Seq<OutdatedDependency>, upto: int, nm: Seq<char>) -> bool {
    exists|t: int| 0 <= t < upto && (#[trigger] s[t]).name@ == nm
}

/// The number of distinct dependency names among the outdated records.
pub fn get_unique_outdated_count(result: &Vec<OutdatedDependency>) -> (r: usize)
    ensures
        r as nat == distinct_name_count(result@, result@.len() as int),
{
    let n = result.len();
    let mut names: Vec<String> = Vec::new();
    let mut count: usize = 0;
    let mut i: usize = 0;
    while i < n
        invariant
            n == result@.len(),
            0 <= i <= n,
            count <= i,
            count as nat == distinct_name_count(result@, i as int),
            forall|d: Seq<char>|
                #[trigger] crate::strmap::seq_has_string(names@, d) == name_seen_before(
                    result@,
                    i as int,
                    d,
                ),
        decreases n - i,
    {
        let ghost pre = names@;
        let seen = crate::strmap::vec_contains_str(&names, result[i].name.as_str());
        if !seen {
            names.push(result[i].name.clone());
            count = count + 1;
        }
        proof {
            assert(seen == name_seen_before(result@, i as int, result@[i as int].name@));
            assert(is_first_of_name(result@, i as int) == !seen) by {
                if !is_first_of_name(result@, i as int) {
                    let j = choose|j: int|
                        0 <= j < i && (#[trigger] result@[j]).name@ == result@[i as int].name@;
                    assert(name_seen_before(result@, i as int, result@[i as int].name@));
                }
            }
            assert forall|d: Seq<char>|
                #[trigger] crate::strmap::seq_has_string(names@, d) == name_seen_before(
                    result@,
                    i as int + 1,
                    d,
                ) by {
                if seen {
                    if name_seen_before(result@, i as int + 1, d) {
                        let t = choose|t: int|
                            0 <= t < i + 1 && (#[trigger] result@[t]).name@ == d;
                        if t == i as int {
                            assert(d == result@[i as int].name@);
                            assert(name_seen_before(result@, i as int, d));
                        }
                    }
                } else {
                    if crate::strmap::seq_has_string(names@, d) {
                        let t = choose|t: int|
                            0 <= t < names@.len() && (#[trigger] names@[t])@ == d;
                        if t < pre.len() {
                            assert(pre[t]@ == d);
                            assert(crate::strmap::seq_has_string(pre, d));
                            let t2 = choose|t2: int|
                                0 <= t2 < i && (#[trigger] result@[t2]).name@ == d;
                            assert(name_seen_before(result@, i as int + 1, d));
                        } else {
                            assert(result@[i as int].name@ == d);
                        }
                    }
                    if name_seen_before(result@, i as int + 1, d) {
                        let t = choose|t: int|
                            0 <= t < i + 1 && (#[trigger] result@[t]).name@ == d;
                        if t < i as int {
                            assert(name_seen_before(result@, i as int, d));
                            assert(crate::strmap::seq_has_string(pre, d));
                            let t2 = choose|t2: int|
                                0 <= t2 < pre.len() && (#[trigger] pre[t2])@ == d;
                            assert(names@[t2]@ == d);
                        } else {
                            assert(names@[names@.len() - 1]@ == d);
                        }
                    }
                }
            }
        }
        i = i + 1;
    }
    count
}

/// The lexicographic order is transitive.
pub proof fn lemma_lex_trans(a: Seq<char>, b: Seq<char>, c: Seq<char>)
    requires
        lex_le(a, b),
        lex_le(b, c),
    ensures
        lex_le(a, c),
    decreases a.len(),
{
    if a.len() > 0 && b.len() > 0 && c.len() > 0 {
        if (a[0] as int) == (b[0] as int) && (b[0] as int) == (c[0] as int) {
            lemma_lex_trans(a.drop_first(), b.drop_first(), c.drop_first());
        }
    }
}

/// The recommended version is one of the resolved versions and is at or
/// above every resolved version in lexicographic order.
pub open spec fn is_lex_max_version(rec: Seq<char>, usages: Seq<ConflictUsage>) -> bool {
    &&& exists|u: int| 0 <= u < usages.len() && (#[trigger] usages[u]).resolved_version@ == rec
    &&& forall|u: int|
        0 <= u < usages.len() ==> lex_le((#[trigger] usages[u]).resolved_version@, rec)
}

/// The lexicographic maximum of the resolved versions, or "unknown" when
/// there is no usage at all.
pub fn calculate_recommended_version(usages: &Vec<ConflictUsage>) -> (r: String)
    ensures
        usages@.len() == 0 ==> r@ == "unknown"@,
        usages@.len() > 0 ==> is_lex_max_version(r@, usages@),
{
    let n = usages.len();
    if n == 0 {
        return "unknown".to_owned();
    }
    let mut best = usages[0].resolved_version.clone();
    proof {
        lemma_lex_total(best@, best@);
        assert(usages@[0].resolved_version@ == best@);
    }
    let mut i: usize = 1;
    while i < n
        invariant
            n == usages@.len(),
            1 <= i <= n,
            exists|u: int| 0 <= u < i && (#[trigger] usages@[u]).resolved_version@ == best@,
            forall|u: int|
                0 <= u < i ==> lex_le((#[trigger] usages@[u]).resolved_version@, best@),
        decreases n - i,
    {
        let ghost pre_best = best@;
        if str_lex_le(best.as_str(), usages[i].resolved_version.as_str()) {
            best = usages[i].resolved_version.clone();
            proof {
                assert(usages@[i as int].resolved_version@ == best@);
                assert forall|u: int|
                    0 <= u < i + 1 implies lex_le(
                    (#[trigger] usages@[u]).resolved_version@,
                    best@,
                ) by {
                    if u < i as int {
                        lemma_lex_trans(usages@[u].resolved_version@, pre_best, best@);
                    } else {
                        lemma_lex_total(best@, best@);
                    }
                }
            }
        } else {
            proof {
                lemma_lex_total(best@, usages@[i as int].resolved_version@);
            }
        }
        i = i + 1;
    }
    best
}

/// Some group is keyed by the version.
pub open spec fn groups_have_version(
    groups: Seq<(String, Vec<ConflictUsage>)>,
    v: Seq<char>,
) -> bool {
    exists|g: int| 0 <= g < groups.len() && (#[trigger] groups[g]).0@ == v
}

/// The name groups every usage of one resolved version together, position
/// by position: group keys are distinct resolved versions, every member of a
/// group resolves to its key, and every usage's version appears as a key.
pub open spec fn version_groups_wf(
    usages: Seq<ConflictUsage>,
    groups: Seq<(String, Vec<ConflictUsage>)>,
) -> bool {
    &&& forall|g1: int, g2: int| 0 <= g1 < g2 < groups.len() ==> groups[g1].0@ != groups[g2].0@
    &&& forall|g: int, x: int|
        #![trigger groups[g].1@[x]]
        0 <= g < groups.len() && 0 <= x < groups[g].1@.len() ==> groups[g].1@[x].resolved_version@
            == groups[g].0@
    &&& forall|g: int| 0 <= g < groups.len() ==> (#[trigger] groups[g]).1@.len() > 0
    &&& forall|u: int|
        0 <= u < usages.len() ==> #[trigger] groups_have_version(
            groups,
            usages[u].resolved_version@,
        )
}

/// Groups the usages by resolved version.
pub fn group_by_version(usages: &Vec<ConflictUsage>) -> (groups: Vec<(String, Vec<ConflictUsage>)>)
    ensures
        version_groups_wf(usages@, groups@),
{
    let n = usages.len();
    let mut groups: Vec<(String, Vec<ConflictUsage>)> = Vec::new();
    let mut i: usize = 0;
    while i < n
        invariant
            n == usages@.len(),
            0 <= i <= n,
            forall|g1: int, g2: int|
                0 <= g1 < g2 < groups@.len() ==> groups@[g1].0@ != groups@[g2].0@,
            forall|g: int, x: int|
                #![trigger groups@[g].1@[x]]
                0 <= g < groups@.len() && 0 <= x < groups@[g].1@.len()
                    ==> groups@[g].1@[x].resolved_version@ == groups@[g].0@,
            forall|g: int| 0 <= g < groups@.len() ==> (#[trigger] groups@[g]).1@.len() > 0,
            forall|u: int|
                0 <= u < i ==> #[trigger] groups_have_version(
                    groups@,
                    usages@[u].resolved_version@,
                ),
        decreases n - i,
    {
        let ghost pre = groups@;
        let version = usages[i].resolved_version.clone();
        let gn = groups.len();
        let mut found_idx: usize = gn;
        let mut g: usize = 0;
        while g < gn && found_idx == gn
            invariant
                n == usages@.len(),
                0 <= i < n,
                gn == groups@.len(),
                groups@ == pre,
                0 <= g <= gn,
                version@ == usages@[i as int].resolved_version@,
                found_idx == gn ==> forall|gg: int|
                    0 <= gg < g ==> (#[trigger] groups@[gg]).0@ != version@,
                found_idx < gn ==> groups@[found_idx as int].0@ == version@,
                found_idx <= gn,
            decreases gn - g, (if found_idx == gn { 1int } else { 0int }),
        {
            if str_eq(groups[g].0.as_str(), version.as_str()) {
                found_idx = g;
            } else {
                g = g + 1;
            }
        }
        if found_idx < gn {
            let gi = found_idx;
            let member = usages[i].clone();
            let ghost pre_g = groups@[gi as int];
            let entry = &groups[gi];
            let mut members = clone_usages(&entry.1);
            members.push(member);
            let key = entry.0.clone();
            groups.set(gi, (key, members));
            proof {
                assert(groups@[gi as int].0@ == version@);
                assert forall|g1: int, g2: int|
                    0 <= g1 < g2 < groups@.len() implies groups@[g1].0@ != groups@[g2].0@ by {
                    assert(pre[g1].0@ != pre[g2].0@);
                    if g1 != gi as int {
                        assert(groups@[g1] == pre[g1]);
                    }
                    if g2 != gi as int {
                        assert(groups@[g2] == pre[g2]);
                    }
                    assert(groups@[gi as int].0@ == pre[gi as int].0@);
                }
                assert forall|gg: int, x: int|
                    #![trigger groups@[gg].1@[x]]
                    0 <= gg < groups@.len() && 0 <= x < groups@[gg].1@.len() implies
                    groups@[gg].1@[x].resolved_version@ == groups@[gg].0@ by {
                    if gg == gi as int {
                        if x < pre_g.1@.len() {
                            assert(groups@[gg].1@[x] == pre_g.1@[x]);
                        }
                    } else {
                        assert(groups@[gg] == pre[gg]);
                    }
                }
                assert forall|u: int|
                    0 <= u < i + 1 implies #[trigger] groups_have_version(
                    groups@,
                    usages@[u].resolved_version@,
                ) by {
                    if u < i as int {
                        assert(groups_have_version(pre, usages@[u].resolved_version@));
                        let gg = choose|gg: int|
                            0 <= gg < pre.len() && (#[trigger] pre[gg]).0@
                                == usages@[u].resolved_version@;
                        assert(groups@[gg].0@ == pre[gg].0@);
                    } else {
                        assert(groups@[gi as int].0@ == usages@[u].resolved_version@);
                    }
                }
            }
        } else {
            let member = usages[i].clone();
            let mut members: Vec<ConflictUsage> = Vec::new();
            members.push(member);
            groups.push((version, members));
            proof {
                assert(groups@.last().0@ == usages@[i as int].resolved_version@);
                assert forall|g1: int, g2: int|
                    0 <= g1 < g2 < groups@.len() implies groups@[g1].0@ != groups@[g2].0@ by {
                    if g2 == groups@.len() - 1 {
                        assert(groups@[g1] == pre[g1]);
                    } else {
                        assert(groups@[g1] == pre[g1]);
                        assert(groups@[g2] == pre[g2]);
                    }
                }
                assert forall|u: int|
                    0 <= u < i + 1 implies #[trigger] groups_have_version(
                    groups@,
                    usages@[u].resolved_version@,
                ) by {
                    if u < i as int {
                        assert(groups_have_version(pre, usages@[u].resolved_version@));
                        let gg = choose|gg: int|
                            0 <= gg < pre.len() && (#[trigger] pre[gg]).0@
                                == usages@[u].resolved_version@;
                        assert(groups@[gg] == pre[gg]);
                    } else {
                        assert(groups@[groups@.len() - 1].0@ == usages@[u].resolved_version@);
                    }
                }
            }
        }
        i = i + 1;
    }
    groups
}

/// Two usages resolve to different bare versions.
pub open spec fn has_two_distinct_versions(usages: Seq<ConflictUsage>) -> bool {
    exists|u1: int, u2: int|
        0 <= u1 < usages.len() && 0 <= u2 < usages.len() && (
        #[trigger] usages[u1]).resolved_version@ != (#[trigger] usages[u2]).resolved_version@
}

/// Two usages come from different packages.
pub open spec fn has_two_distinct_packages(usages: Seq<ConflictUsage>) -> bool {
    exists|u1: int, u2: int|
        0 <= u1 < usages.len() && 0 <= u2 < usages.len() && (#[trigger] usages[u1]).package@ != (
        #[trigger] usages[u2]).package@
}

/// One emitted conflict is owed to one collected usage group: same name,
/// the same usages, use by two or more distinct packages at two or more
/// distinct resolved versions, and the lexicographic maximum recommended.
pub open spec fn conflict_matches_group(
    group: (String, Vec<ConflictUsage>),
    c: VersionConflict,
) -> bool {
    &&& c.name@ == group.0@
    &&& c.conflicts@ == group.1@
    &&& has_two_distinct_packages(group.1@)
    &&& has_two_distinct_versions(group.1@)
    &&& is_lex_max_version(c.recommended_version@, group.1@)
}

/// The conflict is owed to some collected usage group.
pub open spec fn conflict_justified(
    usage_groups: Seq<(String, Vec<ConflictUsage>)>,
    c: VersionConflict,
) -> bool {
    exists|g: int|
        0 <= g < usage_groups.len() && #[trigger] conflict_matches_group(usage_groups[g], c)
}

/// Finds the dependencies that two or more distinct packages use at two or
/// more distinct resolved versions: exactly those usage groups are
/// reported, each with the lexicographic maximum recommended.
pub fn find_version_conflicts(usage_groups: &Vec<(String, Vec<ConflictUsage>)>) -> (r: Vec<
    VersionConflict,
>)
    ensures
        forall|t: int|
            0 <= t < r@.len() ==> #[trigger] conflict_justified(usage_groups@, r@[t]),
        forall|g: int|
            0 <= g < usage_groups@.len() && has_two_distinct_packages(
                (#[trigger] usage_groups@[g]).1@,
            ) && has_two_distinct_versions(usage_groups@[g].1@) ==> exists|t: int|
                0 <= t < r@.len() && #[trigger] conflict_matches_group(usage_groups@[g], r@[t]),
{
    let n = usage_groups.len();
    let mut r: Vec<VersionConflict> = Vec::new();
    let mut g: usize = 0;
    while g < n
        invariant
            n == usage_groups@.len(),
            0 <= g <= n,
            forall|t: int|
                0 <= t < r@.len() ==> #[trigger] conflict_justified(usage_groups@, r@[t]),
            forall|gg: int|
                0 <= gg < g && has_two_distinct_packages((#[trigger] usage_groups@[gg]).1@)
                    && has_two_distinct_versions(usage_groups@[gg].1@) ==> exists|t: int|
                    0 <= t < r@.len() && #[trigger] conflict_matches_group(
                        usage_groups@[gg],
                        r@[t],
                    ),
        decreases n - g,
    {
        let ghost pre = r@;
        let usages = &usage_groups[g].1;
        let packages = distinct_packages(usages);
        if packages.len() >= 2 {
            let versions = distinct_resolved_versions(usages);
            if versions.len() >= 2 {
                let recommended_version = calculate_recommended_version(usages);
                let conflict = VersionConflict {
                    name: usage_groups[g].0.clone(),
                    conflicts: clone_usages(usages),
                    recommended_version,
                };
                r.push(conflict);
                proof {
                    assert(versions@[0]@ != versions@[1]@);
                    assert(is_usage_version(usages@, versions@[0]@));
                    assert(is_usage_version(usages@, versions@[1]@));
                    let u1 = choose|u1: int|
                        0 <= u1 < usages@.len() && (#[trigger] usages@[u1]).resolved_version@
                            == versions@[0]@;
                    let u2 = choose|u2: int|
                        0 <= u2 < usages@.len() && (#[trigger] usages@[u2]).resolved_version@
                            == versions@[1]@;
                    assert(has_two_distinct_versions(usages@));
                    assert(packages@[0]@ != packages@[1]@);
                    assert(is_usage_package(usages@, packages@[0]@));
                    assert(is_usage_package(usages@, packages@[1]@));
                    let w1 = choose|w1: int|
                        0 <= w1 < usages@.len() && (#[trigger] usages@[w1]).package@
                            == packages@[0]@;
                    let w2 = choose|w2: int|
                        0 <= w2 < usages@.len() && (#[trigger] usages@[w2]).package@
                            == packages@[1]@;
                    assert(has_two_distinct_packages(usages@));
                    assert(conflict_matches_group(usage_groups@[g as int], r@.last()));
                    assert forall|t: int|
                        0 <= t < r@.len() implies #[trigger] conflict_justified(
                        usage_groups@,
                        r@[t],
                    ) by {
                        if t < pre.len() {
                            assert(r@[t] == pre[t]);
                        } else {
                            assert(conflict_matches_group(usage_groups@[g as int], r@[t]));
                        }
                    }
                }
            } else {
                proof {
                    if has_two_distinct_versions(usages@) {
                        let (u1, u2) = choose|u1: int, u2: int|
                            0 <= u1 < usages@.len() && 0 <= u2 < usages@.len() && (
                            #[trigger] usages@[u1]).resolved_version@ != (
                            #[trigger] usages@[u2]).resolved_version@;
                        assert(version_listed(versions@, usages@[u1].resolved_version@));
                        assert(version_listed(versions@, usages@[u2].resolved_version@));
                        let g1 = choose|g1: int|
                            0 <= g1 < versions@.len() && (#[trigger] versions@[g1])@
                                == usages@[u1].resolved_version@;
                        let g2 = choose|g2: int|
                            0 <= g2 < versions@.len() && (#[trigger] versions@[g2])@
                                == usages@[u2].resolved_version@;
                        assert(g1 != g2);
                        assert(false);
                    }
                }
            }
        } else {
            proof {
                if has_two_distinct_packages(usages@) {
                    let (u1, u2) = choose|u1: int, u2: int|
                        0 <= u1 < usages@.len() && 0 <= u2 < usages@.len() && (
                        #[trigger] usages@[u1]).package@ != (#[trigger] usages@[u2]).package@;
                    assert(package_listed(packages@, usages@[u1].package@));
                    assert(package_listed(packages@, usages@[u2].package@));
                    let g1 = choose|g1: int|
                        0 <= g1 < packages@.len() && (#[trigger] packages@[g1])@
                            == usages@[u1].package@;
                    let g2 = choose|g2: int|
                        0 <= g2 < packages@.len() && (#[trigger] packages@[g2])@
                            == usages@[u2].package@;
                    assert(g1 != g2);
                    assert(false);
                }
            }
        }
        proof {
            assert forall|t: int| 0 <= t < pre.len() implies r@[t] == pre[t] by {}
        }
        g = g + 1;
    }
    r
}

/// Some usage comes from the package.
pub open spec fn is_usage_package(usages: Seq<ConflictUsage>, p: Seq<char>) -> bool {
    exists|u: int| 0 <= u < usages.len() && (#[trigger] usages[u]).package@ == p
}

/// The package list carries the package.
pub open spec fn package_listed(r: Seq<String>, p: Seq<char>) -> bool {
    exists|a: int| 0 <= a < r.len() && (#[trigger] r[a])@ == p
}

/// The distinct packages among the usages: no two members are equal, every
/// member occurs, and every usage's package is a member.
fn distinct_packages(usages: &Vec<ConflictUsage>) -> (r: Vec<String>)
    ensures
        forall|a: int, b: int| 0 <= a < b < r@.len() ==> (#[trigger] r@[a])@ != (#[trigger] r@[b])@,
        forall|a: int|
            0 <= a < r@.len() ==> #[trigger] is_usage_package(usages@, r@[a]@),
        forall|u: int|
            0 <= u < usages@.len() ==> #[trigger] package_listed(r@, usages@[u].package@),
{
    let n = usages.len();
    let mut r: Vec<String> = Vec::new();
    let mut i: usize = 0;
    while i < n
        invariant
            n == usages@.len(),
            0 <= i <= n,
            forall|a: int, b: int|
                0 <= a < b < r@.len() ==> (#[trigger] r@[a])@ != (#[trigger] r@[b])@,
            forall|a: int|
                0 <= a < r@.len() ==> #[trigger] is_usage_package(usages@, r@[a]@),
            forall|u: int|
                0 <= u < i ==> #[trigger] package_listed(r@, usages@[u].package@),
        decreases n - i,
    {
        let ghost pre = r@;
        if !crate::strmap::vec_contains_str(&r, usages[i].package.as_str()) {
            r.push(usages[i].package.clone());
            proof {
                assert(r@.last()@ == usages@[i as int].package@);
                assert forall|a: int, b: int|
                    0 <= a < b < r@.len() implies (#[trigger] r@[a])@ != (#[trigger] r@[b])@ by {
                    if b == r@.len() - 1 {
                        assert(!crate::strmap::seq_has_string(pre, usages@[i as int].package@));
                        assert(pre[a] == r@[a]);
                    }
                }
                assert forall|a: int|
                    0 <= a < r@.len() implies #[trigger] is_usage_package(usages@, r@[a]@) by {
                    if a < pre.len() {
                        assert(r@[a] == pre[a]);
                        assert(is_usage_package(usages@, pre[a]@));
                    } else {
                        assert(usages@[i as int].package@ == r@[a]@);
                    }
                }
                assert forall|u: int|
                    0 <= u < i + 1 implies #[trigger] package_listed(
                    r@,
                    usages@[u].package@,
                ) by {
                    if u < i as int {
                        assert(package_listed(pre, usages@[u].package@));
                        let a = choose|a: int|
                            0 <= a < pre.len() && (#[trigger] pre[a])@ == usages@[u].package@;
                        assert(r@[a]@ == usages@[u].package@);
                    } else {
                        assert(r@[r@.len() - 1]@ == usages@[u].package@);
                    }
                }
            }
        } else {
            proof {
                assert(crate::strmap::seq_has_string(r@, usages@[i as int].package@));
                let a = choose|a: int|
                    0 <= a < r@.len() && (#[trigger] r@[a])@ == usages@[i as int].package@;
                assert(package_listed(r@, usages@[i as int].package@));
            }
        }
        i = i + 1;
    }
    r
}

/// Some usage resolves to the version.
pub open spec fn is_usage_version(usages: Seq<ConflictUsage>, v: Seq<char>) -> bool {
    exists|u: int| 0 <= u < usages.len() && (#[trigger] usages[u]).resolved_version@ == v
}

/// The version list carries the version.
pub open spec fn version_listed(r: Seq<String>, v: Seq<char>) -> bool {
    exists|a: int| 0 <= a < r.len() && (#[trigger] r[a])@ == v
}

/// The distinct resolved versions among the usages: no two members are
/// equal, every member occurs, and every usage's version is a member.
fn distinct_resolved_versions(usages: &Vec<ConflictUsage>) -> (r: Vec<String>)
    ensures
        forall|a: int, b: int| 0 <= a < b < r@.len() ==> (#[trigger] r@[a])@ != (#[trigger] r@[b])@,
        forall|a: int|
            0 <= a < r@.len() ==> #[trigger] is_usage_version(usages@, r@[a]@),
        forall|u: int|
            0 <= u < usages@.len() ==> #[trigger] version_listed(
                r@,
                usages@[u].resolved_version@,
            ),
{
    let n = usages.len();
    let mut r: Vec<String> = Vec::new();
    let mut i: usize = 0;
    while i < n
        invariant
            n == usages@.len(),
            0 <= i <= n,
            forall|a: int, b: int|
                0 <= a < b < r@.len() ==> (#[trigger] r@[a])@ != (#[trigger] r@[b])@,
            forall|a: int|
                0 <= a < r@.len() ==> #[trigger] is_usage_version(usages@, r@[a]@),
            forall|u: int|
                0 <= u < i ==> #[trigger] version_listed(r@, usages@[u].resolved_version@),
        decreases n - i,
    {
        let ghost pre = r@;
        if !crate::strmap::vec_contains_str(&r, usages[i].resolved_version.as_str()) {
            r.push(usages[i].resolved_version.clone());
            proof {
                assert(r@.last()@ == usages@[i as int].resolved_version@);
                assert forall|a: int, b: int|
                    0 <= a < b < r@.len() implies (#[trigger] r@[a])@ != (#[trigger] r@[b])@ by {
                    if b == r@.len() - 1 {
                        assert(!crate::strmap::seq_has_string(
                            pre,
                            usages@[i as int].resolved_version@,
                        ));
                        assert(pre[a] == r@[a]);
                    }
                }
                assert forall|a: int|
                    0 <= a < r@.len() implies #[trigger] is_usage_version(usages@, r@[a]@) by {
                    if a < pre.len() {
                        assert(r@[a] == pre[a]);
                        assert(is_usage_version(usages@, pre[a]@));
                    } else {
                        assert(usages@[i as int].resolved_version@ == r@[a]@);
                    }
                }
                assert forall|u: int|
                    0 <= u < i + 1 implies #[trigger] version_listed(
                    r@,
                    usages@[u].resolved_version@,
                ) by {
                    if u < i as int {
                        assert(version_listed(pre, usages@[u].resolved_version@));
                        let a = choose|a: int|
                            0 <= a < pre.len() && (#[trigger] pre[a])@
                                == usages@[u].resolved_version@;
                        assert(r@[a]@ == usages@[u].resolved_version@);
                    } else {
                        assert(r@[r@.len() - 1]@ == usages@[u].resolved_version@);
                    }
                }
            }
        } else {
            proof {
                assert(crate::strmap::seq_has_string(r@, usages@[i as int].resolved_version@));
                let a = choose|a: int|
                    0 <= a < r@.len() && (#[trigger] r@[a])@
                        == usages@[i as int].resolved_version@;
                assert(version_listed(r@, usages@[i as int].resolved_version@));
            }
        }
        i = i + 1;
    }
    r
}

/// Well-formed usage groups keyed by dependency name: distinct keys,
/// nonempty groups, no locally-resolving usage, and each usage's resolved
/// version is its spec with the range operator stripped.
pub open spec fn usage_groups_entries_wf(groups: Seq<(String, Vec<ConflictUsage>)>) -> bool {
    &&& forall|g1: int, g2: int| 0 <= g1 < g2 < groups.len() ==> groups[g1].0@ != groups[g2].0@
    &&& forall|g: int| 0 <= g < groups.len() ==> (#[trigger] groups[g]).1@.len() > 0
    &&& forall|g: int, x: int|
        #![trigger groups[g].1@[x]]
        0 <= g < groups.len() && 0 <= x < groups[g].1@.len() ==> !is_skipped_spec(
            groups[g].1@[x].version_spec@,
        ) && groups[g].1@[x].resolved_version@ == strip_range_prefix(
            groups[g].1@[x].version_spec@,
        )
}

/// The package name this collector reads from a decoded manifest:
/// the manifest's name field, or "unknown".
pub open spec fn checker_pkg_name(m: crate::manifest::ManifestView) -> Seq<char> {
    match m.name {
        Some(n) => n,
        None => "unknown"@,
    }
}

/// The view-level dependency map declares the name with the spec.
pub open spec fn map_declares(m: Seq<(Seq<char>, Seq<char>)>, d: Seq<char>, sv: Seq<char>) -> bool {
    exists|e: int| 0 <= e < m.len() && #[trigger] m[e] == (d, sv)
}

/// The decoded manifest declares a non-locally-resolving dependency `d`
/// with spec `sv` under kind `k`.
pub open spec fn manifest_declares_usage(
    m: crate::manifest::ManifestView,
    d: Seq<char>,
    sv: Seq<char>,
    k: Seq<char>,
) -> bool {
    !is_skipped_spec(sv) && ((k == "dependencies"@ && map_declares(m.dependencies, d, sv)) || (k
        == "devDependencies"@ && map_declares(m.dev_dependencies, d, sv)) || (k
        == "peerDependencies"@ && map_declares(m.peer_dependencies, d, sv)))
}

/// Some decodable manifest of the files declares the usage: dependency `d`
/// at spec `sv` under kind `k` in the package named `p`.
pub open spec fn files_declare_usage(
    files: Seq<ManifestFile>,
    d: Seq<char>,
    p: Seq<char>,
    sv: Seq<char>,
    k: Seq<char>,
) -> bool {
    exists|i: int|
        0 <= i < files.len() && match crate::manifest::manifest_of((#[trigger] files[i]).text@) {
            Some(m) => p == checker_pkg_name(m) && manifest_declares_usage(m, d, sv, k),
            None => false,
        }
}

/// The group of dependency `d` holds a usage by package `p` at spec `sv`
/// under kind `k`.
pub open spec fn group_has_usage(
    groups: Seq<(String, Vec<ConflictUsage>)>,
    d: Seq<char>,
    p: Seq<char>,
    sv: Seq<char>,
    k: Seq<char>,
) -> bool {
    exists|g: int, x: int|
        0 <= g < groups.len() && 0 <= x < groups[g].1@.len() && groups[g].0@ == d && (
        #[trigger] groups[g].1@[x]).package@ == p && groups[g].1@[x].version_spec@ == sv
            && groups[g].1@[x].dep_type@ == k
}

/// Some reported conflict names the dependency.
pub open spec fn conflicts_name(r: Seq<VersionConflict>, d: Seq<char>) -> bool {
    exists|t: int| 0 <= t < r.len() && (#[trigger] r[t]).name@ == d
}

/// Some group is keyed by the dependency name.
pub open spec fn usage_groups_have_name(
    groups: Seq<(String, Vec<ConflictUsage>)>,
    k: Seq<char>,
) -> bool {
    exists|g: int| 0 <= g < groups.len() && (#[trigger] groups[g]).0@ == k
}

/// Appends one usage to the group of its dependency name, starting the
/// group when the name is new.
fn add_usage(
    groups: &mut Vec<(String, Vec<ConflictUsage>)>,
    dep_name: &str,
    usage: ConflictUsage,
)
    requires
        usage_groups_entries_wf(old(groups)@),
        !is_skipped_spec(usage.version_spec@),
        usage.resolved_version@ == strip_range_prefix(usage.version_spec@),
    ensures
        usage_groups_entries_wf(final(groups)@),
        usage_groups_have_name(final(groups)@, dep_name@),
        forall|k: Seq<char>|
            #[trigger] usage_groups_have_name(old(groups)@, k) ==> usage_groups_have_name(
                final(groups)@,
                k,
            ),
        group_has_usage(
            final(groups)@,
            dep_name@,
            usage.package@,
            usage.version_spec@,
            usage.dep_type@,
        ),
        forall|d: Seq<char>, p: Seq<char>, sv: Seq<char>, k: Seq<char>|
            #[trigger] group_has_usage(old(groups)@, d, p, sv, k) ==> group_has_usage(
                final(groups)@,
                d,
                p,
                sv,
                k,
            ),
{
    let n = groups.len();
    let ghost pre = groups@;
    let mut found_idx: usize = n;
    let mut g: usize = 0;
    while g < n && found_idx == n
        invariant
            n == groups@.len(),
            groups@ == pre,
            0 <= g <= n,
            found_idx <= n,
            found_idx < n ==> groups@[found_idx as int].0@ == dep_name@,
            found_idx == n ==> forall|gg: int|
                0 <= gg < g ==> (#[trigger] groups@[gg]).0@ != dep_name@,
        decreases n - g, (if found_idx == n { 1int } else { 0int }),
    {
        if str_eq(groups[g].0.as_str(), dep_name) {
            found_idx = g;
        } else {
            g = g + 1;
        }
    }
    if found_idx < n {
        let gi = found_idx;
        let ghost pre_g = groups@[gi as int];
        let entry = &groups[gi];
        let mut members = clone_usages(&entry.1);
        members.push(usage);
        let key = entry.0.clone();
        groups.set(gi, (key, members));
        proof {
            assert forall|g1: int, g2: int|
                0 <= g1 < g2 < groups@.len() implies groups@[g1].0@ != groups@[g2].0@ by {
                assert(pre[g1].0@ != pre[g2].0@);
                if g1 != gi as int {
                    assert(groups@[g1] == pre[g1]);
                }
                if g2 != gi as int {
                    assert(groups@[g2] == pre[g2]);
                }
                assert(groups@[gi as int].0@ == pre[gi as int].0@);
            }
            assert forall|gg: int, x: int|
                #![trigger groups@[gg].1@[x]]
                0 <= gg < groups@.len() && 0 <= x < groups@[gg].1@.len() implies !is_skipped_spec(
                groups@[gg].1@[x].version_spec@,
            ) && groups@[gg].1@[x].resolved_version@ == strip_range_prefix(
                groups@[gg].1@[x].version_spec@,
            ) by {
                if gg == gi as int {
                    if x < pre_g.1@.len() {
                        assert(groups@[gg].1@[x] == pre_g.1@[x]);
                    }
                } else {
                    assert(groups@[gg] == pre[gg]);
                }
            }
            assert(usage_groups_have_name(groups@, dep_name@)) by {
                assert(groups@[gi as int].0@ == dep_name@);
            }
            assert forall|k: Seq<char>|
                #[trigger] usage_groups_have_name(pre, k) implies usage_groups_have_name(
                groups@,
                k,
            ) by {
                let g2 = choose|g2: int| 0 <= g2 < pre.len() && (#[trigger] pre[g2]).0@ == k;
                assert(groups@[g2].0@ == pre[g2].0@) by {
                    if g2 != gi as int {
                        assert(groups@[g2] == pre[g2]);
                    }
                }
            }
            assert(group_has_usage(
                groups@,
                dep_name@,
                usage.package@,
                usage.version_spec@,
                usage.dep_type@,
            )) by {
                let x = groups@[gi as int].1@.len() - 1;
                assert(groups@[gi as int].1@[x] == usage);
            }
            assert forall|d: Seq<char>, p: Seq<char>, sv: Seq<char>, k: Seq<char>|
                #[trigger] group_has_usage(pre, d, p, sv, k) implies group_has_usage(
                groups@,
                d,
                p,
                sv,
                k,
            ) by {
                let (g2, x2) = choose|g2: int, x2: int|
                    0 <= g2 < pre.len() && 0 <= x2 < pre[g2].1@.len() && pre[g2].0@ == d && (
                    #[trigger] pre[g2].1@[x2]).package@ == p && pre[g2].1@[x2].version_spec@ == sv
                        && pre[g2].1@[x2].dep_type@ == k;
                if g2 == gi as int {
                    assert(groups@[g2].1@[x2] == pre_g.1@[x2]);
                    assert(groups@[g2].0@ == pre[g2].0@);
                } else {
                    assert(groups@[g2] == pre[g2]);
                }
            }
        }
    } else {
        let mut members: Vec<ConflictUsage> = Vec::new();
        members.push(usage);
        groups.push((dep_name.to_owned(), members));
        proof {
            assert forall|g1: int, g2: int|
                0 <= g1 < g2 < groups@.len() implies groups@[g1].0@ != groups@[g2].0@ by {
                if g2 == groups@.len() - 1 {
                    assert(groups@[g1] == pre[g1]);
                    assert(pre[g1].0@ != dep_name@);
                } else {
                    assert(groups@[g1] == pre[g1]);
                    assert(groups@[g2] == pre[g2]);
                }
            }
            assert forall|gg: int, x: int|
                #![trigger groups@[gg].1@[x]]
                0 <= gg < groups@.len() && 0 <= x < groups@[gg].1@.len() implies !is_skipped_spec(
                groups@[gg].1@[x].version_spec@,
            ) && groups@[gg].1@[x].resolved_version@ == strip_range_prefix(
                groups@[gg].1@[x].version_spec@,
            ) by {
                if gg < groups@.len() - 1 {
                    assert(groups@[gg] == pre[gg]);
                }
            }
            assert(group_has_usage(
                groups@,
                dep_name@,
                usage.package@,
                usage.version_spec@,
                usage.dep_type@,
            )) by {
                let g2 = groups@.len() - 1;
                assert(groups@[g2].0@ == dep_name@);
                assert(groups@[g2].1@[0] == usage);
            }
            assert forall|d: Seq<char>, p: Seq<char>, sv: Seq<char>, k: Seq<char>|
                #[trigger] group_has_usage(pre, d, p, sv, k) implies group_has_usage(
                groups@,
                d,
                p,
                sv,
                k,
            ) by {
                let (g2, x2) = choose|g2: int, x2: int|
                    0 <= g2 < pre.len() && 0 <= x2 < pre[g2].1@.len() && pre[g2].0@ == d && (
                    #[trigger] pre[g2].1@[x2]).package@ == p && pre[g2].1@[x2].version_spec@ == sv
                        && pre[g2].1@[x2].dep_type@ == k;
                assert(groups@[g2] == pre[g2]);
            }
            assert(usage_groups_have_name(groups@, dep_name@)) by {
                assert(groups@[groups@.len() - 1].0@ == dep_name@);
            }
            assert forall|k: Seq<char>|
                #[trigger] usage_groups_have_name(pre, k) implies usage_groups_have_name(
                groups@,
                k,
            ) by {
                let g2 = choose|g2: int| 0 <= g2 < pre.len() && (#[trigger] pre[g2]).0@ == k;
                assert(groups@[g2] == pre[g2]);
            }
        }
    }
}

/// Every non-locally-resolving entry of a view-level dependency map has its
/// name among the usage groups.
pub open spec fn groups_cover_map(
    groups: Seq<(String, Vec<ConflictUsage>)>,
    m: Seq<(Seq<char>, Seq<char>)>,
) -> bool {
    forall|e: int|
        0 <= e < m.len() && !is_skipped_spec((#[trigger] m[e]).1) ==> usage_groups_have_name(
            groups,
            m[e].0,
        )
}

/// Folds one dependency map of a manifest into the name-keyed usage groups.
fn collect_usages_from_map(
    map: &Vec<(String, String)>,
    dep_type: &str,
    package_name: &str,
    groups: &mut Vec<(String, Vec<ConflictUsage>)>,
)
    requires
        usage_groups_entries_wf(old(groups)@),
    ensures
        usage_groups_entries_wf(final(groups)@),
        groups_cover_map(final(groups)@, crate::manifest::str_pairs_view(map@)),
        forall|k: Seq<char>|
            #[trigger] usage_groups_have_name(old(groups)@, k) ==> usage_groups_have_name(
                final(groups)@,
                k,
            ),
        forall|e: int|
            0 <= e < map@.len() && !is_skipped_spec((#[trigger] map@[e]).1@) ==> group_has_usage(
                final(groups)@,
                map@[e].0@,
                package_name@,
                map@[e].1@,
                dep_type@,
            ),
        forall|d: Seq<char>, p: Seq<char>, sv: Seq<char>, k: Seq<char>|
            #[trigger] group_has_usage(old(groups)@, d, p, sv, k) ==> group_has_usage(
                final(groups)@,
                d,
                p,
                sv,
                k,
            ),
{
    let ghost mv = crate::manifest::str_pairs_view(map@);
    let n = map.len();
    let mut e: usize = 0;
    while e < n
        invariant
            n == map@.len(),
            mv == crate::manifest::str_pairs_view(map@),
            0 <= e <= n,
            usage_groups_entries_wf(groups@),
            forall|ee: int|
                0 <= ee < e && !is_skipped_spec((#[trigger] mv[ee]).1)
                    ==> usage_groups_have_name(groups@, mv[ee].0),
            forall|k: Seq<char>|
                #[trigger] usage_groups_have_name(old(groups)@, k) ==> usage_groups_have_name(
                    groups@,
                    k,
                ),
            forall|ee: int|
                0 <= ee < e && !is_skipped_spec((#[trigger] map@[ee]).1@) ==> group_has_usage(
                    groups@,
                    map@[ee].0@,
                    package_name@,
                    map@[ee].1@,
                    dep_type@,
                ),
            forall|d: Seq<char>, p: Seq<char>, sv: Seq<char>, k: Seq<char>|
                #[trigger] group_has_usage(old(groups)@, d, p, sv, k) ==> group_has_usage(
                    groups@,
                    d,
                    p,
                    sv,
                    k,
                ),
        decreases n - e,
    {
        let ghost pre = groups@;
        if !should_skip_dependency(map[e].1.as_str()) {
            let resolved = extract_version_from_spec(map[e].1.as_str());
            let usage = ConflictUsage {
                package: package_name.to_owned(),
                version_spec: map[e].1.clone(),
                resolved_version: resolved,
                dep_type: dep_type.to_owned(),
            };
            add_usage(groups, map[e].0.as_str(), usage);
        }
        proof {
            assert(mv[e as int] == (map@[e as int].0@, map@[e as int].1@));
            assert forall|ee: int|
                0 <= ee < e + 1 && !is_skipped_spec((#[trigger] mv[ee]).1) implies
                usage_groups_have_name(groups@, mv[ee].0) by {
                if ee < e as int {
                    assert(usage_groups_have_name(pre, mv[ee].0));
                }
            }
            assert forall|ee: int|
                0 <= ee < e + 1 && !is_skipped_spec((#[trigger] map@[ee]).1@) implies
                group_has_usage(
                groups@,
                map@[ee].0@,
                package_name@,
                map@[ee].1@,
                dep_type@,
            ) by {
                if ee < e as int {
                    assert(group_has_usage(
                        pre,
                        map@[ee].0@,
                        package_name@,
                        map@[ee].1@,
                        dep_type@,
                    ));
                }
            }
        }
        e = e + 1;
    }
}

/// Collects, across every manifest that decodes, the usage groups keyed by
/// dependency name, skipping every locally-resolving spec and keeping every
/// other declared dependency.
pub fn collect_dependency_usages(files: &Vec<ManifestFile>) -> (groups: Vec<
    (String, Vec<ConflictUsage>),
>)
    ensures
        usage_groups_entries_wf(groups@),
        groups_collected_from(groups@, files@),
{
    let n = files.len();
    let mut groups: Vec<(String, Vec<ConflictUsage>)> = Vec::new();
    let mut i: usize = 0;
    while i < n
        invariant
            n == files@.len(),
            0 <= i <= n,
            usage_groups_entries_wf(groups@),
            forall|ii: int|
                0 <= ii < i ==> match crate::manifest::manifest_of(
                    (#[trigger] files@[ii]).text@,
                ) {
                    Some(m) => groups_cover_map(groups@, m.dependencies) && groups_cover_map(
                        groups@,
                        m.dev_dependencies,
                    ) && groups_cover_map(groups@, m.peer_dependencies)
                        && groups_cover_manifest_usages(groups@, m),
                    None => true,
                },
        decreases n - i,
    {
        let ghost pre = groups@;
        match parse_manifest(files[i].text.as_str()) {
            Some(pj) => {
                let package_name = pj.get_name("unknown");
                collect_usages_from_map(
                    &pj.dependencies,
                    "dependencies",
                    package_name.as_str(),
                    &mut groups,
                );
                collect_usages_from_map(
                    &pj.dev_dependencies,
                    "devDependencies",
                    package_name.as_str(),
                    &mut groups,
                );
                collect_usages_from_map(
                    &pj.peer_dependencies,
                    "peerDependencies",
                    package_name.as_str(),
                    &mut groups,
                );
                proof {
                    let m = crate::manifest::manifest_of(files@[i as int].text@)->0;
                    assert(m == crate::manifest::package_json_view(pj));
                    assert(groups_cover_map(groups@, m.dependencies));
                    assert(groups_cover_map(groups@, m.dev_dependencies));
                    assert(groups_cover_map(groups@, m.peer_dependencies));
                    assert(package_name@ == checker_pkg_name(m));
                    assert(groups_cover_manifest_usages(groups@, m)) by {
                        assert forall|d: Seq<char>, sv: Seq<char>, k: Seq<char>|
                            #[trigger] manifest_declares_usage(m, d, sv, k) implies
                            group_has_usage(groups@, d, checker_pkg_name(m), sv, k) by {
                            if k == "dependencies"@ && map_declares(m.dependencies, d, sv) {
                                let e = choose|e: int|
                                    0 <= e < m.dependencies.len()
                                        && #[trigger] m.dependencies[e] == (d, sv);
                                assert(m.dependencies[e] == (
                                    pj.dependencies@[e].0@,
                                    pj.dependencies@[e].1@,
                                ));
                                assert(group_has_usage(
                                    groups@,
                                    pj.dependencies@[e].0@,
                                    package_name@,
                                    pj.dependencies@[e].1@,
                                    "dependencies"@,
                                ));
                            } else if k == "devDependencies"@ && map_declares(
                                m.dev_dependencies,
                                d,
                                sv,
                            ) {
                                let e = choose|e: int|
                                    0 <= e < m.dev_dependencies.len()
                                        && #[trigger] m.dev_dependencies[e] == (d, sv);
                                assert(m.dev_dependencies[e] == (
                                    pj.dev_dependencies@[e].0@,
                                    pj.dev_dependencies@[e].1@,
                                ));
                                assert(group_has_usage(
                                    groups@,
                                    pj.dev_dependencies@[e].0@,
                                    package_name@,
                                    pj.dev_dependencies@[e].1@,
                                    "devDependencies"@,
                                ));
                            } else {
                                let e = choose|e: int|
                                    0 <= e < m.peer_dependencies.len()
                                        && #[trigger] m.peer_dependencies[e] == (d, sv);
                                assert(m.peer_dependencies[e] == (
                                    pj.peer_dependencies@[e].0@,
                                    pj.peer_dependencies@[e].1@,
                                ));
                                assert(group_has_usage(
                                    groups@,
                                    pj.peer_dependencies@[e].0@,
                                    package_name@,
                                    pj.peer_dependencies@[e].1@,
                                    "peerDependencies"@,
                                ));
                            }
                        }
                    }
                }
            },
            None => {},
        }
        proof {
            assert forall|ii: int|
                0 <= ii < i + 1 implies match crate::manifest::manifest_of(
                (#[trigger] files@[ii]).text@,
            ) {
                Some(m) => groups_cover_map(groups@, m.dependencies) && groups_cover_map(
                    groups@,
                    m.dev_dependencies,
                ) && groups_cover_map(groups@, m.peer_dependencies)
                    && groups_cover_manifest_usages(groups@, m),
                None => true,
            } by {
                if ii < i as int {
                    match crate::manifest::manifest_of(files@[ii].text@) {
                        Some(m) => {
                            lemma_groups_cover_step(pre, groups@, m.dependencies);
                            lemma_groups_cover_step(pre, groups@, m.dev_dependencies);
                            lemma_groups_cover_step(pre, groups@, m.peer_dependencies);
                            lemma_usages_cover_step(pre, groups@, m);
                        },
                        None => {},
                    }
                }
            }
        }
        i = i + 1;
    }
    groups
}

/// Every non-locally-resolving usage the decoded manifest declares is held
/// by the group of its dependency name.
pub open spec fn groups_cover_manifest_usages(
    groups: Seq<(String, Vec<ConflictUsage>)>,
    m: crate::manifest::ManifestView,
) -> bool {
    forall|d: Seq<char>, sv: Seq<char>, k: Seq<char>|
        #[trigger] manifest_declares_usage(m, d, sv, k) ==> group_has_usage(
            groups,
            d,
            checker_pkg_name(m),
            sv,
            k,
        )
}

/// A later step never loses a name the groups already carry, so name
/// coverage is kept; names only move forward through the per-map folds.
proof fn lemma_groups_cover_step(
    pre: Seq<(String, Vec<ConflictUsage>)>,
    post: Seq<(String, Vec<ConflictUsage>)>,
    m: Seq<(Seq<char>, Seq<char>)>,
)
    requires
        groups_cover_map(pre, m),
        forall|k: Seq<char>|
            #[trigger] usage_groups_have_name(pre, k) ==> usage_groups_have_name(post, k),
    ensures
        groups_cover_map(post, m),
{
}

/// A later step never loses a usage the groups already hold, so usage
/// coverage is kept.
proof fn lemma_usages_cover_step(
    pre: Seq<(String, Vec<ConflictUsage>)>,
    post: Seq<(String, Vec<ConflictUsage>)>,
    m: crate::manifest::ManifestView,
)
    requires
        groups_cover_manifest_usages(pre, m),
        forall|d: Seq<char>, p: Seq<char>, sv: Seq<char>, k: Seq<char>|
            #[trigger] group_has_usage(pre, d, p, sv, k) ==> group_has_usage(post, d, p, sv, k),
    ensures
        groups_cover_manifest_usages(post, m),
{
}

/// The groups are the ones collected from these manifest files: every
/// decodable file's non-locally-resolving dependency names and usages are
/// held.
pub open spec fn groups_collected_from(
    groups: Seq<(String, Vec<ConflictUsage>)>,
    files: Seq<ManifestFile>,
) -> bool {
    forall|i: int|
        0 <= i < files.len() ==> match crate::manifest::manifest_of((#[trigger] files[i]).text@) {
            Some(m) => groups_cover_map(groups, m.dependencies) && groups_cover_map(
                groups,
                m.dev_dependencies,
            ) && groups_cover_map(groups, m.peer_dependencies) && groups_cover_manifest_usages(
                groups,
                m,
            ),
            None => true,
        }
}

/// The conflict list is exactly what `find_version_conflicts` owes to the
/// usage groups.
pub open spec fn conflicts_from_groups(
    groups: Seq<(String, Vec<ConflictUsage>)>,
    r: Seq<VersionConflict>,
) -> bool {
    &&& forall|t: int| 0 <= t < r.len() ==> #[trigger] conflict_justified(groups, r[t])
    &&& forall|g: int|
        0 <= g < groups.len() && has_two_distinct_packages((#[trigger] groups[g]).1@)
            && has_two_distinct_versions(groups[g].1@) ==> exists|t: int|
            0 <= t < r.len() && #[trigger] conflict_matches_group(groups[g], r[t])
}

impl HealthChecker {
    /// Detects the dependencies that two or more distinct packages of the
    /// workspace use at two or more distinct resolved versions: a pure
    /// function of the scanned manifests. Whenever two decodable manifests
    /// of different packages declare the same dependency at different bare
    /// versions, a conflict for that dependency is reported.
    pub fn check_version_conflicts(&self, files: &Vec<ManifestFile>) -> (r: Vec<VersionConflict>)
        ensures
            exists|groups: Seq<(String, Vec<ConflictUsage>)>|
                #[trigger] usage_groups_entries_wf(groups) && groups_collected_from(groups, files@)
                    && conflicts_from_groups(groups, r@),
            forall|
                d: Seq<char>,
                p1: Seq<char>,
                sv1: Seq<char>,
                k1: Seq<char>,
                p2: Seq<char>,
                sv2: Seq<char>,
                k2: Seq<char>,
            |
                #![trigger files_declare_usage(files@, d, p1, sv1, k1), files_declare_usage(files@, d, p2, sv2, k2)]
                files_declare_usage(files@, d, p1, sv1, k1) && files_declare_usage(
                    files@,
                    d,
                    p2,
                    sv2,
                    k2,
                ) && p1 != p2 && strip_range_prefix(sv1) != strip_range_prefix(sv2)
                    ==> conflicts_name(r@, d),
    {
        let groups = collect_dependency_usages(files);
        let r = find_version_conflicts(&groups);
        proof {
            assert(usage_groups_entries_wf(groups@) && groups_collected_from(groups@, files@)
                && conflicts_from_groups(groups@, r@));
            assert forall|
                d: Seq<char>,
                p1: Seq<char>,
                sv1: Seq<char>,
                k1: Seq<char>,
                p2: Seq<char>,
                sv2: Seq<char>,
                k2: Seq<char>,
            |
                files_declare_usage(files@, d, p1, sv1, k1) && #[trigger] files_declare_usage(
                    files@,
                    d,
                    p2,
                    sv2,
                    k2,
                ) && #[trigger] files_declare_usage(files@, d, p1, sv1, k1) && p1 != p2
                    && strip_range_prefix(sv1) != strip_range_prefix(sv2) implies conflicts_name(
                r@,
                d,
            ) by {
                assert(group_has_usage(groups@, d, p1, sv1, k1)) by {
                    let i = choose|i: int|
                        0 <= i < files@.len() && match crate::manifest::manifest_of(
                            (#[trigger] files@[i]).text@,
                        ) {
                            Some(m) => p1 == checker_pkg_name(m) && manifest_declares_usage(
                                m,
                                d,
                                sv1,
                                k1,
                            ),
                            None => false,
                        };
                    let m = crate::manifest::manifest_of(files@[i].text@)->0;
                    assert(groups_cover_manifest_usages(groups@, m));
                }
                assert(group_has_usage(groups@, d, p2, sv2, k2)) by {
                    let i = choose|i: int|
                        0 <= i < files@.len() && match crate::manifest::manifest_of(
                            (#[trigger] files@[i]).text@,
                        ) {
                            Some(m) => p2 == checker_pkg_name(m) && manifest_declares_usage(
                                m,
                                d,
                                sv2,
                                k2,
                            ),
                            None => false,
                        };
                    let m = crate::manifest::manifest_of(files@[i].text@)->0;
                    assert(groups_cover_manifest_usages(groups@, m));
                }
                let (g1, x1) = choose|g1: int, x1: int|
                    0 <= g1 < groups@.len() && 0 <= x1 < groups@[g1].1@.len() && groups@[g1].0@
                        == d && (#[trigger] groups@[g1].1@[x1]).package@ == p1
                        && groups@[g1].1@[x1].version_spec@ == sv1 && groups@[g1].1@[x1].dep_type@
                        == k1;
                let (g2, x2) = choose|g2: int, x2: int|
                    0 <= g2 < groups@.len() && 0 <= x2 < groups@[g2].1@.len() && groups@[g2].0@
                        == d && (#[trigger] groups@[g2].1@[x2]).package@ == p2
                        && groups@[g2].1@[x2].version_spec@ == sv2 && groups@[g2].1@[x2].dep_type@
                        == k2;
                assert(g1 == g2) by {
                    if g1 < g2 {
                        assert(groups@[g1].0@ != groups@[g2].0@);
                    } else if g2 < g1 {
                        assert(groups@[g2].0@ != groups@[g1].0@);
                    }
                }
                assert(has_two_distinct_packages(groups@[g1].1@));
                assert(has_two_distinct_versions(groups@[g1].1@)) by {
                    assert(groups@[g1].1@[x1].resolved_version@ == strip_range_prefix(sv1));
                    assert(groups@[g1].1@[x2].resolved_version@ == strip_range_prefix(sv2));
                }
                let t = choose|t: int|
                    0 <= t < r@.len() && #[trigger] conflict_matches_group(groups@[g1], r@[t]);
                assert(r@[t].name@ == d);
                assert(conflicts_name(r@, d));
            }
        }
        r
    }
}

/// What the check command is asked to examine.
pub struct CheckItems {
    /// Check for circular dependencies.
    pub circular: bool,
    /// Check for version conflicts.
    pub versions: bool,
    /// Check for outdated dependencies.
    pub outdated: bool,
}

/// Decides which checks run: the circular check runs when asked for or when
/// nothing specific was asked for; the others only when asked for.
pub fn determine_check_items(circular: bool, versions: bool, outdated: bool) -> (r: CheckItems)
    ensures
        r.circular == (circular || (!versions && !outdated)),
        r.versions == versions,
        r.outdated == outdated,
{
    CheckItems { circular: circular || (!versions && !outdated), versions, outdated }
}

/// The concurrency the outdated pipeline uses for `n` registry lookups on a
/// host with `c` logical processors.
pub open spec fn optimal_concurrency(n: nat, c: nat) -> nat {
    let base: nat = if n <= 10 {
        if n <= 2 {
            n
        } else {
            2
        }
    } else if n <= 50 {
        if n / 2 <= c {
            n / 2
        } else {
            c
        }
    } else if n <= 200 {
        if n / 4 <= c * 2 {
            n / 4
        } else {
            c * 2
        }
    } else {
        if n / 8 <= c * 3 {
            n / 8
        } else {
            c * 3
        }
    };
    let capped: nat = if base <= n {
        base
    } else {
        n
    };
    if capped >= 1 {
        capped
    } else {
        1
    }
}

/// Picks the concurrency for a batch of registry lookups, clamped to at
/// least one and at most the number of lookups.
pub fn calculate_optimal_thread_count(dependency_count: usize, cpu_count: usize) -> (r: usize)
    requires
        cpu_count <= usize::MAX / 3,
    ensures
        r as nat == optimal_concurrency(dependency_count as nat, cpu_count as nat),
{
    let n = dependency_count;
    let base: usize = if n <= 10 {
        if n <= 2 {
            n
        } else {
            2
        }
    } else if n <= 50 {
        if n / 2 <= cpu_count {
            n / 2
        } else {
            cpu_count
        }
    } else if n <= 200 {
        if n / 4 <= cpu_count * 2 {
            n / 4
        } else {
            cpu_count * 2
        }
    } else {
        if n / 8 <= cpu_count * 3 {
            n / 8
        } else {
            cpu_count * 3
        }
    };
    let capped = if base <= n {
        base
    } else {
        n
    };
    if capped >= 1 {
        capped
    } else {
        1
    }
}

} // verus!