//! The dependency analyzer: scans manifest texts into packages, marks
//! in-workspace dependencies, detects cycles, and plans build stages.
use vstd::prelude::*;

use crate::graph::{
    acyclic, graph_add_edge, graph_add_node, graph_edge_set, graph_new, graph_node_count,
    graph_tarjan_scc, in_nontrivial_scc, lemma_no_nontrivial_scc_acyclic, lemma_reaches_in_range,
    mutually_reachable, pkg_dep_edge, pkg_edges, reaches, reaches_within, scc_covers,
};
use crate::manifest::{manifest_of, package_json_view, parse_manifest, str_pairs_view};
use crate::package::{AnalysisStatistics, DependencyAnalysisResult, WorkspacePackage};
use crate::stages::{
    idx_in_stage, idx_placed, idx_placed_before, lemma_num_true_has_false_low, lemma_num_true_le,
    lemma_num_true_pointwise, lemma_num_true_update, lemma_num_true_zero, names_unique, num_true,
    plan_stage_indices,
};
use crate::strmap::{
    clone_string_vec, keys_unique, map_has_key, seq_has_string, str_eq, vec_contains_str,
};

verus! {

/// One manifest file found under the workspace root, as handed to the
/// analyzer: its location and its text.
pub struct ManifestFile {
    /// Directory of the manifest, relative to the workspace root.
    pub folder: String,
    /// Absolute directory of the manifest.
    pub absolute_dir: String,
    /// The directory's own name, the fallback package name.
    pub dir_name: String,
    /// The manifest text.
    pub text: String,
}

/// Why an analysis cannot proceed.
#[derive(Debug)]
pub enum AnalyzeError {
    /// No manifest under the workspace root could be decoded.
    WorkspaceEmpty,
    /// The requested package is not part of the workspace.
    PackageNotFound,
}

/// The package that one decoded manifest yields, apart from the
/// workspace-dependency marking: names and paths are taken over, the
/// version falls back to "0.0.0", the name to the directory name, and the
/// dependency map is the manifest's three kinds merged, with the peer entry
/// winning over the development entry, which wins over the runtime one.
pub open spec fn file_yields_package(f: ManifestFile, p: WorkspacePackage) -> bool {
    match manifest_of(f.text@) {
        Some(m) => {
            &&& p.folder@ == f.folder@
            &&& p.absolute_path@ == f.absolute_dir@
            &&& p.name@ == (match m.name {
                Some(n) => n,
                None => f.dir_name@,
            })
            &&& p.version@ == (match m.version {
                Some(v) => v,
                None => "0.0.0"@,
            })
            &&& keys_unique(p.dependencies@)
            &&& (forall|k: Seq<char>|
                #[trigger] crate::strmap::map_lookup(p.dependencies@, k)
                    == crate::manifest::merged_view_lookup(m, k))
            &&& str_pairs_view(p.scripts@) == m.scripts
        },
        None => false,
    }
}

/// A freshly scanned package: what the file yields, with no workspace
/// dependency marked yet.
pub open spec fn file_makes_package(f: ManifestFile, p: WorkspacePackage) -> bool {
    file_yields_package(f, p) && p.workspace_dependencies@.len() == 0
}

/// What a file yields depends only on the fields listed here, so it
/// transfers to any package that agrees on them.
pub proof fn lemma_yields_same_fields(f: ManifestFile, p1: WorkspacePackage, p2: WorkspacePackage)
    requires
        file_yields_package(f, p1),
        p2.name@ == p1.name@,
        p2.folder@ == p1.folder@,
        p2.absolute_path@ == p1.absolute_path@,
        p2.version@ == p1.version@,
        p2.dependencies@ == p1.dependencies@,
        p2.scripts@ == p1.scripts@,
    ensures
        file_yields_package(f, p2),
{
    let m = manifest_of(f.text@)->0;
    assert forall|k: Seq<char>|
        #[trigger] crate::strmap::map_lookup(p2.dependencies@, k)
            == crate::manifest::merged_view_lookup(m, k) by {
        assert(crate::strmap::map_lookup(p1.dependencies@, k) == crate::manifest::merged_view_lookup(
            m,
            k,
        ));
    }
}

/// The package is what some file of the list yields.
pub open spec fn package_from_files(files: Seq<ManifestFile>, p: WorkspacePackage) -> bool {
    exists|i: int| 0 <= i < files.len() && #[trigger] file_yields_package(files[i], p)
}

/// The analysis result belongs to these manifest files: every package of
/// the result is what some file yields, and every file that decodes has its
/// package name in the result.
pub open spec fn analysis_matches_files(
    res: DependencyAnalysisResult,
    files: Seq<ManifestFile>,
) -> bool {
    &&& forall|t: int|
        0 <= t < res.packages@.len() ==> #[trigger] package_from_files(files, res.packages@[t])
    &&& forall|i: int|
        0 <= i < files.len() && manifest_of((#[trigger] files[i]).text@) is Some
            ==> list_has_name(res.packages@, scan_name_of(files[i]))
}

/// The marked package `p1` is `p0` with exactly the dependencies that name
/// another workspace package added to its workspace-dependency set.
pub open spec fn wdeps_marked(
    all: Seq<WorkspacePackage>,
    p0: WorkspacePackage,
    p1: WorkspacePackage,
) -> bool {
    &&& p1.name@ == p0.name@
    &&& p1.folder@ == p0.folder@
    &&& p1.absolute_path@ == p0.absolute_path@
    &&& p1.version@ == p0.version@
    &&& p1.dependencies@ == p0.dependencies@
    &&& p1.scripts@ == p0.scripts@
    &&& forall|d: Seq<char>|
        #[trigger] seq_has_string(p1.workspace_dependencies@, d) == (seq_has_string(
            p0.workspace_dependencies@,
            d,
        ) || (map_has_key(p0.dependencies@, d) && list_has_name(all, d)))
}

/// The workspace edges restricted to the part already inserted: all rows
/// before `di`, and within row `di` the sources before `sj`.
pub open spec fn partial_pkg_edges(pkgs: Seq<WorkspacePackage>, di: int, sj: int) -> Set<(int, int)> {
    Set::new(
        |p: (int, int)|
            0 <= p.0 < pkgs.len() && 0 <= p.1 < pkgs.len() && pkg_dep_edge(pkgs, p.0, p.1) && (p.1
                < di || (p.1 == di && p.0 < sj)),
    )
}

/// The name list reports exactly the packages of the index group, position
/// by position.
pub open spec fn group_named(
    pkgs: Seq<WorkspacePackage>,
    group: Vec<usize>,
    names: Vec<String>,
) -> bool {
    &&& names@.len() == group@.len()
    &&& forall|m: int|
        0 <= m < group@.len() ==> 0 <= (#[trigger] group@[m] as int) < pkgs.len() && names@[m]@
            == pkgs[group@[m] as int].name@
}

/// Some member of stage `k` carries the name.
pub open spec fn stage_has_name(stages: Seq<Vec<WorkspacePackage>>, k: int, d: Seq<char>) -> bool {
    exists|m: int| 0 <= m < stages[k]@.len() && (#[trigger] stages[k]@[m]).name@ == d
}

/// Some stage before stage `k` carries the name.
pub open spec fn stage_name_before(stages: Seq<Vec<WorkspacePackage>>, k: int, d: Seq<char>) -> bool {
    exists|k2: int| 0 <= k2 < k && #[trigger] stage_has_name(stages, k2, d)
}

/// Some stage of the list carries the name.
pub open spec fn stage_list_has_name(stages: Seq<Vec<WorkspacePackage>>, d: Seq<char>) -> bool {
    exists|k: int| 0 <= k < stages.len() && #[trigger] stage_has_name(stages, k, d)
}

/// Every workspace dependency of package `i` that another package of the
/// list declares is named in a stage before stage `k`.
pub open spec fn deps_named_before(
    pkgs: Seq<WorkspacePackage>,
    stages: Seq<Vec<WorkspacePackage>>,
    k: int,
    i: int,
) -> bool {
    forall|j: int|
        0 <= j < pkgs.len() && #[trigger] pkg_dep_edge(pkgs, j, i) ==> stage_name_before(
            stages,
            k,
            pkgs[j].name@,
        )
}

/// A well-formed stage plan over the given packages: stages are nonempty,
/// every member is one of the packages, and every workspace dependency of a
/// member that names a package of the list is placed in an earlier stage.
pub open spec fn stage_plan_wf(
    pkgs: Seq<WorkspacePackage>,
    stages: Seq<Vec<WorkspacePackage>>,
) -> bool {
    &&& forall|k: int| 0 <= k < stages.len() ==> (#[trigger] stages[k])@.len() > 0
    &&& forall|k: int, m: int|
        #![trigger stages[k]@[m]]
        0 <= k < stages.len() && 0 <= m < stages[k]@.len() ==> from_packages(pkgs, stages[k]@[m])
    &&& forall|k: int, m: int, d: int|
        #![trigger stages[k]@[m].workspace_dependencies@[d]]
        0 <= k < stages.len() && 0 <= m < stages[k]@.len() && 0 <= d
            < stages[k]@[m].workspace_dependencies@.len() && list_has_name(
            pkgs,
            stages[k]@[m].workspace_dependencies@[d]@,
        ) ==> stage_name_before(stages, k, stages[k]@[m].workspace_dependencies@[d]@)
}

/// The package name a manifest file yields when it decodes: the manifest's
/// name field, or the directory name as fallback.
pub open spec fn scan_name_of(f: ManifestFile) -> Seq<char> {
    match manifest_of(f.text@) {
        Some(m) => match m.name {
            Some(n) => n,
            None => f.dir_name@,
        },
        None => f.dir_name@,
    }
}

/// The package arose from scanning one of the given manifest files.
pub open spec fn scanned_from(files: Seq<ManifestFile>, p: WorkspacePackage) -> bool {
    exists|i: int| 0 <= i < files.len() && #[trigger] file_makes_package(files[i], p)
}

/// The package is one of the given list, compared by view.
pub open spec fn from_packages(pkgs: Seq<WorkspacePackage>, p: WorkspacePackage) -> bool {
    exists|i: int| 0 <= i < pkgs.len() && p@ == #[trigger] pkgs[i]@
}

/// Some package of the list carries the name.
pub open spec fn list_has_name(pkgs: Seq<WorkspacePackage>, nm: Seq<char>) -> bool {
    exists|t: int| 0 <= t < pkgs.len() && #[trigger] pkgs[t].name@ == nm
}

/// Every package's workspace-dependency set holds exactly its dependency
/// names that belong to another package of the list.
pub open spec fn wdeps_exact(pkgs: Seq<WorkspacePackage>) -> bool {
    forall|i: int, d: Seq<char>|
        0 <= i < pkgs.len() ==> #[trigger] seq_has_string(pkgs[i].workspace_dependencies@, d) == (
        map_has_key(pkgs[i].dependencies@, d) && list_has_name(pkgs, d))
}

/// How many packages of the list have at least one workspace dependency.
pub open spec fn count_pkgs_with_wdeps(pkgs: Seq<WorkspacePackage>) -> nat
    decreases pkgs.len(),
{
    if pkgs.len() == 0 {
        0
    } else {
        count_pkgs_with_wdeps(pkgs.drop_last()) + (if pkgs.last().workspace_dependencies@.len()
            > 0 {
            1nat
        } else {
            0nat
        })
    }
}

/// The analysis result is sound for its package list: unique names, exact
/// workspace-dependency sets, the cycle list exactly the strongly connected
/// components of size two or more, a well-formed stage plan that is empty
/// when cycles exist, and true statistics.
pub open spec fn analysis_sound(res: DependencyAnalysisResult) -> bool {
    &&& res.packages@.len() > 0
    &&& names_unique(res.packages@)
    &&& wdeps_exact(res.packages@)
    &&& forall|c: int| 0 <= c < res.circular_dependencies@.len() ==> (
        #[trigger] res.circular_dependencies@[c])@.len() >= 2
    &&& forall|c: int|
        0 <= c < res.circular_dependencies@.len() ==> #[trigger] is_cycle_group(
            res.packages@,
            res.circular_dependencies@[c],
        )
    &&& forall|c1: int, x1: int, c2: int, x2: int|
        #![trigger res.circular_dependencies@[c1]@[x1], res.circular_dependencies@[c2]@[x2]]
        0 <= c1 < res.circular_dependencies@.len() && 0 <= x1
            < res.circular_dependencies@[c1]@.len() && 0 <= c2 < res.circular_dependencies@.len()
            && 0 <= x2 < res.circular_dependencies@[c2]@.len() && (c1 != c2 || x1 != x2)
            ==> res.circular_dependencies@[c1]@[x1]@ != res.circular_dependencies@[c2]@[x2]@
    &&& forall|v: int|
        #![trigger res.packages@[v]]
        0 <= v < res.packages@.len() && in_nontrivial_scc(pkg_edges(res.packages@), v)
            ==> cycles_cover_name(res.circular_dependencies@, res.packages@[v].name@)
    &&& (res.circular_dependencies@.len() == 0) == (forall|v: int|
        0 <= v < res.packages@.len() ==> !in_nontrivial_scc(pkg_edges(res.packages@), v))
    &&& (res.circular_dependencies@.len() > 0 ==> res.stages@.len() == 0)
    &&& stage_plan_wf(res.packages@, res.stages@)
    &&& forall|k: int, i: int|
        0 <= k < res.stages@.len() && 0 <= i < res.packages@.len() && !stage_name_before(
            res.stages@,
            k,
            res.packages@[i].name@,
        ) && #[trigger] deps_named_before(res.packages@, res.stages@, k, i) ==> stage_has_name(
            res.stages@,
            k,
            res.packages@[i].name@,
        )
    &&& (res.circular_dependencies@.len() == 0 && (forall|i: int|
        0 <= i < res.packages@.len() ==> !pkg_dep_edge(res.packages@, i, i)) ==> forall|i: int|
        #![trigger res.packages@[i]]
        0 <= i < res.packages@.len() ==> stage_list_has_name(res.stages@, res.packages@[i].name@))
    &&& res.statistics.total_packages as nat == res.packages@.len()
    &&& res.statistics.total_stages as nat == res.stages@.len()
    &&& res.statistics.circular_dependency_count as nat == res.circular_dependencies@.len()
    &&& res.statistics.packages_with_workspace_deps as nat == count_pkgs_with_wdeps(res.packages@)
}

/// The index occurs in the worklist.
pub open spec fn idx_in_worklist(work: Seq<usize>, v: int) -> bool {
    exists|w: int| 0 <= w < work.len() && (#[trigger] work[w]) as int == v
}

/// In a marking closed under predecessors, everything that reaches a marked
/// target is marked.
proof fn lemma_closed_contains_reachable(
    edges: Set<(int, int)>,
    marked: Seq<bool>,
    t: int,
    i: int,
    n: nat,
)
    requires
        0 <= t < marked.len(),
        0 <= i < marked.len(),
        marked[t],
        forall|x: int, y: int|
            0 <= x < marked.len() && marked[x] && 0 <= y < marked.len() && #[trigger] edges.contains(
                (y, x),
            ) ==> marked[y],
        forall|p: (int, int)|
            edges.contains(p) ==> 0 <= p.0 < marked.len() && 0 <= p.1 < marked.len(),
        reaches_within(edges, i, t, n),
    ensures
        marked[i],
    decreases n,
{
    if i != t {
        let m = choose|m: int|
            edges.contains((i, m)) && reaches_within(edges, m, t, (n - 1) as nat);
        assert(edges.contains((i, m)));
        lemma_closed_contains_reachable(edges, marked, t, m, (n - 1) as nat);
    }
}

/// The package is one of the list (by view) and its index reaches the
/// target index along the workspace graph, so the target transitively
/// depends on it (or is it).
pub open spec fn related_member_ok(
    pkgs: Seq<WorkspacePackage>,
    ti: int,
    p: WorkspacePackage,
) -> bool {
    exists|i: int|
        0 <= i < pkgs.len() && p@ == #[trigger] pkgs[i]@ && reaches(pkg_edges(pkgs), i, ti)
}

/// Some member of the list has the given view.
pub open spec fn view_in_list(r: Seq<WorkspacePackage>, pv: crate::package::PackageView) -> bool {
    exists|t: int| 0 <= t < r.len() && (#[trigger] r[t])@ == pv
}

/// The list holds exactly the packages whose index reaches the target index:
/// the closure the single-package plan restricts to.
pub open spec fn related_set_of(
    pkgs: Seq<WorkspacePackage>,
    ti: int,
    r: Seq<WorkspacePackage>,
) -> bool {
    &&& forall|t: int| 0 <= t < r.len() ==> #[trigger] related_member_ok(pkgs, ti, r[t])
    &&& forall|i: int|
        0 <= i < pkgs.len() && reaches(pkg_edges(pkgs), i, ti) ==> #[trigger] view_in_list(
            r,
            pkgs[i]@,
        )
}

/// What a single-package analysis owes: a sound full analysis of exactly
/// these files holding the target at index `ti`; the result carries the
/// target package itself and the full cycle list; `related` is exactly the
/// target's transitive workspace-dependency closure within the full
/// analysis; and the stage list is a well-formed plan over that closure,
/// covering it whenever it is acyclic, and empty whenever the target lies
/// in a reported cycle.
pub open spec fn single_plan_of(
    full: DependencyAnalysisResult,
    ti: int,
    related: Seq<WorkspacePackage>,
    files: Seq<ManifestFile>,
    name: Seq<char>,
    res: DependencyAnalysisResult,
) -> bool {
    &&& analysis_sound(full)
    &&& analysis_matches_files(full, files)
    &&& 0 <= ti < full.packages@.len()
    &&& full.packages@[ti].name@ == name
    &&& res.packages@.len() == 1
    &&& res.packages@[0]@ == full.packages@[ti]@
    &&& res.circular_dependencies@ == full.circular_dependencies@
    &&& related_set_of(full.packages@, ti, related)
    &&& stage_plan_wf(related, res.stages@)
    &&& (cycles_cover_name(full.circular_dependencies@, name) ==> res.stages@.len() == 0)
    &&& (!cycles_cover_name(full.circular_dependencies@, name) && acyclic(pkg_edges(related))
        ==> forall|t: int|
        0 <= t < related.len() ==> stage_list_has_name(res.stages@, (#[trigger] related[t]).name@))
    &&& (res.stages@.len() > 0 ==> forall|t: int|
        0 <= t < related.len() ==> stage_list_has_name(res.stages@, (#[trigger] related[t]).name@))
}

/// The dependency analyzer for one workspace.
pub struct DependencyAnalyzer {
    /// The workspace root directory.
    pub workspace_root: String,
    /// Whether detailed reporting is on.
    pub verbose: bool,
}

impl DependencyAnalyzer {
    /// Creates an analyzer for the given workspace root.
    pub fn new(workspace_root: String) -> (r: Self)
        ensures
            r.workspace_root@ == workspace_root@,
            !r.verbose,
    {
        DependencyAnalyzer { workspace_root, verbose: false }
    }

    /// Switches detailed reporting on or off.
    pub fn with_verbose(self, verbose: bool) -> (r: Self)
        ensures
            r.workspace_root@ == self.workspace_root@,
            r.verbose == verbose,
    {
        DependencyAnalyzer { workspace_root: self.workspace_root, verbose }
    }

    /// The workspace root this analyzer works on.
    pub fn workspace_root(&self) -> (r: &String)
        ensures
            r@ == self.workspace_root@,
    {
        &self.workspace_root
    }

    /// Turns one scanned manifest into a package, when its text decodes.
    pub fn scan_single_package(&self, file: &ManifestFile) -> (r: Option<WorkspacePackage>)
        ensures
            match r {
                Some(p) => file_makes_package(*file, p),
                None => manifest_of(file.text@) is None,
            },
    {
        let parsed = parse_manifest(file.text.as_str());
        match parsed {
            Some(pj) => {
                let name = pj.get_name(file.dir_name.as_str());
                let version = pj.get_version();
                let deps = pj.get_all_dependencies();
                proof {
                    let m = manifest_of(file.text@)->0;
                    assert(m == package_json_view(pj));
                    assert forall|k: Seq<char>|
                        #[trigger] crate::strmap::map_lookup(deps@, k)
                            == crate::manifest::merged_view_lookup(m, k) by {
                        assert(crate::strmap::map_lookup(deps@, k)
                            == crate::package::merged_dep_lookup(pj, k));
                        assert(m.peer_dependencies == str_pairs_view(pj.peer_dependencies@));
                        assert(m.dev_dependencies == str_pairs_view(pj.dev_dependencies@));
                        assert(m.dependencies == str_pairs_view(pj.dependencies@));
                        crate::manifest::lemma_str_pairs_lookup(pj.peer_dependencies@, k);
                        crate::manifest::lemma_str_pairs_lookup(pj.dev_dependencies@, k);
                        crate::manifest::lemma_str_pairs_lookup(pj.dependencies@, k);
                        crate::strmap::lemma_lookup_some_iff_has_key(pj.peer_dependencies@, k);
                        crate::strmap::lemma_lookup_some_iff_has_key(pj.dev_dependencies@, k);
                    }
                }
                Some(
                    WorkspacePackage::new(
                        name,
                        file.folder.clone(),
                        file.absolute_dir.clone(),
                        version,
                        deps,
                        pj.scripts,
                    ),
                )
            },
            None => None,
        }
    }

    /// Scans every manifest text, keeping the packages of the files that
    /// decode and skipping the rest.
    fn scan_packages(&self, files: &Vec<ManifestFile>) -> (r: Vec<WorkspacePackage>)
        ensures
            forall|t: int|
                0 <= t < r@.len() ==> #[trigger] scanned_from(files@, r@[t]),
            r@.len() == 0 ==> forall|i: int|
                0 <= i < files@.len() ==> manifest_of((#[trigger] files@[i]).text@) is None,
            forall|i: int|
                0 <= i < files@.len() && manifest_of((#[trigger] files@[i]).text@) is Some
                    ==> list_has_name(r@, scan_name_of(files@[i])),
    {
        let n = files.len();
        let mut r: Vec<WorkspacePackage> = Vec::new();
        let mut i: usize = 0;
        while i < n
            invariant
                n == files@.len(),
                0 <= i <= n,
                forall|t: int|
                    0 <= t < r@.len() ==> #[trigger] scanned_from(files@, r@[t]),
                r@.len() == 0 ==> forall|ii: int|
                    0 <= ii < i ==> manifest_of((#[trigger] files@[ii]).text@) is None,
                forall|ii: int|
                    0 <= ii < i && manifest_of((#[trigger] files@[ii]).text@) is Some
                        ==> list_has_name(r@, scan_name_of(files@[ii])),
            decreases n - i,
        {
            let ghost pre = r@;
            match self.scan_single_package(&files[i]) {
                Some(p) => {
                    let ghost fi = files@[i as int];
                    r.push(p);
                    proof {
                        assert(file_makes_package(fi, r@[r@.len() - 1]));
                        assert(r@[r@.len() - 1].name@ == scan_name_of(fi));
                    }
                },
                None => {},
            }
            proof {
                assert forall|ii: int|
                    0 <= ii < i + 1 && manifest_of((#[trigger] files@[ii]).text@) is Some implies
                    list_has_name(r@, scan_name_of(files@[ii])) by {
                    if ii < i as int {
                        assert(list_has_name(pre, scan_name_of(files@[ii])));
                        let t = choose|t: int|
                            0 <= t < pre.len() && (#[trigger] pre[t]).name@ == scan_name_of(
                                files@[ii],
                            );
                        assert(r@[t].name@ == scan_name_of(files@[ii]));
                    } else {
                        assert(r@[r@.len() - 1].name@ == scan_name_of(files@[ii]));
                    }
                }
            }
            i = i + 1;
        }
        r
    }

    /// Deduplicates packages by name: for each name the last-seen package is
    /// kept whole, and no two packages are merged.
    fn dedupe_packages(&self, packages: &Vec<WorkspacePackage>) -> (r: Vec<WorkspacePackage>)
        ensures
            names_unique(r@),
            forall|t: int|
                0 <= t < r@.len() ==> #[trigger] from_packages(packages@, r@[t]),
            forall|i: int|
                #![trigger packages@[i]]
                0 <= i < packages@.len() ==> list_has_name(r@, packages@[i].name@),
    {
        let n = packages.len();
        let mut r: Vec<WorkspacePackage> = Vec::new();
        let mut i: usize = 0;
        while i < n
            invariant
                n == packages@.len(),
                0 <= i <= n,
                // every kept package is a processed one that has no later
                // package of its name
                forall|t: int|
                    #![trigger r@[t]]
                    0 <= t < r@.len() ==> exists|ii: int|
                        0 <= ii < i && r@[t]@ == packages@[ii]@ && (forall|jj: int|
                            ii < jj < n ==> packages@[jj].name@ != packages@[ii].name@),
                names_unique(r@),
                forall|ii: int|
                    #![trigger packages@[ii]]
                    0 <= ii < i ==> (exists|t: int|
                        0 <= t < r@.len() && r@[t].name@ == packages@[ii].name@)
                        || (exists|jj: int|
                        i <= jj < n && packages@[jj].name@ == packages@[ii].name@),
            decreases n - i,
        {
            // keep this package only when no later package carries its name
            let mut dup_later = false;
            let mut j: usize = i + 1;
            while j < n
                invariant
                    n == packages@.len(),
                    0 <= i < n,
                    i + 1 <= j <= n,
                    dup_later ==> exists|jj: int|
                        i < jj < n && #[trigger] packages@[jj].name@ == packages@[i as int].name@,
                    !dup_later ==> forall|jj: int|
                        i < jj < j ==> packages@[jj].name@ != packages@[i as int].name@,
                decreases n - j,
            {
                if str_eq(packages[j].name.as_str(), packages[i].name.as_str()) {
                    dup_later = true;
                }
                j = j + 1;
            }
            let ghost pre = r@;
            if !dup_later {
                let added = packages[i].clone();
                r.push(added);
                proof {
                    assert(r@[r@.len() - 1]@ == packages@[i as int]@);
                    assert forall|t: int|
                        #![trigger r@[t]]
                        0 <= t < r@.len() implies exists|ii: int|
                        0 <= ii < i + 1 && r@[t]@ == packages@[ii]@ && (forall|jj: int|
                            ii < jj < n ==> packages@[jj].name@ != packages@[ii].name@) by {
                        if t == r@.len() - 1 {
                            assert(r@[t]@ == packages@[i as int]@ && (forall|jj: int|
                                i < jj < n ==> packages@[jj].name@ != packages@[i as int].name@));
                        } else {
                            assert(pre[t] == r@[t]);
                        }
                    }
                    assert forall|x: int, y: int|
                        0 <= x < y < r@.len() implies r@[x].name@ != r@[y].name@ by {
                        if y == r@.len() - 1 && r@[x].name@ == packages@[i as int].name@ {
                            let ii = choose|ii: int|
                                0 <= ii < i && r@[x]@ == #[trigger] packages@[ii]@ && (forall|
                                    jj: int,
                                |
                                    ii < jj < n ==> packages@[jj].name@ != packages@[ii].name@);
                            assert(packages@[i as int].name@ != packages@[ii].name@);
                        }
                    }
                }
            }
            proof {
                assert forall|ii: int|
                    #![trigger packages@[ii]]
                    0 <= ii < i + 1 implies (exists|t: int|
                    0 <= t < r@.len() && r@[t].name@ == packages@[ii].name@) || (exists|jj: int|
                    (i + 1) <= jj < n && packages@[jj].name@ == packages@[ii].name@) by {
                    if ii == i as int {
                        if !dup_later {
                            assert(r@[r@.len() - 1].name@ == packages@[ii].name@);
                        }
                    } else {
                        if exists|t: int|
                            0 <= t < pre.len() && #[trigger] pre[t].name@ == packages@[ii].name@ {
                            let t = choose|t: int|
                                0 <= t < pre.len() && #[trigger] pre[t].name@
                                    == packages@[ii].name@;
                            assert(r@[t].name@ == packages@[ii].name@);
                        } else {
                            let jj = choose|jj: int|
                                (i as int) <= jj < n && #[trigger] packages@[jj].name@
                                    == packages@[ii].name@;
                            if jj == i as int {
                                if !dup_later {
                                    assert(r@[r@.len() - 1].name@ == packages@[ii].name@);
                                } else {
                                    let jj2 = choose|jj2: int|
                                        i < jj2 < n && #[trigger] packages@[jj2].name@
                                            == packages@[i as int].name@;
                                    assert(packages@[jj2].name@ == packages@[ii].name@);
                                }
                            }
                        }
                    }
                }
            }
            i = i + 1;
        }
        proof {
            assert forall|t: int| 0 <= t < r@.len() implies #[trigger] from_packages(
                packages@,
                r@[t],
            ) by {
                let ii = choose|ii: int|
                    0 <= ii < i && r@[t]@ == packages@[ii]@ && (forall|jj: int|
                        ii < jj < n ==> packages@[jj].name@ != packages@[ii].name@);
                assert(0 <= ii < packages@.len() && r@[t]@ == packages@[ii]@);
            }
            assert forall|i2: int|
                #![trigger packages@[i2]]
                0 <= i2 < n implies list_has_name(r@, packages@[i2].name@) by {
                assert(0 <= i2 < i);
                if exists|t: int| 0 <= t < r@.len() && #[trigger] r@[t].name@ == packages@[i2].name@ {
                    let t = choose|t: int|
                        0 <= t < r@.len() && #[trigger] r@[t].name@ == packages@[i2].name@;
                    assert(list_has_name(r@, packages@[i2].name@));
                }
            }
        }
        r
    }

    /// Marks, for every package, the dependencies whose names belong to
    /// another package of this workspace.
    pub fn analyze_workspace_dependencies(&self, packages: &mut Vec<WorkspacePackage>)
        ensures
            final(packages)@.len() == old(packages)@.len(),
            forall|i: int|
                #![trigger final(packages)@[i]]
                0 <= i < old(packages)@.len() ==> wdeps_marked(
                    old(packages)@,
                    old(packages)@[i],
                    final(packages)@[i],
                ),
    {
        let n = packages.len();
        let mut names: Vec<String> = Vec::new();
        let mut x: usize = 0;
        while x < n
            invariant
                n == packages@.len(),
                0 <= x <= n,
                names@.len() == x,
                forall|y: int| 0 <= y < x ==> #[trigger] names@[y]@ == packages@[y].name@,
            decreases n - x,
        {
            names.push(packages[x].name.clone());
            x = x + 1;
        }
        let mut out: Vec<WorkspacePackage> = Vec::new();
        let mut i: usize = 0;
        while i < n
            invariant
                n == packages@.len(),
                0 <= i <= n,
                names@.len() == n,
                forall|y: int| 0 <= y < n ==> #[trigger] names@[y]@ == packages@[y].name@,
                out@.len() == i,
                forall|t: int|
                    #![trigger out@[t]]
                    0 <= t < i ==> wdeps_marked(packages@, packages@[t], out@[t]),
            decreases n - i,
        {
            let mut wd: Vec<String> = clone_string_vec(&packages[i].workspace_dependencies);
            let dn = packages[i].dependencies.len();
            let mut e: usize = 0;
            while e < dn
                invariant
                    n == packages@.len(),
                    0 <= i < n,
                    names@.len() == n,
                    forall|y: int| 0 <= y < n ==> #[trigger] names@[y]@ == packages@[y].name@,
                    dn == packages@[i as int].dependencies@.len(),
                    0 <= e <= dn,
                    forall|d: Seq<char>|
                        #[trigger] seq_has_string(wd@, d) == (seq_has_string(
                            packages@[i as int].workspace_dependencies@,
                            d,
                        ) || (exists|e2: int|
                            0 <= e2 < e && (#[trigger] packages@[i as int].dependencies@[e2]).0@
                                == d && list_has_name(packages@, d))),
                decreases dn - e,
            {
                let ghost pre_wd = wd@;
                let key = packages[i].dependencies[e].0.clone();
                if vec_contains_str(&names, key.as_str()) && !vec_contains_str(
                    &wd,
                    key.as_str(),
                ) {
                    wd.push(key);
                    proof {
                        let y = choose|y: int| 0 <= y < names@.len() && names@[y]@ == key@;
                        assert(packages@[y as int].name@ == key@);
                        assert(list_has_name(packages@, key@));
                    }
                }
                proof {
                    assert forall|d: Seq<char>|
                        #[trigger] seq_has_string(wd@, d) == (seq_has_string(
                            packages@[i as int].workspace_dependencies@,
                            d,
                        ) || (exists|e2: int|
                            0 <= e2 < e + 1 && (#[trigger] packages@[i as int].dependencies@[e2]).0@
                                == d && list_has_name(packages@, d))) by {
                        let key_v = packages@[i as int].dependencies@[e as int].0@;
                        if wd@.len() > pre_wd.len() {
                            if seq_has_string(wd@, d) {
                                let t = choose|t: int| 0 <= t < wd@.len() && wd@[t]@ == d;
                                if t < pre_wd.len() {
                                    assert(seq_has_string(pre_wd, d));
                                } else {
                                    assert(d == key_v);
                                }
                            }
                            if d == key_v {
                                assert(wd@[wd@.len() - 1]@ == d);
                                assert(seq_has_string(wd@, d));
                            }
                            if seq_has_string(pre_wd, d) {
                                let t = choose|t: int| 0 <= t < pre_wd.len() && pre_wd[t]@ == d;
                                assert(wd@[t]@ == d);
                                assert(seq_has_string(wd@, d));
                            }
                        } else {
                            if d == key_v && seq_has_string(names@, key_v) {
                                // already marked or already a workspace name
                                assert(seq_has_string(wd@, d));
                            }
                            if d == key_v && list_has_name(packages@, d) {
                                let y = choose|y: int|
                                    0 <= y < packages@.len() && #[trigger] packages@[y].name@ == d;
                                assert(names@[y]@ == d);
                                assert(seq_has_string(names@, d));
                            }
                        }
                        if seq_has_string(wd@, d) == (seq_has_string(
                            packages@[i as int].workspace_dependencies@,
                            d,
                        ) || (exists|e2: int|
                            0 <= e2 < e && (#[trigger] packages@[i as int].dependencies@[e2]).0@
                                == d && list_has_name(packages@, d))) {
                            if !seq_has_string(wd@, d) && (exists|e2: int|
                                0 <= e2 < e + 1 && (
                                #[trigger] packages@[i as int].dependencies@[e2]).0@ == d
                                    && list_has_name(packages@, d)) {
                                let e2 = choose|e2: int|
                                    0 <= e2 < e + 1 && (
                                    #[trigger] packages@[i as int].dependencies@[e2]).0@ == d
                                        && list_has_name(packages@, d);
                                assert(e2 == e as int);
                                assert(d == key_v);
                            }
                        }
                    }
                }
                e = e + 1;
            }
            let src = &packages[i];
            let marked = WorkspacePackage {
                name: src.name.clone(),
                folder: src.folder.clone(),
                absolute_path: src.absolute_path.clone(),
                version: src.version.clone(),
                dependencies: crate::strmap::clone_string_map(&src.dependencies),
                workspace_dependencies: wd,
                scripts: crate::strmap::clone_string_map(&src.scripts),
            };
            out.push(marked);
            proof {
                assert forall|d: Seq<char>|
                    #[trigger] seq_has_string(out@[i as int].workspace_dependencies@, d) == (
                    seq_has_string(packages@[i as int].workspace_dependencies@, d) || (
                    map_has_key(packages@[i as int].dependencies@, d) && list_has_name(
                        packages@,
                        d,
                    ))) by {
                    if map_has_key(packages@[i as int].dependencies@, d) {
                        let e2 = choose|e2: int|
                            0 <= e2 < packages@[i as int].dependencies@.len() && (
                            #[trigger] packages@[i as int].dependencies@[e2]).0@ == d;
                        assert(0 <= e2 < dn);
                    }
                    if exists|e2: int|
                        0 <= e2 < dn && (#[trigger] packages@[i as int].dependencies@[e2]).0@
                            == d && list_has_name(packages@, d) {
                        let e2 = choose|e2: int|
                            0 <= e2 < dn && (#[trigger] packages@[i as int].dependencies@[e2]).0@
                                == d && list_has_name(packages@, d);
                        assert(map_has_key(packages@[i as int].dependencies@, d));
                    }
                }
                assert(wdeps_marked(packages@, packages@[i as int], out@[i as int]));
            }
            i = i + 1;
        }
        *packages = out;
    }

    /// Builds the directed workspace graph: one node per package, and one
    /// edge from every workspace dependency to its dependent.
    pub fn build_dependency_graph(&self, packages: &Vec<WorkspacePackage>) -> (g:
        petgraph::graph::DiGraph<(), (), usize>)
        ensures
            graph_node_count(g) == packages@.len(),
            graph_edge_set(g) == pkg_edges(packages@),
    {
        let n = packages.len();
        let mut g = graph_new();
        let mut i: usize = 0;
        while i < n
            invariant
                0 <= i <= n,
                graph_node_count(g) == i as nat,
                graph_edge_set(g) == Set::<(int, int)>::empty(),
            decreases n - i,
        {
            let _node = graph_add_node(&mut g);
            i = i + 1;
        }
        proof {
            assert(graph_edge_set(g) =~= partial_pkg_edges(packages@, 0, 0));
        }
        let mut di: usize = 0;
        while di < n
            invariant
                n == packages@.len(),
                graph_node_count(g) == n as nat,
                0 <= di <= n,
                graph_edge_set(g) == partial_pkg_edges(packages@, di as int, 0),
            decreases n - di,
        {
            let mut sj: usize = 0;
            while sj < n
                invariant
                    n == packages@.len(),
                    graph_node_count(g) == n as nat,
                    0 <= di < n,
                    0 <= sj <= n,
                    graph_edge_set(g) == partial_pkg_edges(packages@, di as int, sj as int),
                decreases n - sj,
            {
                let ghost pre = graph_edge_set(g);
                if vec_contains_str(
                    &packages[di].workspace_dependencies,
                    packages[sj].name.as_str(),
                ) {
                    graph_add_edge(&mut g, sj, di);
                    proof {
                        assert(pkg_dep_edge(packages@, sj as int, di as int));
                        assert(pre.insert((sj as int, di as int)) =~= partial_pkg_edges(
                            packages@,
                            di as int,
                            sj as int + 1,
                        ));
                    }
                } else {
                    proof {
                        assert(!pkg_dep_edge(packages@, sj as int, di as int));
                        assert(pre =~= partial_pkg_edges(packages@, di as int, sj as int + 1));
                    }
                }
                sj = sj + 1;
            }
            proof {
                assert(partial_pkg_edges(packages@, di as int, n as int) =~= partial_pkg_edges(
                    packages@,
                    di as int + 1,
                    0,
                ));
            }
            di = di + 1;
        }
        proof {
            assert(partial_pkg_edges(packages@, n as int, 0) =~= pkg_edges(packages@));
        }
        g
    }

    /// Reports the strongly connected components of size two or more, each
    /// as the list of its package names: exactly the circular dependencies.
    pub fn detect_circular_dependencies(
        &self,
        packages: &Vec<WorkspacePackage>,
        graph: &petgraph::graph::DiGraph<(), (), usize>,
    ) -> (r: Vec<Vec<String>>)
        requires
            names_unique(packages@),
            graph_node_count(*graph) == packages@.len(),
            graph_edge_set(*graph) == pkg_edges(packages@),
        ensures
            forall|c: int| 0 <= c < r@.len() ==> r@[c]@.len() >= 2,
            forall|c: int| 0 <= c < r@.len() ==> #[trigger] is_cycle_group(packages@, r@[c]),
            forall|c1: int, x1: int, c2: int, x2: int|
                #![trigger r@[c1]@[x1], r@[c2]@[x2]]
                0 <= c1 < r@.len() && 0 <= x1 < r@[c1]@.len() && 0 <= c2 < r@.len() && 0 <= x2
                    < r@[c2]@.len() && (c1 != c2 || x1 != x2) ==> r@[c1]@[x1]@ != r@[c2]@[x2]@,
            forall|v: int|
                #![trigger packages@[v]]
                0 <= v < packages@.len() && in_nontrivial_scc(pkg_edges(packages@), v)
                    ==> cycles_cover_name(r@, packages@[v].name@),
            (r@.len() == 0) == (forall|v: int|
                0 <= v < packages@.len() ==> !in_nontrivial_scc(pkg_edges(packages@), v)),
    {
        let n = packages.len();
        let groups = graph_tarjan_scc(graph);
        let gn = groups.len();
        let mut r: Vec<Vec<String>> = Vec::new();
        let ghost mut srcs: Seq<int> = Seq::empty();
        let mut c: usize = 0;
        while c < gn
            invariant
                names_unique(packages@),
                srcs.len() == r@.len(),
                forall|t: int|
                    0 <= t < srcs.len() ==> 0 <= #[trigger] srcs[t] < gn && srcs[t] < c
                        && group_named(packages@, groups@[srcs[t]], r@[t]),
                forall|t1: int, t2: int| 0 <= t1 < t2 < srcs.len() ==> srcs[t1] < srcs[t2],
                n == packages@.len(),
                graph_node_count(*graph) == n as nat,
                graph_edge_set(*graph) == pkg_edges(packages@),
                gn == groups@.len(),
                0 <= c <= gn,
                forall|k: int, m: int|
                    #![trigger groups@[k]@[m]]
                    0 <= k < gn && 0 <= m < groups@[k]@.len() ==> (groups@[k]@[m] as int) < n,
                forall|k1: int, m1: int, k2: int, m2: int|
                    #![trigger groups@[k1]@[m1], groups@[k2]@[m2]]
                    0 <= k1 < gn && 0 <= m1 < groups@[k1]@.len() && 0 <= k2 < gn && 0 <= m2
                        < groups@[k2]@.len() && (k1 != k2 || m1 != m2) ==> groups@[k1]@[m1]
                        != groups@[k2]@[m2],
                forall|k: int, m1: int, m2: int|
                    #![trigger groups@[k]@[m1], groups@[k]@[m2]]
                    0 <= k < gn && 0 <= m1 < groups@[k]@.len() && 0 <= m2 < groups@[k]@.len()
                        ==> mutually_reachable(
                        pkg_edges(packages@),
                        groups@[k]@[m1] as int,
                        groups@[k]@[m2] as int,
                    ),
                forall|k1: int, m1: int, k2: int, m2: int|
                    #![trigger groups@[k1]@[m1], groups@[k2]@[m2]]
                    0 <= k1 < gn && 0 <= m1 < groups@[k1]@.len() && 0 <= k2 < gn && 0 <= m2
                        < groups@[k2]@.len() && k1 != k2 ==> !mutually_reachable(
                        pkg_edges(packages@),
                        groups@[k1]@[m1] as int,
                        groups@[k2]@[m2] as int,
                    ),
                forall|v: usize| (v as nat) < n ==> #[trigger] scc_covers(groups@, v),
                forall|cc: int| 0 <= cc < r@.len() ==> r@[cc]@.len() >= 2,
                forall|cc: int| 0 <= cc < r@.len() ==> #[trigger] is_cycle_group(packages@, r@[cc]),
                // every processed large group is already reported
                forall|k: int|
                    #![trigger groups@[k]]
                    0 <= k < c && groups@[k]@.len() >= 2 ==> exists|cc: int|
                        0 <= cc < r@.len() && group_named(packages@, groups@[k], #[trigger] r@[cc]),
            decreases gn - c,
        {
            let gl = groups[c].len();
            if gl >= 2 {
                let mut names: Vec<String> = Vec::new();
                let mut x: usize = 0;
                while x < gl
                    invariant
                        n == packages@.len(),
                        gn == groups@.len(),
                        0 <= c < gn,
                        gl == groups@[c as int]@.len(),
                        forall|m: int|
                            0 <= m < gl ==> (#[trigger] groups@[c as int]@[m] as int) < n,
                        0 <= x <= gl,
                        names@.len() == x,
                        forall|m: int|
                            0 <= m < x ==> #[trigger] names@[m]@ == packages@[groups@[c as int]@[m]
                                as int].name@,
                    decreases gl - x,
                {
                    names.push(packages[groups[c][x]].name.clone());
                    x = x + 1;
                }
                let ghost ix = Seq::new(gl as nat, |m: int| groups@[c as int]@[m] as int);
                let ghost pre_r = r@;
                let ghost pre_srcs = srcs;
                r.push(names);
                proof {
                    assert forall|x2: int, v: int|
                        0 <= x2 < ix.len() && 0 <= v < packages@.len()
                            && #[trigger] mutually_reachable(
                            pkg_edges(packages@),
                            ix[x2],
                            v,
                        ) implies ix.contains(v) by {
                        assert(scc_covers(groups@, v as usize));
                        let (k2, m2) = choose|k2: int, m2: int|
                            0 <= k2 < groups@.len() && 0 <= m2 < groups@[k2]@.len()
                                && groups@[k2]@[m2] == v as usize;
                        if k2 != c as int {
                            assert(!mutually_reachable(
                                pkg_edges(packages@),
                                groups@[c as int]@[x2] as int,
                                groups@[k2]@[m2] as int,
                            ));
                            assert(false);
                        }
                        assert(ix[m2] == v);
                    }
                    assert(cycle_group_matches(packages@, r@[r@.len() - 1]@, ix));
                    assert(is_cycle_group(packages@, r@[r@.len() - 1]));
                    assert(group_named(packages@, groups@[c as int], r@[r@.len() - 1]));
                    srcs = srcs.push(c as int);
                    assert forall|t: int|
                        0 <= t < srcs.len() implies 0 <= #[trigger] srcs[t] < gn && srcs[t] < c + 1
                        && group_named(packages@, groups@[srcs[t]], r@[t]) by {
                        if t < pre_srcs.len() {
                            assert(srcs[t] == pre_srcs[t]);
                            assert(r@[t] == pre_r[t]);
                        } else {
                            assert(srcs[t] == c as int);
                        }
                    }
                    assert forall|t1: int, t2: int|
                        0 <= t1 < t2 < srcs.len() implies srcs[t1] < srcs[t2] by {
                        if t2 < pre_srcs.len() {
                            assert(srcs[t1] == pre_srcs[t1] && srcs[t2] == pre_srcs[t2]);
                        } else {
                            assert(srcs[t1] == pre_srcs[t1] && pre_srcs[t1] < c as int);
                        }
                    }
                    assert forall|k: int|
                        0 <= k < c + 1 && (#[trigger] groups@[k])@.len() >= 2 implies exists|
                        cc: int,
                    |
                        0 <= cc < r@.len() && group_named(packages@, groups@[k], #[trigger] r@[cc]) by {
                        if k < c as int {
                            let cc = choose|cc: int|
                                0 <= cc < pre_r.len() && group_named(
                                    packages@,
                                    groups@[k],
                                    #[trigger] pre_r[cc],
                                );
                            assert(r@[cc] == pre_r[cc]);
                        } else {
                            assert(group_named(packages@, groups@[k], r@[r@.len() - 1]));
                        }
                    }
                }
            }
            c = c + 1;
        }
        proof {
            assert forall|v: int|
                #![trigger packages@[v]]
                0 <= v < packages@.len() && in_nontrivial_scc(
                    pkg_edges(packages@),
                    v,
                ) implies cycles_cover_name(r@, packages@[v].name@) by {
                let w = choose|w: int|
                    w != v && mutually_reachable(pkg_edges(packages@), v, w);
                lemma_reaches_in_range(pkg_edges(packages@), v, w, 0, n as int);
                assert(scc_covers(groups@, v as usize));
                assert(scc_covers(groups@, w as usize));
                let (kv, mv) = choose|kv: int, mv: int|
                    0 <= kv < groups@.len() && 0 <= mv < groups@[kv]@.len() && groups@[kv]@[mv]
                        == v as usize;
                let (kw, mw) = choose|kw: int, mw: int|
                    0 <= kw < groups@.len() && 0 <= mw < groups@[kw]@.len() && groups@[kw]@[mw]
                        == w as usize;
                if kv != kw {
                    assert(!mutually_reachable(
                        pkg_edges(packages@),
                        groups@[kv]@[mv] as int,
                        groups@[kw]@[mw] as int,
                    ));
                    assert(false);
                }
                assert(groups@[kv]@.len() >= 2);
                let cc = choose|cc: int|
                    0 <= cc < r@.len() && group_named(packages@, groups@[kv], #[trigger] r@[cc]);
                assert(r@[cc]@[mv]@ == packages@[v].name@);
                assert(cycles_cover_name(r@, packages@[v].name@));
            }
            assert forall|c1: int, x1: int, c2: int, x2: int|
                #![trigger r@[c1]@[x1], r@[c2]@[x2]]
                0 <= c1 < r@.len() && 0 <= x1 < r@[c1]@.len() && 0 <= c2 < r@.len() && 0 <= x2
                    < r@[c2]@.len() && (c1 != c2 || x1 != x2) implies r@[c1]@[x1]@
                != r@[c2]@[x2]@ by {
                let k1 = srcs[c1];
                let k2 = srcs[c2];
                assert(group_named(packages@, groups@[k1], r@[c1]));
                assert(group_named(packages@, groups@[k2], r@[c2]));
                let a = groups@[k1]@[x1];
                let b = groups@[k2]@[x2];
                assert(r@[c1]@[x1]@ == packages@[a as int].name@);
                assert(r@[c2]@[x2]@ == packages@[b as int].name@);
                if c1 != c2 {
                    if c1 < c2 {
                        assert(srcs[c1] < srcs[c2]);
                    } else {
                        assert(srcs[c2] < srcs[c1]);
                    }
                    assert(a != b);
                } else {
                    assert(a != b);
                }
                if (a as int) < (b as int) {
                    assert(packages@[a as int].name@ != packages@[b as int].name@);
                } else {
                    assert(packages@[b as int].name@ != packages@[a as int].name@);
                }
            }
            if r@.len() > 0 {
                assert(is_cycle_group(packages@, r@[0]));
                let ix = choose|ix: Seq<int>| #[trigger] cycle_group_matches(packages@, r@[0]@, ix);
                assert(ix.len() >= 2);
                assert(ix[0] != ix[1]);
                assert(mutually_reachable(pkg_edges(packages@), ix[0], ix[1]));
                assert(in_nontrivial_scc(pkg_edges(packages@), ix[0]));
                assert(0 <= ix[0] < packages@.len());
            }
        }
        r
    }

    /// Plans the build stages: every package of a stage has all of its
    /// workspace dependencies in earlier stages, and when the workspace
    /// graph is acyclic every package is placed (at most once under unique
    /// names), so the union of the stages is exactly the package set; a
    /// cycle among the remaining packages abandons the plan and no stages
    /// are returned.
    pub fn calculate_build_stages(&self, packages: &Vec<WorkspacePackage>) -> (stages: Vec<
        Vec<WorkspacePackage>,
    >)
        ensures
            stage_plan_wf(packages@, stages@),
            names_unique(packages@) ==> forall|k1: int, m1: int, k2: int, m2: int|
                #![trigger stages@[k1]@[m1], stages@[k2]@[m2]]
                0 <= k1 < stages@.len() && 0 <= m1 < stages@[k1]@.len() && 0 <= k2 < stages@.len()
                    && 0 <= m2 < stages@[k2]@.len() && (k1 != k2 || m1 != m2)
                    ==> stages@[k1]@[m1].name@ != stages@[k2]@[m2].name@,
            names_unique(packages@) ==> forall|k: int, i: int|
                0 <= k < stages@.len() && 0 <= i < packages@.len() && !stage_name_before(
                    stages@,
                    k,
                    packages@[i].name@,
                ) && #[trigger] deps_named_before(packages@, stages@, k, i) ==> stage_has_name(
                    stages@,
                    k,
                    packages@[i].name@,
                ),
            acyclic(pkg_edges(packages@)) ==> forall|i: int|
                #![trigger packages@[i]]
                0 <= i < packages@.len() ==> stage_list_has_name(stages@, packages@[i].name@),
            stages@.len() > 0 ==> forall|i: int|
                #![trigger packages@[i]]
                0 <= i < packages@.len() ==> stage_list_has_name(stages@, packages@[i].name@),
    {
        let pn = packages.len();
        proof {
            assert(packages@.len() == pn as nat);
        }
        let idxs = plan_stage_indices(packages);
        let kn = idxs.len();
        let mut stages: Vec<Vec<WorkspacePackage>> = Vec::new();
        let mut k: usize = 0;
        while k < kn
            invariant
                kn == idxs@.len(),
                0 <= k <= kn,
                stages@.len() == k,
                forall|kk: int| 0 <= kk < kn ==> (#[trigger] idxs@[kk])@.len() > 0,
                forall|kk: int, m: int|
                    #![trigger idxs@[kk]@[m]]
                    0 <= kk < kn && 0 <= m < idxs@[kk]@.len() ==> (idxs@[kk]@[m] as int)
                        < packages@.len(),
                forall|kk: int, m: int|
                    #![trigger stages@[kk]@[m]]
                    0 <= kk < k && 0 <= m < stages@[kk]@.len() ==> m < idxs@[kk]@.len()
                        && stages@[kk]@[m]@ == packages@[idxs@[kk]@[m] as int]@,
                forall|kk: int| 0 <= kk < k ==> (#[trigger] stages@[kk])@.len()
                    == idxs@[kk]@.len(),
            decreases kn - k,
        {
            let gl = idxs[k].len();
            let mut stage: Vec<WorkspacePackage> = Vec::new();
            let mut m: usize = 0;
            while m < gl
                invariant
                    kn == idxs@.len(),
                    0 <= k < kn,
                    gl == idxs@[k as int]@.len(),
                    forall|mm: int|
                        0 <= mm < gl ==> (#[trigger] idxs@[k as int]@[mm] as int)
                            < packages@.len(),
                    0 <= m <= gl,
                    stage@.len() == m,
                    forall|mm: int|
                        0 <= mm < m ==> (#[trigger] stage@[mm])@ == packages@[idxs@[k as int]@[mm]
                            as int]@,
                decreases gl - m,
            {
                let member = packages[idxs[k][m]].clone();
                stage.push(member);
                m = m + 1;
            }
            stages.push(stage);
            k = k + 1;
        }
        proof {
            assert forall|kk: int, m: int|
                #![trigger stages@[kk]@[m]]
                0 <= kk < stages@.len() && 0 <= m < stages@[kk]@.len() implies from_packages(
                packages@,
                stages@[kk]@[m],
            ) by {
                let i = idxs@[kk]@[m] as int;
                assert(stages@[kk]@[m]@ == packages@[i]@);
            }
            assert forall|kk: int, m: int, d: int|
                #![trigger stages@[kk]@[m].workspace_dependencies@[d]]
                0 <= kk < stages@.len() && 0 <= m < stages@[kk]@.len() && 0 <= d
                    < stages@[kk]@[m].workspace_dependencies@.len() && list_has_name(
                    packages@,
                    stages@[kk]@[m].workspace_dependencies@[d]@,
                ) implies stage_name_before(
                stages@,
                kk,
                stages@[kk]@[m].workspace_dependencies@[d]@,
            ) by {
                let dep_name = stages@[kk]@[m].workspace_dependencies@[d]@;
                let i = idxs@[kk]@[m] as int;
                let j = choose|j: int|
                    0 <= j < packages@.len() && #[trigger] packages@[j].name@ == dep_name;
                assert(stages@[kk]@[m]@ == packages@[i]@);
                assert(stages@[kk]@[m].workspace_dependencies@
                    == packages@[i].workspace_dependencies@);
                assert(seq_has_string(packages@[i].workspace_dependencies@, dep_name)) by {
                    assert(packages@[i].workspace_dependencies@[d]@ == dep_name);
                }
                assert(pkg_dep_edge(packages@, j, idxs@[kk]@[m] as int));
                assert(idx_placed_before(idxs@, kk, j as usize));
                let k2 = choose|k2: int| 0 <= k2 < kk && #[trigger] idx_in_stage(idxs@, k2, j as usize);
                let m2 = choose|m2: int|
                    0 <= m2 < idxs@[k2]@.len() && #[trigger] idxs@[k2]@[m2] == j as usize;
                assert(stages@[k2]@[m2]@ == packages@[j]@);
                assert(stage_has_name(stages@, k2, dep_name)) by {
                    assert(stages@[k2]@[m2].name@ == dep_name);
                }
            }
            if names_unique(packages@) {
                assert forall|k1: int, m1: int, k2: int, m2: int|
                    #![trigger stages@[k1]@[m1], stages@[k2]@[m2]]
                    0 <= k1 < stages@.len() && 0 <= m1 < stages@[k1]@.len() && 0 <= k2
                        < stages@.len() && 0 <= m2 < stages@[k2]@.len() && (k1 != k2 || m1
                        != m2) implies stages@[k1]@[m1].name@ != stages@[k2]@[m2].name@ by {
                    let i1 = idxs@[k1]@[m1] as int;
                    let i2 = idxs@[k2]@[m2] as int;
                    assert(stages@[k1]@[m1]@ == packages@[i1]@);
                    assert(stages@[k2]@[m2]@ == packages@[i2]@);
                    assert(idxs@[k1]@[m1] != idxs@[k2]@[m2]);
                }
                assert forall|k: int, i: int|
                    0 <= k < stages@.len() && 0 <= i < packages@.len() && !stage_name_before(
                        stages@,
                        k,
                        packages@[i].name@,
                    ) && #[trigger] deps_named_before(packages@, stages@, k, i) implies
                    stage_has_name(stages@, k, packages@[i].name@) by {
                    assert(!idx_placed_before(idxs@, k, i as usize)) by {
                        if idx_placed_before(idxs@, k, i as usize) {
                            let k2 = choose|k2: int|
                                0 <= k2 < k && #[trigger] idx_in_stage(idxs@, k2, i as usize);
                            let m2 = choose|m2: int|
                                0 <= m2 < idxs@[k2]@.len() && #[trigger] idxs@[k2]@[m2] == (
                                i as usize);
                            assert(stages@[k2]@[m2]@ == packages@[i]@);
                            assert(stage_has_name(stages@, k2, packages@[i].name@)) by {
                                assert(stages@[k2]@[m2].name@ == packages@[i].name@);
                            }
                            assert(stage_name_before(stages@, k, packages@[i].name@));
                        }
                    }
                    assert(crate::stages::deps_placed_before(packages@, idxs@, k, i)) by {
                        assert forall|d: int|
                            0 <= d < packages@.len() && #[trigger] pkg_dep_edge(
                                packages@,
                                d,
                                i,
                            ) implies idx_placed_before(idxs@, k, d as usize) by {
                            assert(stage_name_before(stages@, k, packages@[d].name@));
                            let k2 = choose|k2: int|
                                0 <= k2 < k && #[trigger] stage_has_name(
                                    stages@,
                                    k2,
                                    packages@[d].name@,
                                );
                            let m2 = choose|m2: int|
                                0 <= m2 < stages@[k2]@.len() && (#[trigger] stages@[k2]@[m2]).name@
                                    == packages@[d].name@;
                            let di = idxs@[k2]@[m2] as int;
                            assert(stages@[k2]@[m2]@ == packages@[di]@);
                            assert(packages@[di].name@ == packages@[d].name@);
                            assert(di == d) by {
                                if di < d {
                                    assert(packages@[di].name@ != packages@[d].name@);
                                } else if d < di {
                                    assert(packages@[d].name@ != packages@[di].name@);
                                }
                            }
                            assert(idxs@[k2]@[m2] == d as usize);
                            assert(idx_in_stage(idxs@, k2, d as usize));
                        }
                    }
                    assert(idx_in_stage(idxs@, k, i as usize));
                    let m = choose|m: int|
                        0 <= m < idxs@[k]@.len() && #[trigger] idxs@[k]@[m] == (i as usize);
                    assert(stages@[k]@[m]@ == packages@[i]@);
                    assert(stage_has_name(stages@, k, packages@[i].name@)) by {
                        assert(stages@[k]@[m].name@ == packages@[i].name@);
                    }
                }
            }
            if stages@.len() > 0 || acyclic(pkg_edges(packages@)) {
                assert forall|i: int|
                    #![trigger packages@[i]]
                    0 <= i < packages@.len() implies stage_list_has_name(
                    stages@,
                    packages@[i].name@,
                ) by {
                    assert(idx_placed(idxs@, i as usize));
                    let k2 = choose|k2: int|
                        0 <= k2 < idxs@.len() && #[trigger] idx_in_stage(idxs@, k2, i as usize);
                    let m2 = choose|m2: int|
                        0 <= m2 < idxs@[k2]@.len() && #[trigger] idxs@[k2]@[m2] == i as usize;
                    assert(stages@[k2]@[m2]@ == packages@[i]@);
                    assert(stage_has_name(stages@, k2, packages@[i].name@)) by {
                        assert(stages@[k2]@[m2].name@ == packages@[i].name@);
                    }
                }
            }
        }
        stages
    }

    /// Counts the packages that have at least one workspace dependency.
    fn count_with_wdeps(&self, packages: &Vec<WorkspacePackage>) -> (r: usize)
        ensures
            r as nat == count_pkgs_with_wdeps(packages@),
    {
        let n = packages.len();
        let mut count: usize = 0;
        let mut i: usize = 0;
        while i < n
            invariant
                n == packages@.len(),
                0 <= i <= n,
                count <= i,
                count as nat == count_pkgs_with_wdeps(packages@.take(i as int)),
            decreases n - i,
        {
            proof {
                assert(packages@.take(i as int + 1).drop_last() =~= packages@.take(i as int));
                assert(packages@.take(i as int + 1).last() == packages@[i as int]);
            }
            if packages[i].workspace_dependencies.len() > 0 {
                count = count + 1;
            }
            i = i + 1;
        }
        proof {
            assert(packages@.take(n as int) == packages@);
        }
        count
    }

    /// Analyzes the workspace: scans the manifests, deduplicates by name,
    /// marks workspace dependencies, detects circular dependencies, and
    /// plans build stages (none when a cycle exists). Fails exactly when no
    /// manifest decodes.
    pub fn analyze(&self, files: &Vec<ManifestFile>) -> (r: Result<
        DependencyAnalysisResult,
        AnalyzeError,
    >)
        ensures
            match r {
                Ok(res) => analysis_sound(res) && analysis_matches_files(res, files@),
                Err(e) => e is WorkspaceEmpty,
            },
            (r is Err) == (forall|i: int|
                0 <= i < files@.len() ==> manifest_of((#[trigger] files@[i]).text@) is None),
    {
        let start = crate::clock::now_millis();
        let scanned = self.scan_packages(files);
        let deduped = self.dedupe_packages(&scanned);
        if deduped.len() == 0 {
            proof {
                if scanned@.len() > 0 {
                    assert(list_has_name(deduped@, scanned@[0].name@));
                    assert(false);
                }
            }
            return Err(AnalyzeError::WorkspaceEmpty);
        }
        proof {
            assert(from_packages(scanned@, deduped@[0]));
            let t0 = choose|i: int|
                0 <= i < scanned@.len() && deduped@[0]@ == #[trigger] scanned@[i]@;
            assert(scanned_from(files@, scanned@[t0]));
            let f0 = choose|i: int|
                0 <= i < files@.len() && #[trigger] file_makes_package(files@[i], scanned@[t0]);
            assert(manifest_of(files@[f0].text@) is Some);
        }
        let mut packages = deduped;
        let ghost pre_mark = packages@;
        self.analyze_workspace_dependencies(&mut packages);
        proof {
            assert(packages@.len() == pre_mark.len());
            assert forall|i: int, j: int| 0 <= i < j < packages@.len() implies packages@[i].name@
                != packages@[j].name@ by {
                assert(wdeps_marked(pre_mark, pre_mark[i], packages@[i]));
                assert(wdeps_marked(pre_mark, pre_mark[j], packages@[j]));
            }
            assert forall|d: Seq<char>| #[trigger] list_has_name(pre_mark, d) == list_has_name(
                packages@,
                d,
            ) by {
                if list_has_name(pre_mark, d) {
                    let t = choose|t: int| 0 <= t < pre_mark.len() && #[trigger] pre_mark[t].name@ == d;
                    assert(wdeps_marked(pre_mark, pre_mark[t], packages@[t]));
                    assert(packages@[t].name@ == d);
                }
                if list_has_name(packages@, d) {
                    let t = choose|t: int|
                        0 <= t < packages@.len() && #[trigger] packages@[t].name@ == d;
                    assert(wdeps_marked(pre_mark, pre_mark[t], packages@[t]));
                    assert(pre_mark[t].name@ == d);
                }
            }
            assert forall|i: int, d: Seq<char>|
                0 <= i < packages@.len() implies #[trigger] seq_has_string(
                packages@[i].workspace_dependencies@,
                d,
            ) == (map_has_key(packages@[i].dependencies@, d) && list_has_name(packages@, d)) by {
                assert(wdeps_marked(pre_mark, pre_mark[i], packages@[i]));
                assert(from_packages(scanned@, pre_mark[i])) by {
                    assert(pre_mark[i] == deduped@[i]);
                }
                let si = choose|si: int|
                    0 <= si < scanned@.len() && pre_mark[i]@ == #[trigger] scanned@[si]@;
                assert(scanned_from(files@, scanned@[si]));
                let fi = choose|ff: int|
                    0 <= ff < files@.len() && #[trigger] file_makes_package(files@[ff], scanned@[si]);
                assert(scanned@[si].workspace_dependencies@.len() == 0);
                assert(pre_mark[i].workspace_dependencies@.len() == 0);
                assert(!seq_has_string(pre_mark[i].workspace_dependencies@, d));
            }
            assert forall|t: int|
                0 <= t < packages@.len() implies #[trigger] package_from_files(
                files@,
                packages@[t],
            ) by {
                assert(wdeps_marked(pre_mark, pre_mark[t], packages@[t]));
                assert(from_packages(scanned@, pre_mark[t])) by {
                    assert(pre_mark[t] == deduped@[t]);
                }
                let si = choose|si: int|
                    0 <= si < scanned@.len() && pre_mark[t]@ == #[trigger] scanned@[si]@;
                assert(scanned_from(files@, scanned@[si]));
                let fi = choose|ff: int|
                    0 <= ff < files@.len() && #[trigger] file_makes_package(files@[ff], scanned@[si]);
                lemma_yields_same_fields(files@[fi], scanned@[si], pre_mark[t]);
                lemma_yields_same_fields(files@[fi], pre_mark[t], packages@[t]);
            }
        }
        let graph = self.build_dependency_graph(&packages);
        let circular_dependencies = self.detect_circular_dependencies(&packages, &graph);
        let stages = if circular_dependencies.len() == 0 {
            self.calculate_build_stages(&packages)
        } else {
            Vec::new()
        };
        proof {
            if circular_dependencies@.len() == 0 && (forall|i: int|
                0 <= i < packages@.len() ==> !pkg_dep_edge(packages@, i, i)) {
                assert forall|v: int| !in_nontrivial_scc(pkg_edges(packages@), v) by {
                    if in_nontrivial_scc(pkg_edges(packages@), v) {
                        let w = choose|w: int|
                            w != v && mutually_reachable(pkg_edges(packages@), v, w);
                        lemma_reaches_in_range(
                            pkg_edges(packages@),
                            v,
                            w,
                            0,
                            packages@.len() as int,
                        );
                        assert(0 <= v < packages@.len());
                    }
                }
                assert forall|v: int| !pkg_edges(packages@).contains((v, v)) by {}
                lemma_no_nontrivial_scc_acyclic(pkg_edges(packages@));
            }
        }
        let end = crate::clock::now_millis();
        let duration = if end >= start {
            end - start
        } else {
            0
        };
        let total_packages = packages.len();
        let total_stages = stages.len();
        let packages_with_workspace_deps = self.count_with_wdeps(&packages);
        let circular_dependency_count = circular_dependencies.len();
        let statistics = AnalysisStatistics {
            total_packages,
            total_stages,
            packages_with_workspace_deps,
            circular_dependency_count,
            analysis_duration_ms: duration,
        };
        let res = DependencyAnalysisResult { packages, stages, circular_dependencies, statistics };
        proof {
            assert(analysis_matches_files(res, files@)) by {
                assert(res.packages@ == packages@);
                assert forall|t: int|
                    0 <= t < res.packages@.len() implies #[trigger] package_from_files(
                    files@,
                    res.packages@[t],
                ) by {
                    assert(package_from_files(files@, packages@[t]));
                }
                assert forall|i: int|
                    0 <= i < files@.len() && manifest_of((#[trigger] files@[i]).text@)
                        is Some implies list_has_name(res.packages@, scan_name_of(files@[i])) by {
                    assert(list_has_name(packages@, scan_name_of(files@[i])));
                }
            }
        }
        Ok(res)
    }

    /// Marks exactly the package indices that reach the target index along
    /// the workspace graph: the target and everything it transitively
    /// depends on.
    fn related_indices(&self, packages: &Vec<WorkspacePackage>, ti: usize) -> (marked: Vec<bool>)
        requires
            (ti as int) < packages@.len(),
        ensures
            marked@.len() == packages@.len(),
            forall|v: int|
                0 <= v < packages@.len() ==> marked@[v] == reaches(
                    pkg_edges(packages@),
                    v,
                    ti as int,
                ),
    {
        let n = packages.len();
        let mut marked: Vec<bool> = Vec::new();
        while marked.len() < n
            invariant
                marked@.len() <= n,
                forall|t: int| 0 <= t < marked@.len() ==> !marked@[t],
            decreases n - marked@.len(),
        {
            marked.push(false);
        }
        proof {
            lemma_num_true_zero(marked@);
            lemma_num_true_update(marked@, ti as int);
        }
        marked.set(ti, true);
        let mut marked_count: usize = 1;
        let mut work: Vec<usize> = Vec::new();
        work.push(ti);
        proof {
            assert(reaches_within(pkg_edges(packages@), ti as int, ti as int, 0));
            assert(idx_in_worklist(work@, ti as int)) by {
                assert(work@[0] == ti);
            }
        }
        while work.len() > 0
            invariant
                n == packages@.len(),
                marked@.len() == n,
                (ti as int) < n,
                marked@[ti as int],
                marked_count as nat == num_true(marked@),
                marked_count <= n,
                forall|w: int|
                    0 <= w < work@.len() ==> ((#[trigger] work@[w]) as int) < n && marked@[work@[w]
                        as int],
                forall|v: int|
                    0 <= v < n && #[trigger] marked@[v] ==> reaches(
                        pkg_edges(packages@),
                        v,
                        ti as int,
                    ),
                forall|v: int, j: int|
                    0 <= v < n && marked@[v] && !idx_in_worklist(work@, v) && 0 <= j < n
                        && #[trigger] pkg_dep_edge(packages@, j, v) ==> marked@[j],
            decreases n - marked_count, work@.len(),
        {
            let ghost pre_work = work@;
            let ghost pre_marked = marked@;
            let ghost pre_count = marked_count as nat;
            let v = match work.pop() {
                Some(v) => v,
                None => {
                    return marked;
                },
            };
            proof {
                assert forall|x: int, y: int|
                    0 <= x < n && marked@[x] && !idx_in_worklist(work@, x) && x != v as int && 0
                        <= y < n && #[trigger] pkg_dep_edge(packages@, y, x) implies marked@[y] by {
                    if idx_in_worklist(pre_work, x) {
                        let w = choose|w: int|
                            0 <= w < pre_work.len() && (#[trigger] pre_work[w]) as int == x;
                        if w < pre_work.len() - 1 {
                            assert(work@[w] == pre_work[w]);
                            assert(idx_in_worklist(work@, x));
                        } else {
                            assert(pre_work[w] == v);
                        }
                    }
                }
            }
            let mut j: usize = 0;
            while j < n
                invariant
                    n == packages@.len(),
                    marked@.len() == n,
                    (ti as int) < n,
                    (v as int) < n,
                    marked@[ti as int],
                    marked@[v as int],
                    0 <= j <= n,
                    marked_count as nat == num_true(marked@),
                    marked_count <= n,
                    pre_marked.len() == n,
                    num_true(pre_marked) <= num_true(marked@),
                    pre_count == num_true(pre_marked),
                    work@.len() + pre_count == pre_work.len() - 1 + num_true(marked@),
                    forall|w: int|
                        0 <= w < work@.len() ==> ((#[trigger] work@[w]) as int) < n
                            && marked@[work@[w] as int],
                    forall|x: int|
                        0 <= x < n && #[trigger] pre_marked[x] ==> marked@[x],
                    forall|x: int|
                        0 <= x < n && #[trigger] marked@[x] && !pre_marked[x]
                            ==> idx_in_worklist(work@, x),
                    forall|x: int|
                        0 <= x < n && #[trigger] marked@[x] ==> reaches(
                            pkg_edges(packages@),
                            x,
                            ti as int,
                        ),
                    forall|x: int, y: int|
                        0 <= x < n && marked@[x] && !idx_in_worklist(work@, x) && x != v as int && 0
                            <= y < n && #[trigger] pkg_dep_edge(packages@, y, x) ==> marked@[y],
                    forall|y: int|
                        0 <= y < j && #[trigger] pkg_dep_edge(packages@, y, v as int)
                            ==> marked@[y],
                decreases n - j,
            {
                let is_dep = vec_contains_str(
                    &packages[v].workspace_dependencies,
                    packages[j].name.as_str(),
                );
                if is_dep && !marked[j] {
                    proof {
                        lemma_num_true_update(marked@, j as int);
                        lemma_num_true_le(marked@);
                        lemma_num_true_has_false_low(marked@, j as int);
                        assert(pkg_edges(packages@).contains((j as int, v as int)));
                        crate::graph::lemma_reaches_step(
                            pkg_edges(packages@),
                            j as int,
                            v as int,
                            ti as int,
                        );
                    }
                    marked.set(j, true);
                    marked_count = marked_count + 1;
                    let ghost wpre = work@;
                    let ghost mpre = marked@;
                    work.push(j);
                    proof {
                        assert(idx_in_worklist(work@, j as int)) by {
                            assert(work@[work@.len() - 1] == j);
                        }
                        assert forall|w: int|
                            0 <= w < work@.len() implies ((#[trigger] work@[w]) as int) < n
                            && marked@[work@[w] as int] by {
                            if w < work@.len() - 1 {
                                assert(work@[w] == wpre[w]);
                            }
                        }
                        assert forall|x: int|
                            0 <= x < n && #[trigger] marked@[x] && !pre_marked[x] implies
                            idx_in_worklist(work@, x) by {
                            if x != j as int {
                                assert(mpre[x] && !pre_marked[x]);
                                assert(idx_in_worklist(wpre, x));
                                let w = choose|w: int|
                                    0 <= w < wpre.len() && (#[trigger] wpre[w]) as int == x;
                                assert(work@[w] as int == x);
                            }
                        }
                        assert forall|x: int, y: int|
                            0 <= x < n && marked@[x] && !idx_in_worklist(work@, x) && x != v as int
                                && 0 <= y < n && #[trigger] pkg_dep_edge(
                                packages@,
                                y,
                                x,
                            ) implies marked@[y] by {
                            assert(!idx_in_worklist(wpre, x)) by {
                                if idx_in_worklist(wpre, x) {
                                    let w = choose|w: int|
                                        0 <= w < wpre.len() && (#[trigger] wpre[w]) as int == x;
                                    assert(work@[w] as int == x);
                                    assert(idx_in_worklist(work@, x));
                                }
                            }
                            assert(x != j as int);
                            assert(mpre[x]);
                        }
                    }
                }
                j = j + 1;
            }
            proof {
                if num_true(marked@) == pre_count {
                    lemma_num_true_pointwise(pre_marked, marked@);
                    assert(marked@ =~= pre_marked);
                }
                assert forall|x: int, y: int|
                    0 <= x < n && marked@[x] && !idx_in_worklist(work@, x) && 0 <= y < n
                        && #[trigger] pkg_dep_edge(packages@, y, x) implies marked@[y] by {}
            }
        }
        proof {
            assert forall|x: int|
                0 <= x < n && reaches(pkg_edges(packages@), x, ti as int) implies marked@[x] by {
                let steps = choose|steps: nat|
                    reaches_within(pkg_edges(packages@), x, ti as int, steps);
                lemma_closed_contains_reachable(
                    pkg_edges(packages@),
                    marked@,
                    ti as int,
                    x,
                    steps,
                );
            }
        }
        marked
    }

    /// The packages the target needs, by view: the target itself and every
    /// package it transitively depends on. A target whose name is not in the
    /// list is returned alone.
    pub fn get_related_packages(
        &self,
        target: &WorkspacePackage,
        all_packages: &Vec<WorkspacePackage>,
    ) -> (r: Vec<WorkspacePackage>)
        ensures
            list_has_name(all_packages@, target.name@) ==> exists|ti: int|
                0 <= ti < all_packages@.len() && (#[trigger] all_packages@[ti]).name@
                    == target.name@ && related_set_of(all_packages@, ti, r@),
            !list_has_name(all_packages@, target.name@) ==> r@.len() == 1 && r@[0]@ == target@,
    {
        let n = all_packages.len();
        let mut ti: usize = 0;
        let mut found = false;
        while ti < n && !found
            invariant
                n == all_packages@.len(),
                0 <= ti <= n,
                found ==> ti < n && all_packages@[ti as int].name@ == target.name@,
                !found ==> forall|j: int|
                    0 <= j < ti ==> (#[trigger] all_packages@[j]).name@ != target.name@,
            decreases n - ti, (if found { 0int } else { 1int }),
        {
            if str_eq(all_packages[ti].name.as_str(), target.name.as_str()) {
                found = true;
            } else {
                ti = ti + 1;
            }
        }
        if !found {
            let mut r: Vec<WorkspacePackage> = Vec::new();
            r.push(target.clone());
            return r;
        }
        let marked = self.related_indices(all_packages, ti);
        let mut r: Vec<WorkspacePackage> = Vec::new();
        let mut i: usize = 0;
        while i < n
            invariant
                n == all_packages@.len(),
                marked@.len() == n,
                0 <= ti < n,
                0 <= i <= n,
                forall|v: int|
                    0 <= v < n ==> marked@[v] == reaches(pkg_edges(all_packages@), v, ti as int),
                forall|t: int|
                    0 <= t < r@.len() ==> #[trigger] related_member_ok(
                        all_packages@,
                        ti as int,
                        r@[t],
                    ),
                forall|v: int|
                    0 <= v < i && marked@[v] ==> #[trigger] view_in_list(r@, all_packages@[v]@),
            decreases n - i,
        {
            let ghost pre = r@;
            if marked[i] {
                let member = all_packages[i].clone();
                r.push(member);
                proof {
                    assert(r@[r@.len() - 1]@ == all_packages@[i as int]@);
                    assert(related_member_ok(all_packages@, ti as int, r@[r@.len() - 1]));
                    assert forall|v: int|
                        0 <= v < i + 1 && marked@[v] implies #[trigger] view_in_list(
                        r@,
                        all_packages@[v]@,
                    ) by {
                        if v < i as int {
                            assert(view_in_list(pre, all_packages@[v]@));
                            let t = choose|t: int|
                                0 <= t < pre.len() && (#[trigger] pre[t])@ == all_packages@[v]@;
                            assert(r@[t]@ == all_packages@[v]@);
                        } else {
                            assert(r@[r@.len() - 1]@ == all_packages@[v]@);
                        }
                    }
                    assert forall|t: int|
                        0 <= t < r@.len() implies #[trigger] related_member_ok(
                        all_packages@,
                        ti as int,
                        r@[t],
                    ) by {
                        if t < pre.len() {
                            assert(r@[t] == pre[t]);
                        }
                    }
                }
            }
            i = i + 1;
        }
        proof {
            assert(all_packages@[ti as int].name@ == target.name@);
        }
        r
    }

    /// Analyzes the whole workspace, then restricts the plan to one target
    /// package: its stages cover exactly the target's dependency closure,
    /// and they are empty when the workspace has a cycle involving the
    /// target.
    pub fn analyze_single_package(&self, files: &Vec<ManifestFile>, package_name: &str) -> (r:
        Result<DependencyAnalysisResult, AnalyzeError>)
        ensures
            match r {
                Ok(res) => {
                    &&& res.packages@.len() == 1
                    &&& res.packages@[0].name@ == package_name@
                    &&& res.statistics.total_packages == 1
                    &&& res.statistics.total_stages as nat == res.stages@.len()
                    &&& res.statistics.circular_dependency_count as nat
                        == res.circular_dependencies@.len()
                    &&& exists|full: DependencyAnalysisResult, ti: int, related: Seq<
                        WorkspacePackage,
                    >| #[trigger] single_plan_of(full, ti, related, files@, package_name@, res)
                },
                Err(e) => match e {
                    AnalyzeError::WorkspaceEmpty => forall|i: int|
                        0 <= i < files@.len() ==> manifest_of((#[trigger] files@[i]).text@)
                            is None,
                    AnalyzeError::PackageNotFound => forall|i: int|
                        0 <= i < files@.len() && manifest_of((#[trigger] files@[i]).text@) is Some
                            ==> scan_name_of(files@[i]) != package_name@,
                },
            },
            (exists|i: int|
                0 <= i < files@.len() && manifest_of((#[trigger] files@[i]).text@) is Some
                    && scan_name_of(files@[i]) == package_name@) ==> r is Ok,
    {
        let full = match self.analyze(files) {
            Ok(full) => full,
            Err(e) => {
                return Err(e);
            },
        };
        let pn = full.packages.len();
        let mut fi: usize = 0;
        let mut found = false;
        while fi < pn && !found
            invariant
                pn == full.packages@.len(),
                0 <= fi <= pn,
                found ==> fi < pn && full.packages@[fi as int].name@ == package_name@,
                !found ==> forall|j: int|
                    0 <= j < fi ==> (#[trigger] full.packages@[j]).name@ != package_name@,
            decreases pn - fi, (if found { 0int } else { 1int }),
        {
            if str_eq(full.packages[fi].name.as_str(), package_name) {
                found = true;
            } else {
                fi = fi + 1;
            }
        }
        if !found {
            proof {
                assert forall|i: int|
                    0 <= i < files@.len() && manifest_of((#[trigger] files@[i]).text@)
                        is Some implies scan_name_of(files@[i]) != package_name@ by {
                    if scan_name_of(files@[i]) == package_name@ {
                        assert(list_has_name(full.packages@, scan_name_of(files@[i])));
                        let t = choose|t: int|
                            0 <= t < full.packages@.len() && (#[trigger] full.packages@[t]).name@
                                == package_name@;
                        assert(false);
                    }
                }
            }
            return Err(AnalyzeError::PackageNotFound);
        }
        let ghost full0 = full;
        let target = full.packages[fi].clone();
        let related = self.get_related_packages(&target, &full.packages);
        let target_in_cycle = {
            let cn = full.circular_dependencies.len();
            let mut found = false;
            let mut c: usize = 0;
            while c < cn && !found
                invariant
                    cn == full.circular_dependencies@.len(),
                    0 <= c <= cn,
                    target.name@ == package_name@,
                    found ==> cycles_cover_name(full.circular_dependencies@, package_name@),
                    !found ==> forall|cc: int, x: int|
                        0 <= cc < c && 0 <= x < full.circular_dependencies@[cc]@.len() ==> (
                        #[trigger] full.circular_dependencies@[cc]@[x])@ != package_name@,
                decreases cn - c, (if found { 0int } else { 1int }),
            {
                if vec_contains_str(&full.circular_dependencies[c], target.name.as_str()) {
                    proof {
                        let x = choose|x: int|
                            0 <= x < full.circular_dependencies@[c as int]@.len()
                                && full.circular_dependencies@[c as int]@[x]@ == target.name@;
                        assert(cycles_cover_name(full.circular_dependencies@, package_name@));
                    }
                    found = true;
                } else {
                    c = c + 1;
                }
            }
            found
        };
        let stages = if full.circular_dependencies.len() == 0 {
            self.calculate_build_stages(&related)
        } else if target_in_cycle {
            Vec::new()
        } else {
            self.calculate_build_stages(&related)
        };
        proof {
            assert(stage_plan_wf(related@, stages@));
            assert(target_in_cycle == cycles_cover_name(
                full.circular_dependencies@,
                package_name@,
            ));
        }
        let end_count = stages.len();
        let has_wdeps = target.has_workspace_dependencies();
        let statistics = AnalysisStatistics {
            total_packages: 1,
            total_stages: end_count,
            packages_with_workspace_deps: if has_wdeps {
                1
            } else {
                0
            },
            circular_dependency_count: full.circular_dependencies.len(),
            analysis_duration_ms: full.statistics.analysis_duration_ms,
        };
        let mut packages: Vec<WorkspacePackage> = Vec::new();
        packages.push(target);
        let res = DependencyAnalysisResult {
            packages,
            stages,
            circular_dependencies: full.circular_dependencies,
            statistics,
        };
        proof {
            assert(list_has_name(full0.packages@, full0.packages@[fi as int].name@)) by {
                assert(full0.packages@[fi as int].name@ == full0.packages@[fi as int].name@);
            }
            let ti = choose|ti: int|
                0 <= ti < full0.packages@.len() && (#[trigger] full0.packages@[ti]).name@
                    == res.packages@[0].name@ && related_set_of(full0.packages@, ti, related@);
            assert(ti == fi as int) by {
                if ti < fi as int {
                    assert(full0.packages@[ti].name@ != full0.packages@[fi as int].name@);
                } else if (fi as int) < ti {
                    assert(full0.packages@[fi as int].name@ != full0.packages@[ti].name@);
                }
            }
            assert(single_plan_of(full0, ti, related@, files@, package_name@, res));
        }
        Ok(res)
    }
}

/// A name-level cycle group together with the package indices behind it:
/// the listed names are the names of the indexed packages, the indices are
/// distinct and mutually reachable, and the group is closed under mutual
/// reachability.
pub open spec fn cycle_group_matches(
    pkgs: Seq<WorkspacePackage>,
    names: Seq<String>,
    ix: Seq<int>,
) -> bool {
    &&& ix.len() == names.len()
    &&& forall|x: int|
        0 <= x < ix.len() ==> 0 <= #[trigger] ix[x] < pkgs.len() && names[x]@ == pkgs[ix[x]].name@
    &&& forall|x: int, y: int| 0 <= x < y < ix.len() ==> ix[x] != ix[y]
    &&& forall|x: int, y: int|
        0 <= x < ix.len() && 0 <= y < ix.len() ==> mutually_reachable(
            pkg_edges(pkgs),
            #[trigger] ix[x],
            #[trigger] ix[y],
        )
    &&& forall|x: int, v: int|
        0 <= x < ix.len() && 0 <= v < pkgs.len() && #[trigger] mutually_reachable(
            pkg_edges(pkgs),
            ix[x],
            v,
        ) ==> ix.contains(v)
}

/// The names form one whole strongly connected component of size two or
/// more.
pub open spec fn is_cycle_group(pkgs: Seq<WorkspacePackage>, names: Vec<String>) -> bool {
    exists|ix: Seq<int>| #[trigger] cycle_group_matches(pkgs, names@, ix)
}

/// Some reported cycle names the package name.
pub open spec fn cycles_cover_name(cycles: Seq<Vec<String>>, nm: Seq<char>) -> bool {
    exists|c: int, x: int|
        0 <= c < cycles.len() && 0 <= x < cycles[c]@.len() && (#[trigger] cycles[c]@[x])@ == nm
}

} // verus!