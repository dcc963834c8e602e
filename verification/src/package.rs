//! Package data model: a workspace package, the manifest fields the engine
//! consumes, and the analysis result types.
use vstd::prelude::*;

use crate::strmap::{
    keys_unique, map_contains_key, map_get, map_has_key, map_lookup, seq_has_string, str_eq,
    vec_contains_str,
};

verus! {

/// One package of the workspace: a manifest and its directory.
pub struct WorkspacePackage {
    /// Package name (falls back to the directory name).
    pub name: String,
    /// Path of the package directory relative to the workspace root.
    pub folder: String,
    /// Absolute path of the package directory.
    pub absolute_path: String,
    /// Version string (falls back to "0.0.0").
    pub version: String,
    /// All dependencies, merged over the three recognized kinds.
    pub dependencies: Vec<(String, String)>,
    /// The dependency names that match another package of this workspace.
    pub workspace_dependencies: Vec<String>,
    /// Script name to command string.
    pub scripts: Vec<(String, String)>,
}

/// A workspace package as a mathematical value.
pub ghost struct PackageView {
    pub name: Seq<char>,
    pub folder: Seq<char>,
    pub absolute_path: Seq<char>,
    pub version: Seq<char>,
    pub dependencies: Seq<(String, String)>,
    pub workspace_dependencies: Seq<String>,
    pub scripts: Seq<(String, String)>,
}

impl View for WorkspacePackage {
    type V = PackageView;

    open spec fn view(&self) -> PackageView {
        PackageView {
            name: self.name@,
            folder: self.folder@,
            absolute_path: self.absolute_path@,
            version: self.version@,
            dependencies: self.dependencies@,
            workspace_dependencies: self.workspace_dependencies@,
            scripts: self.scripts@,
        }
    }
}

impl Clone for WorkspacePackage {
    fn clone(&self) -> (r: Self)
        ensures
            r@ == self@,
    {
        WorkspacePackage {
            name: self.name.clone(),
            folder: self.folder.clone(),
            absolute_path: self.absolute_path.clone(),
            version: self.version.clone(),
            dependencies: crate::strmap::clone_string_map(&self.dependencies),
            workspace_dependencies: crate::strmap::clone_string_vec(&self.workspace_dependencies),
            scripts: crate::strmap::clone_string_map(&self.scripts),
        }
    }
}

impl WorkspacePackage {
    /// Creates a package with no workspace dependencies marked yet.
    pub fn new(
        name: String,
        folder: String,
        absolute_path: String,
        version: String,
        dependencies: Vec<(String, String)>,
        scripts: Vec<(String, String)>,
    ) -> (r: Self)
        ensures
            r.name@ == name@,
            r.folder@ == folder@,
            r.absolute_path@ == absolute_path@,
            r.version@ == version@,
            r.dependencies@ == dependencies@,
            r.workspace_dependencies@ == Seq::<String>::empty(),
            r.scripts@ == scripts@,
    {
        WorkspacePackage {
            name,
            folder,
            absolute_path,
            version,
            dependencies,
            workspace_dependencies: Vec::new(),
            scripts,
        }
    }

    /// Whether the package declares the named dependency (of any kind).
    pub fn has_dependency(&self, dep_name: &str) -> (r: bool)
        ensures
            r == map_has_key(self.dependencies@, dep_name@),
    {
        map_contains_key(&self.dependencies, dep_name)
    }

    /// Whether the package declares the named script.
    pub fn has_script(&self, script_name: &str) -> (r: bool)
        ensures
            r == map_has_key(self.scripts@, script_name@),
    {
        map_contains_key(&self.scripts, script_name)
    }

    /// Whether any dependency of this package is another workspace package.
    pub fn has_workspace_dependencies(&self) -> (r: bool)
        ensures
            r == (self.workspace_dependencies@.len() > 0),
    {
        self.workspace_dependencies.len() > 0
    }

    /// Marks a dependency as in-workspace; a name already marked is not
    /// added twice.
    pub fn add_workspace_dependency(&mut self, dep_name: String)
        ensures
            seq_has_string(old(self).workspace_dependencies@, dep_name@)
                ==> final(self).workspace_dependencies@ == old(self).workspace_dependencies@,
            !seq_has_string(old(self).workspace_dependencies@, dep_name@)
                ==> final(self).workspace_dependencies@
                == old(self).workspace_dependencies@.push(dep_name),
            final(self).name@ == old(self).name@,
            final(self).folder@ == old(self).folder@,
            final(self).absolute_path@ == old(self).absolute_path@,
            final(self).version@ == old(self).version@,
            final(self).dependencies@ == old(self).dependencies@,
            final(self).scripts@ == old(self).scripts@,
    {
        if !vec_contains_str(&self.workspace_dependencies, dep_name.as_str()) {
            self.workspace_dependencies.push(dep_name);
        }
    }
}

/// The manifest fields the engine consumes, as read from one manifest file.
pub struct PackageJson {
    pub name: Option<String>,
    pub version: Option<String>,
    pub dependencies: Vec<(String, String)>,
    pub dev_dependencies: Vec<(String, String)>,
    pub peer_dependencies: Vec<(String, String)>,
    pub scripts: Vec<(String, String)>,
}

/// The value the merged dependency map must associate with a key: the peer
/// entry wins over the development entry, which wins over the runtime entry.
pub open spec fn merged_dep_lookup(m: PackageJson, k: Seq<char>) -> Option<Seq<char>> {
    if map_has_key(m.peer_dependencies@, k) {
        map_lookup(m.peer_dependencies@, k)
    } else if map_has_key(m.dev_dependencies@, k) {
        map_lookup(m.dev_dependencies@, k)
    } else {
        map_lookup(m.dependencies@, k)
    }
}

impl PackageJson {
    /// Merges the three dependency maps; a name declared under several kinds
    /// keeps the peer entry, else the development entry.
    pub fn get_all_dependencies(&self) -> (r: Vec<(String, String)>)
        ensures
            keys_unique(r@),
            forall|k: Seq<char>| map_lookup(r@, k) == merged_dep_lookup(*self, k),
    {
        let mut r: Vec<(String, String)> = Vec::new();
        merge_map_into(&mut r, &self.peer_dependencies);
        merge_map_into(&mut r, &self.dev_dependencies);
        merge_map_into(&mut r, &self.dependencies);
        proof {
            assert forall|k: Seq<char>| map_lookup(r@, k) == merged_dep_lookup(*self, k) by {
                crate::strmap::lemma_lookup_some_iff_has_key(self.peer_dependencies@, k);
                crate::strmap::lemma_lookup_some_iff_has_key(self.dev_dependencies@, k);
            }
        }
        r
    }

    /// The package name, or the given fallback when the manifest omits one.
    pub fn get_name(&self, fallback_name: &str) -> (r: String)
        ensures
            match self.name {
                Some(n) => r@ == n@,
                None => r@ == fallback_name@,
            },
    {
        match &self.name {
            Some(n) => n.clone(),
            None => fallback_name.to_owned(),
        }
    }

    /// The package version, or "0.0.0" when the manifest omits one.
    pub fn get_version(&self) -> (r: String)
        ensures
            match self.version {
                Some(v) => r@ == v@,
                None => r@ == "0.0.0"@,
            },
    {
        match &self.version {
            Some(v) => v.clone(),
            None => "0.0.0".to_owned(),
        }
    }

    /// Whether the manifest declares the named script.
    pub fn has_script(&self, script_name: &str) -> (r: bool)
        ensures
            r == map_has_key(self.scripts@, script_name@),
    {
        map_contains_key(&self.scripts, script_name)
    }
}

/// Copies the entries of `src` whose keys are not yet in `dst` to the end of
/// `dst`, keeping the first value `src` carries for each key.
fn merge_map_into(dst: &mut Vec<(String, String)>, src: &Vec<(String, String)>)
    requires
        keys_unique(old(dst)@),
    ensures
        keys_unique(final(dst)@),
        forall|k: Seq<char>|
            map_lookup(final(dst)@, k) == if map_has_key(old(dst)@, k) {
                map_lookup(old(dst)@, k)
            } else {
                map_lookup(src@, k)
            },
        forall|k: Seq<char>|
            map_has_key(final(dst)@, k) == (map_has_key(old(dst)@, k) || map_has_key(src@, k)),
{
    proof {
        assert forall|k: Seq<char>|
            map_lookup(old(dst)@, k) == (if map_has_key(old(dst)@, k) {
                map_lookup(old(dst)@, k)
            } else {
                map_lookup(src@.take(0), k)
            }) by {
            crate::strmap::lemma_lookup_some_iff_has_key(old(dst)@, k);
        }
    }
    let n = src.len();
    let mut i: usize = 0;
    while i < n
        invariant
            n == src@.len(),
            0 <= i <= n,
            keys_unique(dst@),
            forall|k: Seq<char>|
                map_lookup(dst@, k) == if map_has_key(old(dst)@, k) {
                    map_lookup(old(dst)@, k)
                } else {
                    map_lookup(src@.take(i as int), k)
                },
            forall|k: Seq<char>|
                map_has_key(dst@, k) == (map_has_key(old(dst)@, k) || map_has_key(
                    src@.take(i as int),
                    k,
                )),
        decreases n - i,
    {
        let ghost pre = dst@;
        let key_present = map_contains_key(dst, src[i].0.as_str());
        if !key_present {
            let pair = (src[i].0.clone(), src[i].1.clone());
            dst.push(pair);
            proof {
                assert forall|a: int, b: int| 0 <= a < b < dst@.len() implies dst@[a].0@
                    != dst@[b].0@ by {
                    if b == dst@.len() - 1 {
                        assert(!map_has_key(pre, dst@[b].0@));
                        assert(pre[a] == dst@[a]);
                    }
                }
            }
        }
        proof {
            assert forall|k: Seq<char>|
                map_lookup(dst@, k) == (if map_has_key(old(dst)@, k) {
                    map_lookup(old(dst)@, k)
                } else {
                    map_lookup(src@.take(i as int + 1), k)
                }) by {
                lemma_lookup_take_step(src@, i as int, k);
                crate::strmap::lemma_lookup_some_iff_has_key(pre, k);
                crate::strmap::lemma_lookup_some_iff_has_key(src@.take(i as int), k);
                crate::strmap::lemma_lookup_some_iff_has_key(old(dst)@, k);
                if !key_present {
                    let p = (src@[i as int].0, src@[i as int].1);
                    assert(dst@ =~= pre.push(p));
                    lemma_lookup_extend(pre, p, k);
                }
            }
            assert forall|k: Seq<char>|
                map_has_key(dst@, k) == (map_has_key(old(dst)@, k) || map_has_key(
                    src@.take(i as int + 1),
                    k,
                )) by {
                crate::strmap::lemma_lookup_some_iff_has_key(dst@, k);
                crate::strmap::lemma_lookup_some_iff_has_key(old(dst)@, k);
                crate::strmap::lemma_lookup_some_iff_has_key(src@.take(i as int + 1), k);
            }
        }
        i = i + 1;
    }
    proof {
        assert(src@.take(n as int) == src@);
    }
}

/// One step of the prefix lookup: looking in `take(i + 1)` first consults
/// `take(i)` and then entry `i`.
proof fn lemma_lookup_take_step(src: Seq<(String, String)>, i: int, k: Seq<char>)
    requires
        0 <= i < src.len(),
    ensures
        map_lookup(src.take(i + 1), k) == if map_has_key(src.take(i), k) {
            map_lookup(src.take(i), k)
        } else if src[i].0@ == k {
            Some(src[i].1@)
        } else {
            None
        },
{
    lemma_lookup_extend(src.take(i), src[i], k);
    assert(src.take(i).push(src[i]) =~= src.take(i + 1));
    crate::strmap::lemma_lookup_some_iff_has_key(src.take(i), k);
}

/// Looking a key up after a push falls back to the pushed entry.
proof fn lemma_lookup_extend(m: Seq<(String, String)>, p: (String, String), k: Seq<char>)
    ensures
        map_lookup(m.push(p), k) == if map_lookup(m, k) is Some {
            map_lookup(m, k)
        } else if p.0@ == k {
            Some(p.1@)
        } else {
            None
        },
    decreases m.len(),
{
    if m.len() > 0 {
        lemma_lookup_extend(m.drop_first(), p, k);
        assert(m.push(p).drop_first() == m.drop_first().push(p));
    } else {
        assert(m.push(p)[0] == p);
        assert(m.push(p).drop_first() =~= m);
    }
}

/// Statistics of one analysis run.
pub struct AnalysisStatistics {
    pub total_packages: usize,
    pub total_stages: usize,
    pub packages_with_workspace_deps: usize,
    pub circular_dependency_count: usize,
    pub analysis_duration_ms: u64,
}

impl Default for AnalysisStatistics {
    fn default() -> (r: Self)
        ensures
            r.total_packages == 0,
            r.total_stages == 0,
            r.packages_with_workspace_deps == 0,
            r.circular_dependency_count == 0,
            r.analysis_duration_ms == 0,
    {
        AnalysisStatistics {
            total_packages: 0,
            total_stages: 0,
            packages_with_workspace_deps: 0,
            circular_dependency_count: 0,
            analysis_duration_ms: 0,
        }
    }
}

/// The outcome of a workspace analysis: the packages, the build stages, and
/// the circular dependencies found.
pub struct DependencyAnalysisResult {
    pub packages: Vec<WorkspacePackage>,
    pub stages: Vec<Vec<WorkspacePackage>>,
    pub circular_dependencies: Vec<Vec<String>>,
    pub statistics: AnalysisStatistics,
}

} // verus!
