//! The update planner: the edits that bring one dependency to a target
//! version across every manifest that declares it.
use vstd::prelude::*;

use crate::analyzer::ManifestFile;
use crate::manifest::parse_manifest;
use crate::package::PackageJson;
use crate::strmap::str_eq;
use crate::version::{
    extract_version_from_spec, is_skipped_spec, should_skip_dependency, strip_range_prefix,
};

verus! {

/// One planned or applied dependency update.
pub struct UpdateResult {
    /// The dependency whose version changes.
    pub dependency: String,
    /// The spec as it stands.
    pub old_version: String,
    /// The bare version to update to.
    pub new_version: String,
    /// The package whose manifest is edited.
    pub package: String,
    /// The dependency kind the spec stands under.
    pub dep_type: String,
}

/// Every planned update names the requested dependency, carries the target
/// version, keeps no locally-resolving spec, and is needed: the declared
/// bare version differs from the target.
pub open spec fn updates_wf(updates: Seq<UpdateResult>, dep: Seq<char>, target: Seq<char>) -> bool {
    forall|t: int|
        0 <= t < updates.len() ==> {
            let u = #[trigger] updates[t];
            &&& u.dependency@ == dep
            &&& u.new_version@ == target
            &&& !is_skipped_spec(u.old_version@)
            &&& strip_range_prefix(u.old_version@) != target
        }
}

/// Plans the updates that bring the named dependency to the target version:
/// one edit per declaration whose bare version differs, skipping every
/// locally-resolving spec.
pub fn create_update_plan_for_dependency(
    files: &Vec<ManifestFile>,
    dependency_name: &str,
    new_version: &str,
) -> (updates: Vec<UpdateResult>)
    ensures
        updates_wf(updates@, dependency_name@, new_version@),
{
    let n = files.len();
    let mut updates: Vec<UpdateResult> = Vec::new();
    let mut i: usize = 0;
    while i < n
        invariant
            n == files@.len(),
            0 <= i <= n,
            updates_wf(updates@, dependency_name@, new_version@),
        decreases n - i,
    {
        match parse_manifest(files[i].text.as_str()) {
            Some(pj) => {
                let package_name = pj.get_name("unknown");
                plan_updates_in_map(
                    &pj.dependencies,
                    "dependencies",
                    package_name.as_str(),
                    dependency_name,
                    new_version,
                    &mut updates,
                );
                plan_updates_in_map(
                    &pj.dev_dependencies,
                    "devDependencies",
                    package_name.as_str(),
                    dependency_name,
                    new_version,
                    &mut updates,
                );
                plan_updates_in_map(
                    &pj.peer_dependencies,
                    "peerDependencies",
                    package_name.as_str(),
                    dependency_name,
                    new_version,
                    &mut updates,
                );
            },
            None => {},
        }
        i = i + 1;
    }
    updates
}

/// Plans the updates one dependency map owes.
fn plan_updates_in_map(
    map: &Vec<(String, String)>,
    dep_type: &str,
    package_name: &str,
    dependency_name: &str,
    new_version: &str,
    updates: &mut Vec<UpdateResult>,
)
    requires
        updates_wf(old(updates)@, dependency_name@, new_version@),
    ensures
        updates_wf(final(updates)@, dependency_name@, new_version@),
{
    let n = map.len();
    let mut e: usize = 0;
    while e < n
        invariant
            n == map@.len(),
            0 <= e <= n,
            updates_wf(updates@, dependency_name@, new_version@),
        decreases n - e,
    {
        if str_eq(map[e].0.as_str(), dependency_name) && !should_skip_dependency(
            map[e].1.as_str(),
        ) {
            let clean_current = extract_version_from_spec(map[e].1.as_str());
            if !str_eq(clean_current.as_str(), new_version) {
                let update = UpdateResult {
                    dependency: dependency_name.to_owned(),
                    old_version: map[e].1.clone(),
                    new_version: new_version.to_owned(),
                    package: package_name.to_owned(),
                    dep_type: dep_type.to_owned(),
                };
                updates.push(update);
            }
        }
        e = e + 1;
    }
}

} // verus!
