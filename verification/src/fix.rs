//! The fix planner: turns detected version conflicts into the per-package
//! version edits that unify each dependency on its recommended version.
use vstd::prelude::*;

use crate::checker::VersionConflict;
use crate::version::{formatted_version, preserve_version_format};

verus! {

/// One planned or applied version edit.
pub struct FixResult {
    /// The package whose manifest is edited.
    pub package: String,
    /// The dependency whose version changes.
    pub dependency: String,
    /// The spec as it stands.
    pub old_version: String,
    /// The spec to write: the recommended version behind the old operator.
    pub new_version: String,
    /// The dependency kind the spec stands under.
    pub dep_type: String,
}

/// The fix owed to usage `u` of conflict `c`: it is planned exactly when the
/// usage's resolved version differs from the recommendation, and it keeps
/// the usage's range operator.
pub open spec fn is_fix_for(c: VersionConflict, u: int, f: FixResult) -> bool {
    &&& 0 <= u < c.conflicts@.len()
    &&& c.conflicts@[u].resolved_version@ != c.recommended_version@
    &&& f.package@ == c.conflicts@[u].package@
    &&& f.dependency@ == c.name@
    &&& f.old_version@ == c.conflicts@[u].version_spec@
    &&& f.new_version@ == formatted_version(
        c.conflicts@[u].version_spec@,
        c.recommended_version@,
    )
    &&& f.dep_type@ == c.conflicts@[u].dep_type@
}

/// The fix belongs to some conflict usage that disagrees with its
/// recommendation.
pub open spec fn fix_justified(conflicts: Seq<VersionConflict>, f: FixResult) -> bool {
    exists|t: int, u: int| 0 <= t < conflicts.len() && #[trigger] is_fix_for(conflicts[t], u, f)
}

/// Some planned fix is the one owed to usage `u` of conflict `c`.
pub open spec fn has_fix_for(fixes: Seq<FixResult>, c: VersionConflict, u: int) -> bool {
    exists|t: int| 0 <= t < fixes.len() && is_fix_for(c, u, #[trigger] fixes[t])
}

/// Plans one edit for every conflict usage whose resolved version differs
/// from the recommended one, keeping each spec's range operator.
pub fn calculate_fix_plan(conflicts: &Vec<VersionConflict>) -> (fixes: Vec<FixResult>)
    ensures
        forall|t: int| 0 <= t < fixes@.len() ==> #[trigger] fix_justified(conflicts@, fixes@[t]),
        forall|t: int, u: int|
            0 <= t < conflicts@.len() && 0 <= u < (#[trigger] conflicts@[t]).conflicts@.len() && (
            #[trigger] conflicts@[t].conflicts@[u]).resolved_version@
                != conflicts@[t].recommended_version@ ==> has_fix_for(fixes@, conflicts@[t], u),
{
    let n = conflicts.len();
    let mut fixes: Vec<FixResult> = Vec::new();
    let mut t: usize = 0;
    while t < n
        invariant
            n == conflicts@.len(),
            0 <= t <= n,
            forall|x: int| 0 <= x < fixes@.len() ==> #[trigger] fix_justified(conflicts@, fixes@[x]),
            forall|tt: int, u: int|
                0 <= tt < t && 0 <= u < (#[trigger] conflicts@[tt]).conflicts@.len() && (
                #[trigger] conflicts@[tt].conflicts@[u]).resolved_version@
                    != conflicts@[tt].recommended_version@ ==> has_fix_for(
                    fixes@,
                    conflicts@[tt],
                    u,
                ),
        decreases n - t,
    {
        let conflict = &conflicts[t];
        let un = conflict.conflicts.len();
        let mut u: usize = 0;
        while u < un
            invariant
                n == conflicts@.len(),
                0 <= t < n,
                conflict == conflicts@[t as int],
                un == conflict.conflicts@.len(),
                0 <= u <= un,
                forall|x: int|
                    0 <= x < fixes@.len() ==> #[trigger] fix_justified(conflicts@, fixes@[x]),
                forall|tt: int, uu: int|
                    0 <= tt < t && 0 <= uu < (#[trigger] conflicts@[tt]).conflicts@.len() && (
                    #[trigger] conflicts@[tt].conflicts@[uu]).resolved_version@
                        != conflicts@[tt].recommended_version@ ==> has_fix_for(
                        fixes@,
                        conflicts@[tt],
                        uu,
                    ),
                forall|uu: int|
                    0 <= uu < u && (#[trigger] conflict.conflicts@[uu]).resolved_version@
                        != conflict.recommended_version@ ==> has_fix_for(
                        fixes@,
                        conflicts@[t as int],
                        uu,
                    ),
            decreases un - u,
        {
            let ghost pre = fixes@;
            let current = &conflict.conflicts[u];
            if !crate::strmap::str_eq(
                current.resolved_version.as_str(),
                conflict.recommended_version.as_str(),
            ) {
                let new_version = preserve_version_format(
                    current.version_spec.as_str(),
                    conflict.recommended_version.as_str(),
                );
                let fix = FixResult {
                    package: current.package.clone(),
                    dependency: conflict.name.clone(),
                    old_version: current.version_spec.clone(),
                    new_version,
                    dep_type: current.dep_type.clone(),
                };
                fixes.push(fix);
                proof {
                    assert(is_fix_for(conflicts@[t as int], u as int, fixes@[fixes@.len() - 1]));
                    assert forall|x: int|
                        0 <= x < fixes@.len() implies #[trigger] fix_justified(
                        conflicts@,
                        fixes@[x],
                    ) by {
                        if x < pre.len() {
                            assert(fixes@[x] == pre[x]);
                        }
                    }
                    assert forall|tt: int, uu: int|
                        0 <= tt < t + 1 && 0 <= uu < (#[trigger] conflicts@[tt]).conflicts@.len()
                            && (#[trigger] conflicts@[tt].conflicts@[uu]).resolved_version@
                            != conflicts@[tt].recommended_version@ && !(tt == t as int && uu == u as int)
                            && (tt < t as int || uu < u as int) implies has_fix_for(
                        fixes@,
                        conflicts@[tt],
                        uu,
                    ) by {
                        assert(has_fix_for(pre, conflicts@[tt], uu));
                        let x = choose|x: int|
                            0 <= x < pre.len() && is_fix_for(
                                conflicts@[tt],
                                uu,
                                #[trigger] pre[x],
                            );
                        assert(fixes@[x] == pre[x]);
                    }
                }
            }
            u = u + 1;
        }
        t = t + 1;
    }
    fixes
}

} // verus!
