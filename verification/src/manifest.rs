//! Manifest decoding: one trusted call into serde_json turns manifest text
//! into the fields the engine consumes; everything downstream is verified
//! against the named result of that call.
use vstd::prelude::*;

use crate::package::PackageJson;
use crate::strmap::keys_unique;

verus! {

/// The manifest fields as mathematical values.
pub ghost struct ManifestView {
    pub name: Option<Seq<char>>,
    pub version: Option<Seq<char>>,
    pub dependencies: Seq<(Seq<char>, Seq<char>)>,
    pub dev_dependencies: Seq<(Seq<char>, Seq<char>)>,
    pub peer_dependencies: Seq<(Seq<char>, Seq<char>)>,
    pub scripts: Seq<(Seq<char>, Seq<char>)>,
}

/// The views of an association list's entries.
pub open spec fn str_pairs_view(s: Seq<(String, String)>) -> Seq<(Seq<char>, Seq<char>)> {
    s.map_values(|kv: (String, String)| (kv.0@, kv.1@))
}

/// The view of an optional string.
pub open spec fn opt_str_view(s: Option<String>) -> Option<Seq<char>> {
    match s {
        Some(x) => Some(x@),
        None => None,
    }
}

/// The manifest fields a parsed manifest carries.
pub open spec fn package_json_view(m: PackageJson) -> ManifestView {
    ManifestView {
        name: opt_str_view(m.name),
        version: opt_str_view(m.version),
        dependencies: str_pairs_view(m.dependencies@),
        dev_dependencies: str_pairs_view(m.dev_dependencies@),
        peer_dependencies: str_pairs_view(m.peer_dependencies@),
        scripts: str_pairs_view(m.scripts@),
    }
}

/// The lookup the views of an association list give is the lookup the list
/// itself gives.
pub proof fn lemma_str_pairs_lookup(m: Seq<(String, String)>, k: Seq<char>)
    ensures
        crate::strmap::view_map_lookup(str_pairs_view(m), k) == crate::strmap::map_lookup(m, k),
    decreases m.len(),
{
    if m.len() > 0 {
        assert(str_pairs_view(m)[0] == (m[0].0@, m[0].1@));
        assert(str_pairs_view(m).drop_first() =~= str_pairs_view(m.drop_first()));
        lemma_str_pairs_lookup(m.drop_first(), k);
    }
}

/// The merged dependency map a manifest owes, at the view level: the peer
/// entry wins over the development entry, which wins over the runtime one.
pub open spec fn merged_view_lookup(m: ManifestView, k: Seq<char>) -> Option<Seq<char>> {
    if crate::strmap::view_map_lookup(m.peer_dependencies, k) is Some {
        crate::strmap::view_map_lookup(m.peer_dependencies, k)
    } else if crate::strmap::view_map_lookup(m.dev_dependencies, k) is Some {
        crate::strmap::view_map_lookup(m.dev_dependencies, k)
    } else {
        crate::strmap::view_map_lookup(m.dependencies, k)
    }
}

/// What decoding a manifest text yields: a function of the text alone.
pub uninterp spec fn manifest_of(text: Seq<char>) -> Option<ManifestView>;

/// Relies on serde_json::from_str and serde_json::Value's accessors: the
/// decoded fields are a function of the text alone, and a JSON object never
/// repeats a key, so every returned map has distinct keys.
#[verifier::external_body]
pub fn parse_manifest(text: &str) -> (r: Option<PackageJson>)
    ensures
        match r {
            Some(m) => manifest_of(text@) == Some(package_json_view(m)) && keys_unique(
                m.dependencies@,
            ) && keys_unique(m.dev_dependencies@) && keys_unique(m.peer_dependencies@)
                && keys_unique(m.scripts@),
            None => manifest_of(text@) is None,
        },
{
    let v: serde_json::Value = match serde_json::from_str(text) {
        Ok(v) => v,
        Err(_) => return None,
    };
    let field = |k: &str| v.get(k).and_then(|x| x.as_str()).map(|s| s.to_string());
    let map = |k: &str| match v.get(k).and_then(|x| x.as_object()) {
        Some(o) => o.iter().map(|(a, b)| (a.clone(), b.as_str().unwrap_or("").to_string())).collect(),
        None => Vec::new(),
    };
    Some(PackageJson {
        name: field("name"), version: field("version"), dependencies: map("dependencies"),
        dev_dependencies: map("devDependencies"), peer_dependencies: map("peerDependencies"),
        scripts: map("scripts"),
    })
}


} // verus!
