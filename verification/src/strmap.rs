//! String-keyed association lists. Manifests and configuration carry small
//! maps from names to strings; they are kept as vectors of pairs whose
//! contracts speak of a first-match lookup.
use vstd::prelude::*;

verus! {

/// First-match lookup in an association list.
pub open spec fn map_lookup(m: Seq<(String, String)>, k: Seq<char>) -> Option<Seq<char>>
    decreases m.len(),
{
    if m.len() == 0 {
        None
    } else if m[0].0@ == k {
        Some(m[0].1@)
    } else {
        map_lookup(m.drop_first(), k)
    }
}

/// Whether some entry carries the key.
pub open spec fn map_has_key(m: Seq<(String, String)>, k: Seq<char>) -> bool {
    exists|i: int| 0 <= i < m.len() && m[i].0@ == k
}

/// First-match lookup in a view-level association list.
pub open spec fn view_map_lookup(m: Seq<(Seq<char>, Seq<char>)>, k: Seq<char>) -> Option<
    Seq<char>,
>
    decreases m.len(),
{
    if m.len() == 0 {
        None
    } else if m[0].0 == k {
        Some(m[0].1)
    } else {
        view_map_lookup(m.drop_first(), k)
    }
}

/// No two entries share a key.
pub open spec fn keys_unique(m: Seq<(String, String)>) -> bool {
    forall|i: int, j: int| 0 <= i < j < m.len() ==> m[i].0@ != m[j].0@
}

pub proof fn lemma_lookup_some_iff_has_key(m: Seq<(String, String)>, k: Seq<char>)
    ensures
        map_lookup(m, k) is Some <==> map_has_key(m, k),
    decreases m.len(),
{
    if m.len() > 0 && m[0].0@ != k {
        lemma_lookup_some_iff_has_key(m.drop_first(), k);
        assert(map_has_key(m.drop_first(), k) ==> map_has_key(m, k)) by {
            if map_has_key(m.drop_first(), k) {
                let i = choose|i: int|
                    0 <= i < m.drop_first().len() && m.drop_first()[i].0@ == k;
                assert(m[i + 1].0@ == k);
            }
        }
        assert(map_has_key(m, k) ==> map_has_key(m.drop_first(), k)) by {
            if map_has_key(m, k) {
                let i = choose|i: int| 0 <= i < m.len() && m[i].0@ == k;
                assert(m.drop_first()[i - 1].0@ == k);
            }
        }
    }
}

/// The lookup is settled by the first matching index.
pub proof fn lemma_lookup_at_index(m: Seq<(String, String)>, k: Seq<char>, i: int)
    requires
        0 <= i < m.len(),
        m[i].0@ == k,
        forall|j: int| 0 <= j < i ==> m[j].0@ != k,
    ensures
        map_lookup(m, k) == Some(m[i].1@),
    decreases i,
{
    if i > 0 {
        lemma_lookup_at_index(m.drop_first(), k, i - 1);
    }
}

/// Clones a vector of strings, element for element.
pub fn clone_string_vec(v: &Vec<String>) -> (r: Vec<String>)
    ensures
        r@ == v@,
{
    let n = v.len();
    let mut r: Vec<String> = Vec::new();
    let mut i: usize = 0;
    while i < n
        invariant
            n == v@.len(),
            0 <= i <= n,
            r@ == v@.take(i as int),
        decreases n - i,
    {
        r.push(v[i].clone());
        proof {
            assert(r@ =~= v@.take(i as int + 1));
        }
        i = i + 1;
    }
    proof {
        assert(v@.take(n as int) == v@);
    }
    r
}

/// Clones an association list, entry for entry.
pub fn clone_string_map(m: &Vec<(String, String)>) -> (r: Vec<(String, String)>)
    ensures
        r@ == m@,
{
    let n = m.len();
    let mut r: Vec<(String, String)> = Vec::new();
    let mut i: usize = 0;
    while i < n
        invariant
            n == m@.len(),
            0 <= i <= n,
            r@ == m@.take(i as int),
        decreases n - i,
    {
        r.push((m[i].0.clone(), m[i].1.clone()));
        proof {
            assert(r@ =~= m@.take(i as int + 1));
        }
        i = i + 1;
    }
    proof {
        assert(m@.take(n as int) == m@);
    }
    r
}

/// Equality of two strings, stated over their character views.
pub fn str_eq(a: &str, b: &str) -> (r: bool)
    ensures
        r == (a@ == b@),
{
    let a_owned: String = a.to_owned();
    let b_owned: String = b.to_owned();
    a_owned == b_owned
}

/// Looks a key up in an association list, returning a clone of the first
/// matching value.
pub fn map_get(m: &Vec<(String, String)>, k: &str) -> (r: Option<String>)
    ensures
        match r {
            Some(v) => map_lookup(m@, k@) == Some(v@),
            None => map_lookup(m@, k@) is None,
        },
{
    let n = m.len();
    let mut i: usize = 0;
    while i < n
        invariant
            n == m@.len(),
            0 <= i <= n,
            forall|j: int| 0 <= j < i ==> m@[j].0@ != k@,
        decreases n - i,
    {
        if str_eq(m[i].0.as_str(), k) {
            proof {
                lemma_lookup_at_index(m@, k@, i as int);
            }
            return Some(m[i].1.clone());
        }
        i = i + 1;
    }
    proof {
        lemma_lookup_some_iff_has_key(m@, k@);
    }
    None
}

/// Whether the association list carries the key.
pub fn map_contains_key(m: &Vec<(String, String)>, k: &str) -> (r: bool)
    ensures
        r == map_has_key(m@, k@),
{
    let n = m.len();
    let mut i: usize = 0;
    while i < n
        invariant
            n == m@.len(),
            0 <= i <= n,
            forall|j: int| 0 <= j < i ==> m@[j].0@ != k@,
        decreases n - i,
    {
        if str_eq(m[i].0.as_str(), k) {
            return true;
        }
        i = i + 1;
    }
    false
}

/// Whether a vector of strings contains the given string.
pub open spec fn seq_has_string(s: Seq<String>, x: Seq<char>) -> bool {
    exists|i: int| 0 <= i < s.len() && s[i]@ == x
}

pub fn vec_contains_str(v: &Vec<String>, x: &str) -> (r: bool)
    ensures
        r == seq_has_string(v@, x@),
{
    let n = v.len();
    let mut i: usize = 0;
    while i < n
        invariant
            n == v@.len(),
            0 <= i <= n,
            forall|j: int| 0 <= j < i ==> v@[j]@ != x@,
        decreases n - i,
    {
        if str_eq(v[i].as_str(), x) {
            return true;
        }
        i = i + 1;
    }
    false
}

} // verus!
