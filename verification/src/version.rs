//! Version-spec handling: stripping range operators from a version spec,
//! literal version satisfaction, and the locally-resolving-spec test.
use vstd::prelude::*;
use vstd::string::StrSliceExecFns;
use vstd::string::StringExecFns;

verus! {

/// A character that may open a one-character range operator.
pub open spec fn is_single_prefix_char(c: char) -> bool {
    c == '^' || c == '~' || c == '>' || c == '<' || c == '='
}

/// True when the spec opens with a two-character operator (">=" or "<=").
pub open spec fn has_double_prefix(s: Seq<char>) -> bool {
    s.len() >= 2 && (s[0] == '>' || s[0] == '<') && s[1] == '='
}

/// True when the spec opens with a one-character operator and not a
/// two-character one.
pub open spec fn has_single_prefix(s: Seq<char>) -> bool {
    !has_double_prefix(s) && s.len() >= 1 && is_single_prefix_char(s[0])
}

/// A bare version: no range operator in front.
pub open spec fn is_bare_version(s: Seq<char>) -> bool {
    !has_double_prefix(s) && !has_single_prefix(s)
}

/// The version spec with exactly one longest-match range operator removed.
pub open spec fn strip_range_prefix(s: Seq<char>) -> Seq<char> {
    if has_double_prefix(s) {
        s.subrange(2, s.len() as int)
    } else if has_single_prefix(s) {
        s.subrange(1, s.len() as int)
    } else {
        s
    }
}

/// Extracts the bare version from a version spec by removing exactly one
/// longest match from the recognized range operators.
pub fn extract_version_from_spec(version_spec: &str) -> (r: String)
    ensures
        r@ == strip_range_prefix(version_spec@),
{
    let n = version_spec.unicode_len();
    if n >= 2 {
        let c0 = version_spec.get_char(0);
        let c1 = version_spec.get_char(1);
        if (c0 == '>' || c0 == '<') && c1 == '=' {
            return version_spec.substring_char(2, n).to_owned();
        }
    }
    if n >= 1 {
        let c0 = version_spec.get_char(0);
        if c0 == '^' || c0 == '~' || c0 == '>' || c0 == '<' || c0 == '=' {
            return version_spec.substring_char(1, n).to_owned();
        }
    }
    version_spec.to_owned()
}

/// Stripping leaves a bare version unchanged, so it is idempotent on
/// already-bare versions.
pub proof fn lemma_strip_bare_is_identity(s: Seq<char>)
    requires
        is_bare_version(s),
    ensures
        strip_range_prefix(s) == s,
{
}

/// The only satisfaction test the engine performs is literal equality of
/// version strings.
pub fn is_version_satisfied(current: &str, latest: &str) -> (r: bool)
    ensures
        r == (current@ == latest@),
{
    let c: String = current.to_owned();
    let l: String = latest.to_owned();
    c == l
}

/// The first sequence begins with the second.
pub open spec fn str_has_prefix(s: Seq<char>, p: Seq<char>) -> bool {
    p.len() <= s.len() && s.subrange(0, p.len() as int) == p
}

/// The first sequence holds the second somewhere.
pub open spec fn str_has_substring(s: Seq<char>, p: Seq<char>) -> bool {
    exists|i: int| 0 <= i <= s.len() - p.len() && #[trigger] s.subrange(i, i + p.len() as int) == p
}

/// Whether the string begins with the given prefix.
pub fn str_starts_with(s: &str, p: &str) -> (r: bool)
    ensures
        r == str_has_prefix(s@, p@),
{
    let sl = s.unicode_len();
    let pl = p.unicode_len();
    if pl > sl {
        return false;
    }
    let head = s.substring_char(0, pl);
    crate::strmap::str_eq(head, p)
}

/// Whether the string holds the given text somewhere.
pub fn str_contains(s: &str, p: &str) -> (r: bool)
    ensures
        r == str_has_substring(s@, p@),
{
    let sl = s.unicode_len();
    let pl = p.unicode_len();
    if pl > sl {
        return false;
    }
    let bound = sl - pl;
    let mut i: usize = 0;
    while i < bound
        invariant
            sl == s@.len(),
            pl == p@.len(),
            pl <= sl,
            bound == sl - pl,
            0 <= i <= bound,
            forall|j: int| 0 <= j < i ==> #[trigger] s@.subrange(j, j + p@.len() as int) != p@,
        decreases bound - i,
    {
        let part = s.substring_char(i, i + pl);
        if crate::strmap::str_eq(part, p) {
            return true;
        }
        i = i + 1;
    }
    let last = s.substring_char(bound, sl);
    let res = crate::strmap::str_eq(last, p);
    proof {
        assert(s@.subrange(bound as int, bound as int + p@.len() as int) == last@) by {
            assert(bound as int + p@.len() as int == sl as int);
        }
        if !res {
            assert forall|j: int|
                0 <= j <= s@.len() - p@.len() implies #[trigger] s@.subrange(
                j,
                j + p@.len() as int,
            ) != p@ by {}
        }
    }
    res
}

/// A locally-resolving version spec, which the outdated and conflict checks
/// leave alone: it points at the workspace, the file system, or a git
/// source rather than a registry version.
pub open spec fn is_skipped_spec(s: Seq<char>) -> bool {
    str_has_prefix(s, "workspace:"@) || str_has_prefix(s, "file:"@) || str_has_prefix(s, "link:"@)
        || str_has_substring(s, "git+"@) || str_has_substring(s, "github:"@)
}

/// Whether the outdated and conflict checks skip this version spec.
pub fn should_skip_dependency(version_spec: &str) -> (r: bool)
    ensures
        r == is_skipped_spec(version_spec@),
{
    str_starts_with(version_spec, "workspace:") || str_starts_with(version_spec, "file:")
        || str_starts_with(version_spec, "link:") || str_contains(version_spec, "git+")
        || str_contains(version_spec, "github:")
}

/// The new spec a fix writes: the recommended bare version behind the range
/// operator the original spec carried.
pub open spec fn formatted_version(original: Seq<char>, new_version: Seq<char>) -> Seq<char> {
    if has_double_prefix(original) {
        original.subrange(0, 2) + new_version
    } else if has_single_prefix(original) {
        original.subrange(0, 1) + new_version
    } else {
        new_version
    }
}

/// Replaces the bare version inside a version spec while keeping the range
/// operator the spec opened with.
pub fn preserve_version_format(original_spec: &str, new_version: &str) -> (r: String)
    ensures
        r@ == formatted_version(original_spec@, new_version@),
{
    let n = original_spec.unicode_len();
    if n >= 2 {
        let c0 = original_spec.get_char(0);
        let c1 = original_spec.get_char(1);
        if (c0 == '>' || c0 == '<') && c1 == '=' {
            let mut r: String = original_spec.substring_char(0, 2).to_owned();
            r.append(new_version);
            return r;
        }
    }
    if n >= 1 {
        let c0 = original_spec.get_char(0);
        if c0 == '^' || c0 == '~' || c0 == '>' || c0 == '<' || c0 == '=' {
            let mut r: String = original_spec.substring_char(0, 1).to_owned();
            r.append(new_version);
            return r;
        }
    }
    new_version.to_owned()
}

/// Lexicographic order on character sequences by code point, matching the
/// ordering of the standard library on strings.
pub open spec fn lex_le(a: Seq<char>, b: Seq<char>) -> bool
    decreases a.len(),
{
    if a.len() == 0 {
        true
    } else if b.len() == 0 {
        false
    } else if (a[0] as int) < (b[0] as int) {
        true
    } else if (a[0] as int) > (b[0] as int) {
        false
    } else {
        lex_le(a.drop_first(), b.drop_first())
    }
}

/// The lexicographic order is total.
pub proof fn lemma_lex_total(a: Seq<char>, b: Seq<char>)
    ensures
        lex_le(a, b) || lex_le(b, a),
    decreases a.len(),
{
    if a.len() > 0 && b.len() > 0 && (a[0] as int) == (b[0] as int) {
        lemma_lex_total(a.drop_first(), b.drop_first());
    }
}

/// Whether `a` comes at or before `b` in lexicographic order.
pub fn str_lex_le(a: &str, b: &str) -> (r: bool)
    ensures
        r == lex_le(a@, b@),
{
    let la = a.unicode_len();
    let lb = b.unicode_len();
    let mut i: usize = 0;
    proof {
        assert(a@.skip(0) == a@);
        assert(b@.skip(0) == b@);
    }
    while i < la && i < lb
        invariant
            la == a@.len(),
            lb == b@.len(),
            0 <= i <= la,
            0 <= i <= lb,
            lex_le(a@, b@) == lex_le(a@.skip(i as int), b@.skip(i as int)),
        decreases la - i,
    {
        let ca = a.get_char(i);
        let cb = b.get_char(i);
        proof {
            assert(a@.skip(i as int)[0] == a@[i as int]);
            assert(b@.skip(i as int)[0] == b@[i as int]);
            assert(a@.skip(i as int).drop_first() =~= a@.skip(i as int + 1));
            assert(b@.skip(i as int).drop_first() =~= b@.skip(i as int + 1));
        }
        if (ca as u32) < (cb as u32) {
            return true;
        }
        if (ca as u32) > (cb as u32) {
            return false;
        }
        i = i + 1;
    }
    proof {
        if i >= la {
            assert(a@.skip(i as int).len() == 0);
        } else {
            assert(b@.skip(i as int).len() == 0);
            assert(a@.skip(i as int).len() > 0);
        }
    }
    i >= la
}

} // verus!