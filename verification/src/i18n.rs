//! Parameterized translation: a key lookup over a translation table, and a
//! placeholder substitution that fills "{}" marks one argument at a time.
use vstd::prelude::*;

use vstd::string::StrSliceExecFns;
use vstd::string::StringExecFns;

use crate::strmap::{map_get, map_lookup};

verus! {

/// Looks a key up in a translation table, returning its text, or a note
/// naming the unknown key.
pub fn get_translation(table: &Vec<(String, String)>, key: &str) -> (r: String)
    ensures
        match map_lookup(table@, key@) {
            Some(v) => r@ == v,
            None => r@ == "Unknown translation key: "@ + key@,
        },
{
    match map_get(table, key) {
        Some(v) => v,
        None => {
            let mut r: String = "Unknown translation key: ".to_owned();
            r.append(key);
            r
        },
    }
}

/// The template with its first "{}" placeholder replaced by the argument;
/// a template without a placeholder is kept.
pub open spec fn subst_first(t: Seq<char>, a: Seq<char>) -> Seq<char>
    decreases t.len(),
{
    if t.len() < 2 {
        t
    } else if t[0] == '{' && t[1] == '}' {
        a + t.skip(2)
    } else {
        seq![t[0]] + subst_first(t.skip(1), a)
    }
}

/// The template with the arguments substituted one by one, each into the
/// first placeholder of the text the previous step produced.
pub open spec fn subst_all(t: Seq<char>, args: Seq<String>) -> Seq<char>
    decreases args.len(),
{
    if args.len() == 0 {
        t
    } else {
        subst_all(subst_first(t, args[0]@), args.drop_first())
    }
}

/// A placeholder-free prefix passes through the substitution.
proof fn lemma_subst_at(t: Seq<char>, a: Seq<char>, i: int)
    requires
        0 <= i,
        i + 2 <= t.len(),
        forall|j: int| 0 <= j < i ==> !((#[trigger] t[j]) == '{' && t[j + 1] == '}'),
        t[i] == '{' && t[i + 1] == '}',
    ensures
        subst_first(t, a) == t.take(i) + a + t.skip(i + 2),
    decreases i,
{
    if i == 0 {
        assert(t.take(0) + a + t.skip(2) =~= a + t.skip(2));
    } else {
        assert(t.skip(1)[i - 1] == t[i] && t.skip(1)[i] == t[i + 1]);
        assert forall|j: int|
            0 <= j < i - 1 implies !((#[trigger] t.skip(1)[j]) == '{' && t.skip(1)[j + 1]
            == '}') by {
            assert(t.skip(1)[j] == t[j + 1] && t.skip(1)[j + 1] == t[j + 2]);
        }
        lemma_subst_at(t.skip(1), a, i - 1);
        assert(seq![t[0]] + (t.skip(1).take(i - 1) + a + t.skip(1).skip(i + 1)) =~= t.take(i) + a
            + t.skip(i + 2));
    }
}

/// A template without any placeholder is unchanged.
proof fn lemma_subst_none(t: Seq<char>, a: Seq<char>)
    requires
        forall|j: int| 0 <= j <= t.len() - 2 ==> !((#[trigger] t[j]) == '{' && t[j + 1] == '}'),
    ensures
        subst_first(t, a) == t,
    decreases t.len(),
{
    if t.len() >= 2 {
        assert forall|j: int|
            0 <= j <= t.skip(1).len() - 2 implies !((#[trigger] t.skip(1)[j]) == '{' && t.skip(
            1,
        )[j + 1] == '}') by {
            assert(t.skip(1)[j] == t[j + 1] && t.skip(1)[j + 1] == t[j + 2]);
        }
        lemma_subst_none(t.skip(1), a);
        assert(seq![t[0]] + t.skip(1) =~= t);
    }
}

/// Replaces the first "{}" of the template by the argument.
fn replace_first_placeholder(template: &str, arg: &str) -> (r: String)
    ensures
        r@ == subst_first(template@, arg@),
{
    let n = template.unicode_len();
    if n >= 2 {
        let mut i: usize = 0;
        while i < n - 1
            invariant
                n == template@.len(),
                n >= 2,
                0 <= i <= n - 1,
                forall|j: int|
                    0 <= j < i ==> !((#[trigger] template@[j]) == '{' && template@[j + 1] == '}'),
            decreases n - i,
        {
            if template.get_char(i) == '{' && template.get_char(i + 1) == '}' {
                let mut r: String = template.substring_char(0, i).to_owned();
                r.append(arg);
                let tail = template.substring_char(i + 2, n);
                r.append(tail);
                proof {
                    lemma_subst_at(template@, arg@, i as int);
                }
                return r;
            }
            i = i + 1;
        }
        proof {
            lemma_subst_none(template@, arg@);
        }
        return template.to_owned();
    }
    proof {
        assert(subst_first(template@, arg@) == template@);
    }
    template.to_owned()
}

/// Fills the "{}" placeholders of the template with the arguments, one at a
/// time and left to right.
pub fn format_with_args(template: String, args: Vec<String>) -> (r: String)
    ensures
        r@ == subst_all(template@, args@),
{
    let ghost args0 = args@;
    let mut result = template;
    proof {
        assert(args0.skip(0) == args0);
    }
    let n = args.len();
    let mut i: usize = 0;
    while i < n
        invariant
            n == args0.len(),
            args@ == args0,
            0 <= i <= n,
            subst_all(template@, args0) == subst_all(result@, args0.skip(i as int)),
        decreases n - i,
    {
        proof {
            assert(args0.skip(i as int)[0] == args0[i as int]);
            assert(args0.skip(i as int).drop_first() =~= args0.skip(i as int + 1));
        }
        result = replace_first_placeholder(result.as_str(), args[i].as_str());
        i = i + 1;
    }
    proof {
        assert(args0.skip(n as int).len() == 0);
    }
    result
}

} // verus!
