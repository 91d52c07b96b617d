//! Conversions between strings and character vectors.
use vstd::prelude::*;
use vstd::string::*;

verus! {

/// The characters of `s`, in order.
pub fn chars_of(s: &str) -> (r: Vec<char>)
    ensures
        r@ == s@,
{
    let n = s.unicode_len();
    let mut r: Vec<char> = Vec::new();
    let mut i: usize = 0;
    while i < n
        invariant
            n == s@.len(),
            i <= n,
            r@ == s@.subrange(0, i as int),
        decreases n - i,
    {
        r.push(s.get_char(i));
        i += 1;
        assert(r@ =~= s@.subrange(0, i as int));
    }
    assert(r@ =~= s@);
    r
}

/// Relies on `String: FromIterator<char>`: the string holds the collected
/// characters in order.
#[verifier::external_body]
pub(crate) fn string_from_chars(v: &Vec<char>) -> (r: String)
    ensures
        r@ == v@,
{
    v.iter().collect()
}

/// `has_prefix` unfolded into one comparison per character.
pub proof fn lemma_has_prefix(s: Seq<char>, i: int, t: Seq<char>)
    ensures
        crate::grammar::has_prefix(s, i, t) <==> (0 <= i && i + t.len() <= s.len() && forall|k: int|
            0 <= k < t.len() ==> s[i + k] == t[k]),
{
    if 0 <= i && i + t.len() <= s.len() && forall|k: int| 0 <= k < t.len() ==> s[i + k] == t[k] {
        assert(s.subrange(i, i + t.len()) =~= t);
    }
    if crate::grammar::has_prefix(s, i, t) {
        assert forall|k: int| 0 <= k < t.len() implies s[i + k] == t[k] by {
            assert(s.subrange(i, i + t.len())[k] == s[i + k]);
        }
    }
}

/// Pushing then appending is appending the pushed element first.
pub proof fn lemma_push_concat<T>(a: Seq<T>, c: T)
    ensures
        forall|t: Seq<T>| #[trigger] (a.push(c) + t) == a + (seq![c] + t),
{
    assert forall|t: Seq<T>| #[trigger] (a.push(c) + t) == a + (seq![c] + t) by {
        assert(a.push(c) + t =~= a + (seq![c] + t));
    }
}

} // verus!
