//! Executable recursive-descent parser; each function computes exactly the
//! corresponding rule of `grammar`.
use vstd::prelude::*;
use vstd::string::*;
use crate::ast::{
    Statement, Condition, ConditionListItem, CompareSign, Relation, PathEntry, Query, ParseError,
    ValueModel, ConditionModel, ItemModel, EntryModel, item_view, items_view, entries_view,
    strings_view,
};
use crate::grammar;
use crate::lexer;
use crate::number;
use crate::text::chars_of;

verus! {

/// The model of a parsed value and its end.
pub open spec fn value_result(r: Option<(Statement, usize)>) -> Option<(ValueModel, int)> {
    match r {
        Some((v, j)) => Some((v@, j as int)),
        None => None,
    }
}

/// The model of a parsed condition and its end.
pub open spec fn condition_result(r: Option<(Condition, usize)>) -> Option<(ConditionModel, int)> {
    match r {
        Some((v, j)) => Some((v@, j as int)),
        None => None,
    }
}

/// The model of a parsed item and its end.
pub open spec fn item_result(r: Option<(ConditionListItem, usize)>) -> Option<(ItemModel, int)> {
    match r {
        Some((v, j)) => Some((item_view(v), j as int)),
        None => None,
    }
}

/// The model of a parsed condition list and its end.
pub open spec fn list_result(r: Option<(Vec<ConditionListItem>, usize)>) -> Option<
    (Seq<ItemModel>, int),
> {
    match r {
        Some((v, j)) => Some((items_view(v@), j as int)),
        None => None,
    }
}

/// A parse that succeeds ends between its start and the end of the text.
pub open spec fn end_within<T>(r: Option<(T, usize)>, i: usize, n: nat) -> bool {
    match r {
        Some((_, j)) => i <= j <= n,
        None => true,
    }
}

/// Does `t` occur in `s` at `i`?
fn prefix_at(s: &Vec<char>, i: usize, t: &Vec<char>) -> (r: bool)
    requires
        i <= s@.len(),
    ensures
        r == grammar::has_prefix(s@, i as int, t@),
        s@.len() <= usize::MAX,
{
    proof {
        crate::text::lemma_has_prefix(s@, i as int, t@);
    }
    if t.len() > s.len() - i {
        return false;
    }
    let mut k: usize = 0;
    while k < t.len()
        invariant
            k <= t@.len(),
            s@.len() <= usize::MAX,
            i + t@.len() <= s@.len(),
            forall|x: int| 0 <= x < k ==> s@[i + x] == t@[x],
        decreases t@.len() - k,
    {
        if s[i + k] != t[k] {
            return false;
        }
        k += 1;
    }
    true
}

/// A value without surrounding whitespace.
fn value_core(s: &Vec<char>, i: usize) -> (r: Option<(Statement, usize)>)
    requires
        i <= s@.len(),
    ensures
        value_result(r) == grammar::value_core(s@, i as int),
        end_within(r, i, s@.len()),
{
    if prefix_at(s, i, &vec!['t', 'r', 'u', 'e']) {
        return Some((Statement::Boolean(true), i + 4));
    }
    if prefix_at(s, i, &vec!['f', 'a', 'l', 's', 'e']) {
        return Some((Statement::Boolean(false), i + 5));
    }
    if prefix_at(s, i, &vec!['n', 'u', 'l', 'l']) {
        return Some((Statement::Null, i + 4));
    }
    match number::number(s, i) {
        Some(r) => {
            return Some(r);
        },
        None => {},
    }
    match lexer::quoted_string(s, i) {
        Some((t, j)) => {
            return Some((Statement::String(t), j));
        },
        None => {},
    }
    match lexer::unescaped_path(s, i) {
        Some((p, j)) => Some((Statement::Path(p), j)),
        None => None,
    }
}

/// A value with surrounding whitespace.
pub fn value_at(s: &Vec<char>, i: usize) -> (r: Option<(Statement, usize)>)
    requires
        i <= s@.len(),
    ensures
        value_result(r) == grammar::value(s@, i as int),
        end_within(r, i, s@.len()),
{
    let a = lexer::skip_ws(s, i);
    match value_core(s, a) {
        Some((v, j)) => Some((v, lexer::skip_ws(s, j))),
        None => None,
    }
}

/// A comparison sign at `i`, two-character signs first.
pub fn compare_sign_at(s: &Vec<char>, i: usize) -> (r: Option<(CompareSign, usize)>)
    requires
        i <= s@.len(),
    ensures
        r matches Some((c, j)) ==> grammar::compare_sign(s@, i as int) == Some((c, j as int))
            && i <= j <= s@.len(),
        r is None ==> grammar::compare_sign(s@, i as int) is None,
{
    let t0: Vec<char> = vec!['=', '='];
    assert(t0@ == seq!['=', '=']);
    let t1: Vec<char> = vec!['!', '='];
    assert(t1@ == seq!['!', '=']);
    let t2: Vec<char> = vec!['>', '='];
    assert(t2@ == seq!['>', '=']);
    let t3: Vec<char> = vec!['<', '='];
    assert(t3@ == seq!['<', '=']);
    let t4: Vec<char> = vec!['>'];
    assert(t4@ == seq!['>']);
    let t5: Vec<char> = vec!['<'];
    assert(t5@ == seq!['<']);
    if prefix_at(s, i, &t0) {
        Some((CompareSign::Eq, i + 2))
    } else if prefix_at(s, i, &t1) {
        Some((CompareSign::Ne, i + 2))
    } else if prefix_at(s, i, &t2) {
        Some((CompareSign::Ge, i + 2))
    } else if prefix_at(s, i, &t3) {
        Some((CompareSign::Le, i + 2))
    } else if prefix_at(s, i, &t4) {
        Some((CompareSign::Gt, i + 1))
    } else if prefix_at(s, i, &t5) {
        Some((CompareSign::Lt, i + 1))
    } else {
        None
    }
}

/// A condition `value sign value` with surrounding whitespace.
pub fn condition_at(s: &Vec<char>, i: usize) -> (r: Option<(Condition, usize)>)
    requires
        i <= s@.len(),
    ensures
        condition_result(r) == grammar::condition(s@, i as int),
        end_within(r, i, s@.len()),
{
    let a = lexer::skip_ws(s, i);
    match value_at(s, a) {
        Some((left, j)) => match compare_sign_at(s, j) {
            Some((sign, k)) => match value_at(s, k) {
                Some((right, m)) => Some((Condition { left, sign, right }, lexer::skip_ws(s, m))),
                None => None,
            },
            None => None,
        },
        None => None,
    }
}

/// A relation `||`, `&&` or `^` with surrounding whitespace.
pub fn relation_at(s: &Vec<char>, i: usize) -> (r: Option<(Relation, usize)>)
    requires
        i <= s@.len(),
    ensures
        r matches Some((x, j)) ==> grammar::relation(s@, i as int) == Some((x, j as int)) && i
            <= j <= s@.len(),
        r is None ==> grammar::relation(s@, i as int) is None,
{
    let t0: Vec<char> = vec!['|', '|'];
    assert(t0@ == seq!['|', '|']);
    let t1: Vec<char> = vec!['&', '&'];
    assert(t1@ == seq!['&', '&']);
    let t2: Vec<char> = vec!['^'];
    assert(t2@ == seq!['^']);
    let a = lexer::skip_ws(s, i);
    if prefix_at(s, a, &t0) {
        Some((Relation::Or, lexer::skip_ws(s, a + 2)))
    } else if prefix_at(s, a, &t1) {
        Some((Relation::And, lexer::skip_ws(s, a + 2)))
    } else if prefix_at(s, a, &t2) {
        Some((Relation::Xor, lexer::skip_ws(s, a + 1)))
    } else {
        None
    }
}

/// The `items_view` of a vector with an item put in front.
proof fn lemma_items_view_prepend(v: Seq<ConditionListItem>, w: Seq<ConditionListItem>, x: ConditionListItem)
    requires
        w == seq![x] + v,
    ensures
        items_view(w) == seq![item_view(x)] + items_view(v),
{
    assert(w.subrange(1, w.len() as int) =~= v);
}

/// A group, a condition or a bare value at `i`.
pub fn condition_list_item_at(s: &Vec<char>, i: usize) -> (r: Option<(ConditionListItem, usize)>)
    requires
        i <= s@.len(),
    ensures
        item_result(r) == grammar::condition_list_item(s@, i as int),
        end_within(r, i, s@.len()),
    decreases s@.len() - i, 0int,
{
    let a = lexer::skip_ws(s, i);
    if a < s.len() && s[a] == '(' {
        match condition_list_at(s, a + 1) {
            Some((g, b)) => {
                if b < s.len() && s[b] == ')' {
                    return Some((ConditionListItem::Group(g), lexer::skip_ws(s, b + 1)));
                }
            },
            None => {},
        }
    }
    match condition_at(s, a) {
        Some((c, j)) => {
            return Some((ConditionListItem::Condition(c), lexer::skip_ws(s, j)));
        },
        None => {},
    }
    match value_at(s, a) {
        Some((v, j)) => Some((ConditionListItem::Statement(v), lexer::skip_ws(s, j))),
        None => None,
    }
}

/// Items separated by relations, as one flat alternating list.
pub fn condition_list_at(s: &Vec<char>, i: usize) -> (r: Option<(Vec<ConditionListItem>, usize)>)
    requires
        i <= s@.len(),
    ensures
        list_result(r) == grammar::condition_list(s@, i as int),
        end_within(r, i, s@.len()),
    decreases s@.len() - i, 1int,
{
    match condition_list_item_at(s, i) {
        Some((x, j)) => match relation_at(s, j) {
            Some((rel, k)) => {
                if i < k && k <= s.len() {
                    match condition_list_at(s, k) {
                        Some((rest, m)) => {
                            let ghost v0 = rest@;
                            let mut rest = rest;
                            let ghost xv = x;
                            rest.insert(0, ConditionListItem::Relation(rel));
                            let ghost v1 = rest@;
                            assert(v1 =~= seq![ConditionListItem::Relation(rel)] + v0);
                            rest.insert(0, x);
                            assert(rest@ =~= seq![xv] + v1);
                            proof {
                                lemma_items_view_prepend(v0, v1, ConditionListItem::Relation(rel));
                                lemma_items_view_prepend(v1, rest@, xv);
                                assert(seq![item_view(xv)] + (seq![ItemModel::Relation(rel)]
                                    + items_view(v0)) =~= seq![item_view(xv), ItemModel::Relation(rel)]
                                    + items_view(v0));
                            }
                            Some((rest, m))
                        },
                        None => None,
                    }
                } else {
                    None
                }
            },
            None => {
                let ghost xv = x;
                let mut v: Vec<ConditionListItem> = Vec::new();
                v.push(x);
                assert(v@ =~= seq![xv] + Seq::<ConditionListItem>::empty());
                proof {
                    lemma_items_view_prepend(Seq::empty(), v@, xv);
                    assert(seq![item_view(xv)] + items_view(Seq::<ConditionListItem>::empty()) =~= seq![item_view(xv)]);
                }
                Some((v, j))
            },
        },
        None => None,
    }
}

/// The model of a parsed entry and its end.
pub open spec fn entry_result(r: Option<(PathEntry, usize)>) -> Option<(EntryModel, int)> {
    match r {
        Some((e, j)) => Some((e@, j as int)),
        None => None,
    }
}

/// The models of parsed entries and their end.
pub open spec fn entries_result(r: Option<(Vec<PathEntry>, usize)>) -> Option<
    (Seq<EntryModel>, int),
> {
    match r {
        Some((v, j)) => Some((entries_view(v@), j as int)),
        None => None,
    }
}

/// The optional parenthesised condition list of an entry.
fn entry_condition_at(s: &Vec<char>, i: usize) -> (r: (Option<Vec<ConditionListItem>>, usize))
    requires
        i <= s@.len(),
    ensures
        (match r.0 {
            Some(c) => Some(items_view(c@)),
            None => None,
        }, r.1 as int) == grammar::entry_condition(s@, i as int),
        i <= r.1 <= s@.len(),
{
    let a = lexer::skip_ws(s, i);
    if a < s.len() && s[a] == '(' {
        match condition_list_at(s, a + 1) {
            Some((g, b)) => {
                if b < s.len() && s[b] == ')' {
                    return (Some(g), lexer::skip_ws(s, b + 1));
                }
            },
            None => {},
        }
    }
    (None, i)
}

/// An entry: an optional key and an optional parenthesised condition list.
pub fn path_entry_at(s: &Vec<char>, i: usize) -> (r: Option<(PathEntry, usize)>)
    requires
        i <= s@.len(),
    ensures
        entry_result(r) == grammar::path_entry(s@, i as int),
        end_within(r, i, s@.len()),
{
    let (key, j) = match lexer::segment(s, i) {
        Some((t, j)) => (Some(t), j),
        None => (None, i),
    };
    let (condition, k) = entry_condition_at(s, j);
    if key.is_none() && condition.is_none() {
        None
    } else {
        Some((PathEntry { key, condition }, k))
    }
}

fn path_entries_at(s: &Vec<char>, i: usize) -> (r: Option<(Vec<PathEntry>, usize)>)
    requires
        i <= s@.len(),
    ensures
        entries_result(r) == grammar::path_entries(s@, i as int),
        end_within(r, i, s@.len()),
    decreases s@.len() - i,
{
    match path_entry_at(s, i) {
        Some((e, j)) => {
            let ghost ev = e;
            if i < j && j < s.len() && s[j] == '.' {
                match path_entries_at(s, j + 1) {
                    Some((rest, k)) => {
                        let ghost v0 = rest@;
                        let mut rest = rest;
                        rest.insert(0, e);
                        assert(entries_view(rest@) =~= seq![ev@] + entries_view(v0));
                        Some((rest, k))
                    },
                    None => None,
                }
            } else {
                let mut v: Vec<PathEntry> = Vec::new();
                v.push(e);
                assert(entries_view(v@) =~= seq![ev@]);
                Some((v, j))
            }
        },
        None => None,
    }
}

/// The characters of `text` from position `j` on.
fn rest_of(text: &str, j: usize) -> (r: &str)
    requires
        j <= text@.len(),
    ensures
        r@ == text@.subrange(j as int, text@.len() as int),
{
    let n = text.unicode_len();
    text.substring_char(j, n)
}

/// Parses a whitespace-trimmed dotted path at the start of `text`; gives the
/// unconsumed rest and the segments.
pub fn unescaped_path(text: &str) -> (r: Result<(&str, Vec<String>), ParseError>)
    ensures
        match grammar::unescaped_path(text@, 0) {
            Some((p, j)) => r matches Ok((rest, v)) && strings_view(v@) == p && rest@
                == text@.subrange(j, text@.len() as int),
            None => r is Err,
        },
{
    let s = chars_of(text);
    match lexer::unescaped_path(&s, 0) {
        Some((p, j)) => Ok((rest_of(text, j), p)),
        None => Err(ParseError),
    }
}

/// Parses a quoted string at the start of `text`; gives the unconsumed rest
/// and the body, escapes kept verbatim.
pub fn quoted_string(text: &str) -> (r: Result<(&str, String), ParseError>)
    ensures
        match grammar::quoted_string(text@, 0) {
            Some((b, j)) => r matches Ok((rest, v)) && v@ == b && rest@ == text@.subrange(
                j,
                text@.len() as int,
            ),
            None => r is Err,
        },
{
    let s = chars_of(text);
    match lexer::quoted_string(&s, 0) {
        Some((b, j)) => Ok((rest_of(text, j), b)),
        None => Err(ParseError),
    }
}

/// Parses a value at the start of `text`.
pub fn value(text: &str) -> (r: Result<(&str, Statement), ParseError>)
    ensures
        match grammar::value(text@, 0) {
            Some((m, j)) => r matches Ok((rest, v)) && v@ == m && rest@ == text@.subrange(
                j,
                text@.len() as int,
            ),
            None => r is Err,
        },
{
    let s = chars_of(text);
    match value_at(&s, 0) {
        Some((v, j)) => Ok((rest_of(text, j), v)),
        None => Err(ParseError),
    }
}

/// Parses a condition at the start of `text`.
pub fn condition(text: &str) -> (r: Result<(&str, Condition), ParseError>)
    ensures
        match grammar::condition(text@, 0) {
            Some((m, j)) => r matches Ok((rest, c)) && c@ == m && rest@ == text@.subrange(
                j,
                text@.len() as int,
            ),
            None => r is Err,
        },
{
    let s = chars_of(text);
    match condition_at(&s, 0) {
        Some((c, j)) => Ok((rest_of(text, j), c)),
        None => Err(ParseError),
    }
}

/// Parses a condition list at the start of `text`.
pub fn condition_list(text: &str) -> (r: Result<(&str, Vec<ConditionListItem>), ParseError>)
    ensures
        match grammar::condition_list(text@, 0) {
            Some((m, j)) => r matches Ok((rest, c)) && items_view(c@) == m && rest@
                == text@.subrange(j, text@.len() as int),
            None => r is Err,
        },
        r matches Ok((_, c)) ==> crate::laws::alternates(items_view(c@)),
{
    proof {
        crate::laws::lemma_condition_list_alternates(text@, 0);
    }
    let s = chars_of(text);
    match condition_list_at(&s, 0) {
        Some((c, j)) => Ok((rest_of(text, j), c)),
        None => Err(ParseError),
    }
}

/// Parses the entries of a query at the start of `text`, leaving what
/// follows them unconsumed.
pub fn query(text: &str) -> (r: Result<(&str, Query), ParseError>)
    ensures
        match grammar::query_prefix(text@) {
            Some((m, j)) => r matches Ok((rest, q)) && q@ == m && rest@ == text@.subrange(
                j,
                text@.len() as int,
            ),
            None => r is Err,
        },
{
    let s = chars_of(text);
    let a = lexer::skip_ws(&s, 0);
    match path_entries_at(&s, a) {
        Some((path, j)) => {
            let k = lexer::skip_ws(&s, j);
            Ok((rest_of(text, k), Query { path }))
        },
        None => Err(ParseError),
    }
}

/// Parses a whole query text. It succeeds exactly when the entries, with
/// surrounding whitespace, consume all of `text`.
pub fn parse_query(text: &str) -> (r: Result<Query, ParseError>)
    ensures
        match grammar::query_prefix(text@) {
            Some((m, j)) => if j == text@.len() {
                r matches Ok(q) && q@ == m
            } else {
                r is Err
            },
            None => r is Err,
        },
        match grammar::query(text@) {
            Some(m) => r matches Ok(q) && q@ == m,
            None => r is Err,
        },
{
    let s = chars_of(text);
    let a = lexer::skip_ws(&s, 0);
    match path_entries_at(&s, a) {
        Some((path, j)) => {
            let k = lexer::skip_ws(&s, j);
            if k == s.len() {
                Ok(Query { path })
            } else {
                Err(ParseError)
            }
        },
        None => Err(ParseError),
    }
}

} // verus!
