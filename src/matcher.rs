//! The document matcher: walks a node guided by the entries of a query and
//! collects every match, depth first, in document order.
use vstd::prelude::*;
use crate::ast::{EntryModel, ItemModel, PathEntry, Query, entries_view};
use crate::document::{
    Node, PathKey, KeyModel, path_view, first_key_index, index_value, parse_index,
};
use crate::eval::{EvalError, list_value, evaluate_condition_list};
use crate::text::{chars_of, string_from_chars};

verus! {

// ---------------------------------------------------------------------------
// Wildcard keys
/// Characters that have a meaning in regular-expression syntax.
pub open spec fn is_regex_meta(c: char) -> bool {
    c == '\\' || c == '.' || c == '+' || c == '*' || c == '?' || c == '(' || c == ')' || c == '|'
        || c == '[' || c == ']' || c == '{' || c == '}' || c == '^' || c == '$' || c == '#' || c
        == '&' || c == '-' || c == '~'
}

/// One key character in a pattern: `*` matches any run of characters, every
/// other character matches itself.
pub open spec fn glob_piece(c: char) -> Seq<char> {
    if c == '*' {
        seq!['.', '*', '?']
    } else if is_regex_meta(c) {
        seq!['\\', c]
    } else {
        seq![c]
    }
}

/// The pattern pieces of a wildcard key, in order.
pub open spec fn glob_body(k: Seq<char>) -> Seq<char>
    decreases k.len(),
{
    if k.len() == 0 {
        Seq::empty()
    } else {
        glob_body(k.drop_last()) + glob_piece(k.last())
    }
}

/// The regular expression, anchored at both ends, that a wildcard key stands
/// for.
pub open spec fn glob_pattern(k: Seq<char>) -> Seq<char> {
    seq!['^'] + glob_body(k) + seq!['$']
}

/// Whether `pattern` compiles (`Some`) and, if so, whether it matches
/// somewhere in `haystack`.
pub uninterp spec fn regex_match(pattern: Seq<char>, haystack: Seq<char>) -> Option<bool>;

/// Relies on `regex::Regex::new`, which compiles `pattern` or reports it
/// invalid, and on `Regex::is_match`, which tells whether the compiled
/// pattern matches somewhere in `haystack`. Both depend on their arguments
/// alone.
#[verifier::external_body]
fn regex_is_match(pattern: &str, haystack: &str) -> (r: Option<bool>)
    ensures
        r == regex_match(pattern@, haystack@),
{
    match regex::Regex::new(pattern) {
        Ok(re) => Some(re.is_match(haystack)),
        Err(_) => None,
    }
}

/// Does the wildcard key `key` admit the map key `name`?
pub open spec fn key_admits(key: Seq<char>, name: Seq<char>) -> bool {
    regex_match(glob_pattern(key), name) == Some(true)
}

/// The anchored pattern of a wildcard key.
pub fn wildcard_pattern(key: &String) -> (r: String)
    ensures
        r@ == glob_pattern(key@),
{
    let k = chars_of(key.as_str());
    let mut out: Vec<char> = Vec::new();
    out.push('^');
    let mut i: usize = 0;
    assert(k@.subrange(0, 0) =~= Seq::<char>::empty());
    assert(out@ =~= seq!['^'] + glob_body(k@.subrange(0, 0)));
    while i < k.len()
        invariant
            i <= k@.len(),
            k@ == key@,
            out@ == seq!['^'] + glob_body(k@.subrange(0, i as int)),
        decreases k@.len() - i,
    {
        let c = k[i];
        let ghost before = out@;
        assert(k@.subrange(0, i + 1).drop_last() =~= k@.subrange(0, i as int));
        if c == '*' {
            out.push('.');
            out.push('*');
            out.push('?');
        } else {
            if c == '\\' || c == '.' || c == '+' || c == '*' || c == '?' || c == '(' || c == ')'
                || c == '|' || c == '[' || c == ']' || c == '{' || c == '}' || c == '^' || c
                == '$' || c == '#' || c == '&' || c == '-' || c == '~' {
                out.push('\\');
            }
            out.push(c);
        }
        assert(out@ =~= before + glob_piece(c));
        i += 1;
    }
    out.push('$');
    assert(k@.subrange(0, k@.len() as int) =~= k@);
    string_from_chars(&out)
}

/// Does `key` hold a `*`?
pub fn has_wildcard(key: &String) -> (r: bool)
    ensures
        r == key@.contains('*'),
{
    let k = chars_of(key.as_str());
    let mut i: usize = 0;
    while i < k.len()
        invariant
            i <= k@.len(),
            k@ == key@,
            forall|x: int| 0 <= x < i ==> k@[x] != '*',
        decreases k@.len() - i,
    {
        if k[i] == '*' {
            return true;
        }
        i += 1;
    }
    false
}

// ---------------------------------------------------------------------------
// Matching
/// A result of a query: a match, or a candidate whose predicate could not be
/// evaluated.
#[derive(Debug)]
pub enum Found<'a> {
    Match(Vec<PathKey>, &'a Node),
    Failure(Vec<PathKey>, EvalError),
}

/// Model of a `Found`: the path as keys, the node reached as it is.
pub enum FoundModel {
    Match(Seq<KeyModel>, Node),
    Failure(Seq<KeyModel>, EvalError),
}

impl<'a> View for Found<'a> {
    type V = FoundModel;

    open spec fn view(&self) -> FoundModel {
        match self {
            Found::Match(p, n) => FoundModel::Match(path_view(p@), **n),
            Found::Failure(p, e) => FoundModel::Failure(path_view(p@), *e),
        }
    }
}

/// The models of a list of results, in order.
pub open spec fn found_view<'a>(s: Seq<Found<'a>>) -> Seq<FoundModel> {
    s.map_values(|f: Found<'a>| f@)
}

/// The predicate of an entry on `node`: an absent one holds.
pub open spec fn condition_outcome(c: Option<Seq<ItemModel>>, node: Node) -> Result<
    bool,
    EvalError,
> {
    match c {
        Some(items) => list_value(items, node),
        None => Ok(true),
    }
}

/// `node` as a candidate for the first entry of `q`, reached by `path`: it
/// goes on with the rest of `q` if the entry's predicate holds of it.
pub open spec fn admitted(node: Node, q: Seq<EntryModel>, path: Seq<KeyModel>) -> Seq<FoundModel>
    decreases q.len(), 0nat, 0nat,
{
    if q.len() == 0 {
        Seq::empty()
    } else {
        match condition_outcome(q[0].condition, node) {
            Ok(true) => matches(node, q.drop_first(), path),
            Ok(false) => Seq::empty(),
            Err(e) => seq![FoundModel::Failure(path, e)],
        }
    }
}

/// The candidates among the first `n` entries of a map whose keys the
/// wildcard key `k` admits.
pub open spec fn mapping_matches(
    es: Seq<(String, Node)>,
    k: Seq<char>,
    q: Seq<EntryModel>,
    prefix: Seq<KeyModel>,
    n: nat,
) -> Seq<FoundModel>
    decreases q.len(), 0nat, n,
{
    if n == 0 || n > es.len() {
        Seq::empty()
    } else {
        let e = es[n - 1];
        mapping_matches(es, k, q, prefix, (n - 1) as nat) + if key_admits(k, e.0@) {
            admitted(e.1, q, prefix.push(KeyModel::Key(e.0@)))
        } else {
            Seq::empty()
        }
    }
}

/// The candidates among the first `n` elements of a sequence.
pub open spec fn sequence_matches(
    v: Seq<Node>,
    q: Seq<EntryModel>,
    prefix: Seq<KeyModel>,
    n: nat,
) -> Seq<FoundModel>
    decreases q.len(), 0nat, n,
{
    if n == 0 || n > v.len() {
        Seq::empty()
    } else {
        sequence_matches(v, q, prefix, (n - 1) as nat) + admitted(
            v[n - 1],
            q,
            prefix.push(KeyModel::Index((n - 1) as nat)),
        )
    }
}

/// Everything that the entries `q` find from `node`, reached by `prefix`.
pub open spec fn matches(node: Node, q: Seq<EntryModel>, prefix: Seq<KeyModel>) -> Seq<FoundModel>
    decreases q.len(), 1nat, 0nat,
{
    if q.len() == 0 {
        seq![FoundModel::Match(prefix, node)]
    } else {
        match q[0].key {
            None => admitted(node, q, prefix),
            Some(k) => if k.contains('*') {
                match node {
                    Node::Mapping(es) => mapping_matches(es@, k, q, prefix, es@.len()),
                    Node::Sequence(v) => sequence_matches(v@, q, prefix, v@.len()),
                    _ => Seq::empty(),
                }
            } else {
                match node {
                    Node::Mapping(es) => match first_key_index(es@, k) {
                        Some(x) => admitted(es@[x].1, q, prefix.push(KeyModel::Key(k))),
                        None => Seq::empty(),
                    },
                    Node::Sequence(v) => match index_value(k) {
                        Some(x) => if x < v@.len() {
                            admitted(v@[x as int], q, prefix.push(KeyModel::Index(x)))
                        } else {
                            Seq::empty()
                        },
                        None => Seq::empty(),
                    },
                    _ => Seq::empty(),
                }
            },
        }
    }
}

fn clone_path(p: &Vec<PathKey>) -> (r: Vec<PathKey>)
    ensures
        path_view(r@) == path_view(p@),
{
    let mut r: Vec<PathKey> = Vec::new();
    let mut i: usize = 0;
    while i < p.len()
        invariant
            i <= p@.len(),
            path_view(r@) == path_view(p@.subrange(0, i as int)),
        decreases p@.len() - i,
    {
        let pk = &p[i];
        assert(*pk == p@[i as int]);
        let k = match pk {
            PathKey::Key(s) => {
                let c = s.clone();
                assert(c@ == s@);
                assert(pk@ == KeyModel::Key(s@));
                PathKey::Key(c)
            },
            PathKey::Index(x) => PathKey::Index(*x),
        };
        assert(k@ == p@[i as int]@);
        let ghost before = r@;
        let ghost kv = k@;
        r.push(k);
        assert(path_view(r@) =~= path_view(before).push(kv));
        assert(p@.subrange(0, i + 1) =~= p@.subrange(0, i as int).push(p@[i as int]));
        assert(path_view(p@.subrange(0, i as int).push(p@[i as int])) =~= path_view(
            p@.subrange(0, i as int),
        ).push(p@[i as int]@));
        i += 1;
    }
    assert(p@.subrange(0, p@.len() as int) =~= p@);
    r
}

/// `p` with `k` appended.
fn extended(p: &Vec<PathKey>, k: PathKey) -> (r: Vec<PathKey>)
    ensures
        path_view(r@) == path_view(p@).push(k@),
{
    let mut r = clone_path(p);
    let ghost before = r@;
    let ghost kv = k@;
    r.push(k);
    assert(path_view(r@) =~= path_view(before).push(kv));
    r
}

proof fn lemma_entries_tail(entries: Seq<PathEntry>, idx: int)
    requires
        0 <= idx < entries.len(),
    ensures
        entries_view(entries).subrange(idx, entries.len() as int).len() > 0,
        entries_view(entries).subrange(idx, entries.len() as int)[0] == entries[idx]@,
        entries_view(entries).subrange(idx, entries.len() as int).drop_first()
            == entries_view(entries).subrange(idx + 1, entries.len() as int),
{
    assert(entries_view(entries).subrange(idx, entries.len() as int).drop_first()
        =~= entries_view(entries).subrange(idx + 1, entries.len() as int));
}

/// The models of the entries from `idx` on.
pub open spec fn rest_of_query(entries: Seq<PathEntry>, idx: int) -> Seq<EntryModel> {
    entries_view(entries).subrange(idx, entries.len() as int)
}

fn push_found<'a>(out: &mut Vec<Found<'a>>, f: Found<'a>)
    ensures
        found_view(final(out)@) == found_view(old(out)@) + seq![f@],
{
    let ghost fv = f@;
    out.push(f);
    assert(found_view(final(out)@) =~= found_view(old(out)@) + seq![fv]);
}

/// Appends what `admitted` gives for `node`.
fn admitted_into<'a>(
    node: &'a Node,
    entries: &Vec<PathEntry>,
    idx: usize,
    path: Vec<PathKey>,
    out: &mut Vec<Found<'a>>,
)
    requires
        idx < entries@.len(),
    ensures
        found_view(final(out)@) == found_view(old(out)@) + admitted(
            *node,
            rest_of_query(entries@, idx as int),
            path_view(path@),
        ),
    decreases entries@.len() - idx, 0nat, 0nat,
{
    proof {
        lemma_entries_tail(entries@, idx as int);
    }
    let n = entries.len();
    let outcome = match &entries[idx].condition {
        Some(c) => evaluate_condition_list(c, node),
        None => Ok(true),
    };
    match outcome {
        Ok(true) => {
            find_into(node, entries, idx + 1, path, out);
        },
        Ok(false) => {
            assert(found_view(out@) =~= found_view(out@) + Seq::<FoundModel>::empty());
        },
        Err(e) => {
            push_found(out, Found::Failure(path, e));
        },
    }
}

/// Appends what `matches` gives for `node` and the entries from `idx` on.
fn find_into<'a>(
    node: &'a Node,
    entries: &Vec<PathEntry>,
    idx: usize,
    prefix: Vec<PathKey>,
    out: &mut Vec<Found<'a>>,
)
    requires
        idx <= entries@.len(),
    ensures
        found_view(final(out)@) == found_view(old(out)@) + matches(
            *node,
            rest_of_query(entries@, idx as int),
            path_view(prefix@),
        ),
    decreases entries@.len() - idx, 1nat, 0nat,
{
    let ghost q = rest_of_query(entries@, idx as int);
    let ghost pv = path_view(prefix@);
    if idx == entries.len() {
        push_found(out, Found::Match(prefix, node));
        return;
    }
    proof {
        lemma_entries_tail(entries@, idx as int);
    }
    let ghost out0 = found_view(out@);
    match &entries[idx].key {
        None => {
            admitted_into(node, entries, idx, prefix, out);
        },
        Some(k) => {
            if has_wildcard(k) {
                match node {
                    Node::Mapping(es) => {
                        let pattern = wildcard_pattern(k);
                        let mut i: usize = 0;
                        assert(out0 =~= out0 + mapping_matches(es@, k@, q, pv, 0));
                        while i < es.len()
                            invariant
                                i <= es@.len(),
                                idx < entries@.len(),
                                q == rest_of_query(entries@, idx as int),
                                pv == path_view(prefix@),
                                pattern@ == glob_pattern(k@),
                                found_view(out@) == out0 + mapping_matches(es@, k@, q, pv, i as nat),
                            decreases es@.len() - i,
                        {
                            let ghost before = found_view(out@);
                            let admits = regex_is_match(pattern.as_str(), es[i].0.as_str());
                            if admits == Some(true) {
                                let path = extended(&prefix, PathKey::Key(es[i].0.clone()));
                                admitted_into(&es[i].1, entries, idx, path, out);
                            }
                            assert(found_view(out@) =~= out0 + mapping_matches(
                                es@,
                                k@,
                                q,
                                pv,
                                (i + 1) as nat,
                            ));
                            i += 1;
                        }
                    },
                    Node::Sequence(v) => {
                        let mut i: usize = 0;
                        assert(out0 =~= out0 + sequence_matches(v@, q, pv, 0));
                        while i < v.len()
                            invariant
                                i <= v@.len(),
                                idx < entries@.len(),
                                q == rest_of_query(entries@, idx as int),
                                pv == path_view(prefix@),
                                found_view(out@) == out0 + sequence_matches(v@, q, pv, i as nat),
                            decreases v@.len() - i,
                        {
                            let path = extended(&prefix, PathKey::Index(i));
                            admitted_into(&v[i], entries, idx, path, out);
                            assert(found_view(out@) =~= out0 + sequence_matches(
                                v@,
                                q,
                                pv,
                                (i + 1) as nat,
                            ));
                            i += 1;
                        }
                    },
                    _ => {
                        assert(found_view(out@) =~= out0 + Seq::<FoundModel>::empty());
                    },
                }
            } else {
                match node {
                    Node::Mapping(es) => {
                        match crate::document::child_of(node, k) {
                            Some(c) => {
                                let path = extended(&prefix, PathKey::Key(k.clone()));
                                admitted_into(c, entries, idx, path, out);
                            },
                            None => {
                                assert(found_view(out@) =~= out0 + Seq::<FoundModel>::empty());
                            },
                        }
                    },
                    Node::Sequence(v) => {
                        let n = v.len();
                        let cs = chars_of(k.as_str());
                        match parse_index(&cs) {
                            Some(x) => {
                                if x < v.len() {
                                    let path = extended(&prefix, PathKey::Index(x));
                                    admitted_into(&v[x], entries, idx, path, out);
                                } else {
                                    assert(found_view(out@) =~= out0 + Seq::<FoundModel>::empty());
                                }
                            },
                            None => {
                                assert(found_view(out@) =~= out0 + Seq::<FoundModel>::empty());
                            },
                        }
                    },
                    _ => {
                        assert(found_view(out@) =~= out0 + Seq::<FoundModel>::empty());
                    },
                }
            }
        },
    }
}

/// Runs `query` against `node`: every match, and every candidate whose
/// predicate could not be evaluated, depth first in document order.
pub fn find<'a>(node: &'a Node, query: &Query) -> (r: Vec<Found<'a>>)
    ensures
        found_view(r@) == matches(*node, query@, Seq::empty()),
{
    let mut out: Vec<Found<'a>> = Vec::new();
    let prefix: Vec<PathKey> = Vec::new();
    assert(path_view(prefix@) =~= Seq::<KeyModel>::empty());
    assert(rest_of_query(query.path@, 0) =~= query@);
    find_into(node, &query.path, 0, prefix, &mut out);
    assert(found_view(out@) =~= Seq::<FoundModel>::empty() + matches(*node, query@, Seq::empty()));
    out
}

} // verus!
