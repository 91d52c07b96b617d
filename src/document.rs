//! The document tree that queries run against, and field resolution in it.
use vstd::prelude::*;
use crate::ast::strings_view;
use crate::text::chars_of;
use crate::grammar::{is_digit, digits_value};
use crate::number::{read_digits, lemma_digits_value_grows};

verus! {

/// A node of a map/sequence/scalar document. Map entries keep the order in
/// which the document gives them; a real number keeps its source text.
#[derive(Debug, PartialEq)]
pub enum Node {
    Null,
    Boolean(bool),
    Integer(i64),
    Real(String),
    String(String),
    Sequence(Vec<Node>),
    Mapping(Vec<(String, Node)>),
    /// A node of a kind that queries cannot inspect.
    Other,
}

/// How a match was reached: a map key or a sequence index.
#[derive(Debug, PartialEq)]
pub enum PathKey {
    Key(String),
    Index(usize),
}

/// Model of a `PathKey`.
pub enum KeyModel {
    Key(Seq<char>),
    Index(nat),
}

impl View for PathKey {
    type V = KeyModel;

    open spec fn view(&self) -> KeyModel {
        match self {
            PathKey::Key(s) => KeyModel::Key(s@),
            PathKey::Index(i) => KeyModel::Index(*i as nat),
        }
    }
}

/// The models of a path, in order.
pub open spec fn path_view(p: Seq<PathKey>) -> Seq<KeyModel> {
    p.map_values(|k: PathKey| k@)
}

/// The decimal value of a non-empty run of ASCII digits.
pub open spec fn index_value(key: Seq<char>) -> Option<nat> {
    if key.len() > 0 && forall|k: int| 0 <= k < key.len() ==> is_digit(#[trigger] key[k]) {
        Some(digits_value(key, 0, key.len() as int, 0) as nat)
    } else {
        None
    }
}

/// Index of the first map entry with the given key.
pub open spec fn first_key_index(es: Seq<(String, Node)>, key: Seq<char>) -> Option<int> {
    if exists|k: int| 0 <= k < es.len() && es[k].0@ == key {
        Some(choose|k: int| 0 <= k < es.len() && es[k].0@ == key && forall|x: int| 0 <= x < k ==> es[x].0@ != key)
    } else {
        None
    }
}

/// The child of `node` under an exact key: the first map entry with that
/// key, or the sequence element at that decimal index.
pub open spec fn child(node: Node, key: Seq<char>) -> Option<Node> {
    match node {
        Node::Mapping(es) => match first_key_index(es@, key) {
            Some(k) => Some(es@[k].1),
            None => None,
        },
        Node::Sequence(v) => match index_value(key) {
            Some(k) => if k < v@.len() {
                Some(v@[k as int])
            } else {
                None
            },
            None => None,
        },
        _ => None,
    }
}

/// The node reached from `node` by exact lookups along `path`.
pub open spec fn resolve(node: Node, path: Seq<Seq<char>>) -> Option<Node>
    decreases path.len(),
{
    if path.len() == 0 {
        Some(node)
    } else {
        match child(node, path[0]) {
            Some(c) => resolve(c, path.drop_first()),
            None => None,
        }
    }
}

/// Reads a sequence index: a non-empty run of ASCII digits that fits `usize`.
pub fn parse_index(key: &Vec<char>) -> (r: Option<usize>)
    ensures
        match r {
            Some(v) => index_value(key@) == Some(v as nat),
            None => index_value(key@) is None || index_value(key@)->0 > usize::MAX,
        },
{
    if key.len() == 0 {
        return None;
    }
    let mut i: usize = 0;
    while i < key.len()
        invariant
            i <= key@.len(),
            forall|k: int| 0 <= k < i ==> is_digit(#[trigger] key@[k]),
        decreases key@.len() - i,
    {
        if !('0' <= key[i] && key[i] <= '9') {
            return None;
        }
        i += 1;
    }
    proof {
        lemma_digits_value_grows(key@, 0, key@.len() as int, 0);
    }
    match read_digits(key, 0, key.len(), 0, usize::MAX as u128) {
        Some(v) => Some(v as usize),
        None => None,
    }
}

/// The child of `node` under an exact key.
pub fn child_of<'a>(node: &'a Node, key: &String) -> (r: Option<&'a Node>)
    ensures
        match r {
            Some(c) => child(*node, key@) == Some(*c),
            None => child(*node, key@) is None,
        },
{
    match node {
        Node::Mapping(es) => {
            assert(*node == Node::Mapping(*es));
            let mut k: usize = 0;
            while k < es.len()
                invariant
                    k <= es@.len(),
                    *node == Node::Mapping(*es),
                    forall|x: int| 0 <= x < k ==> es@[x].0@ != key@,
                decreases es@.len() - k,
            {
                if es[k].0 == *key {
                    assert(es@[k as int].0@ == key@);
                    proof {
                        let c = first_key_index(es@, key@)->0;
                        assert(0 <= c < es@.len() && es@[c].0@ == key@ && forall|x: int|
                            0 <= x < c ==> es@[x].0@ != key@);
                        if c < k {
                            assert(es@[c].0@ != key@);
                        } else if c > k {
                            assert(es@[k as int].0@ != key@);
                        }
                    }
                    assert(first_key_index(es@, key@) == Some(k as int));
                    assert(child(*node, key@) == Some(es@[k as int].1));
                    let entry = &es[k];
                    assert(*entry == es@[k as int]);
                    return Some(&entry.1);
                }
                k += 1;
            }
            assert(!exists|x: int| 0 <= x < es@.len() && es@[x].0@ == key@);
            None
        },
        Node::Sequence(v) => {
            let n = v.len();
            let cs = chars_of(key.as_str());
            assert(cs@ == key@);
            match parse_index(&cs) {
                Some(i) => if i < v.len() {
                    assert(child(*node, key@) == Some(v@[i as int]));
                    let c = &v[i];
                    assert(*c == v@[i as int]);
                    Some(c)
                } else {
                    None
                },
                None => None,
            }
        },
        _ => None,
    }
}

/// The node reached by exact lookups along `path`.
pub fn resolve_path<'a>(node: &'a Node, path: &Vec<String>) -> (r: Option<&'a Node>)
    ensures
        match r {
            Some(c) => resolve(*node, strings_view(path@)) == Some(*c),
            None => resolve(*node, strings_view(path@)) is None,
        },
{
    let ghost sv = strings_view(path@);
    let mut cur: &Node = node;
    let mut i: usize = 0;
    assert(sv.subrange(0, sv.len() as int) =~= sv);
    while i < path.len()
        invariant
            i <= path@.len(),
            sv == strings_view(path@),
            resolve(*node, sv) == resolve(*cur, sv.subrange(i as int, sv.len() as int)),
        decreases path@.len() - i,
    {
        assert(sv.subrange(i as int, sv.len() as int).drop_first() =~= sv.subrange(
            i + 1,
            sv.len() as int,
        ));
        match child_of(cur, &path[i]) {
            Some(c) => {
                cur = c;
            },
            None => {
                return None;
            },
        }
        i += 1;
    }
    assert(sv.subrange(i as int, sv.len() as int) =~= Seq::<Seq<char>>::empty());
    Some(cur)
}

} // verus!
