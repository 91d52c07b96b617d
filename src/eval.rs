//! Evaluation of conditions and condition lists against a document node.
use vstd::prelude::*;
use crate::ast::{
    Statement, Condition, ConditionListItem, CompareSign, Relation, ValueModel, ConditionModel,
    ItemModel, item_view, items_view,
};
use crate::document::{Node, resolve, resolve_path};
use crate::grammar::{self, pow10};
use crate::number::{self, lemma_pow10_monotone, lemma_pow10_positive, pow10_exec};
use crate::text::chars_of;

verus! {

/// Why a predicate could not be evaluated.
#[derive(Clone, Copy, Debug, PartialEq, Eq, Structural)]
pub enum EvalError {
    /// An ordering sign between two strings.
    StringOrdering,
    /// A lone literal that is not a boolean used as a term.
    NonBooleanTerm,
    /// A list that is not an alternating chain of operands and relations.
    MalformedList,
}

/// A side of a comparison once references are resolved. Numbers are
/// `mantissa / 10^scale`; `Other` is what is absent or not comparable.
pub enum Operand {
    Bool(bool),
    Num(int, nat),
    Str(Seq<char>),
    Null,
    Other,
}

/// What a document node gives in a comparison. A real number is read with
/// the literal grammar and must be a numeric token as a whole.
pub open spec fn node_operand(n: Node) -> Operand {
    match n {
        Node::Null => Operand::Null,
        Node::Boolean(b) => Operand::Bool(b),
        Node::Integer(i) => Operand::Num(i as int, 0),
        Node::Real(t) => match grammar::number(t@, 0) {
            Some((ValueModel::Integer(k), j)) => if j == t@.len() {
                Operand::Num(k, 0)
            } else {
                Operand::Other
            },
            Some((ValueModel::Double(m, sc), j)) => if j == t@.len() {
                Operand::Num(m, sc)
            } else {
                Operand::Other
            },
            _ => Operand::Other,
        },
        Node::String(t) => Operand::Str(t@),
        _ => Operand::Other,
    }
}

/// A value as an operand: literals stand for themselves, a path for what it
/// resolves to in `node`.
pub open spec fn operand(v: ValueModel, node: Node) -> Operand {
    match v {
        ValueModel::Boolean(b) => Operand::Bool(b),
        ValueModel::Integer(n) => Operand::Num(n, 0),
        ValueModel::Double(m, sc) => Operand::Num(m, sc),
        ValueModel::Str(t) => Operand::Str(t),
        ValueModel::Null => Operand::Null,
        ValueModel::Path(p) => match resolve(node, p) {
            Some(n) => node_operand(n),
            None => Operand::Other,
        },
    }
}

/// Does `sign` hold between two quantities whose difference is `d`?
pub open spec fn sign_holds(sign: CompareSign, d: int) -> bool {
    match sign {
        CompareSign::Eq => d == 0,
        CompareSign::Ne => d != 0,
        CompareSign::Gt => d > 0,
        CompareSign::Lt => d < 0,
        CompareSign::Ge => d >= 0,
        CompareSign::Le => d <= 0,
    }
}

/// One of `>`, `<`, `>=`, `<=`.
pub open spec fn is_ordering(sign: CompareSign) -> bool {
    !(sign == CompareSign::Eq || sign == CompareSign::Ne)
}

/// Equality and inequality of two like values; ordering signs give `false`.
pub open spec fn equality(sign: CompareSign, same: bool) -> bool {
    match sign {
        CompareSign::Eq => same,
        CompareSign::Ne => !same,
        _ => false,
    }
}

/// A comparison of two operands: numbers by value, strings, booleans and
/// nulls by equality; any other pair is unequal.
pub open spec fn compare(l: Operand, sign: CompareSign, r: Operand) -> Result<bool, EvalError> {
    match (l, r) {
        (Operand::Num(a, sa), Operand::Num(b, sb)) => Ok(
            sign_holds(sign, a * pow10(sb) - b * pow10(sa)),
        ),
        (Operand::Str(a), Operand::Str(b)) => if is_ordering(sign) {
            Err(EvalError::StringOrdering)
        } else {
            Ok(equality(sign, a == b))
        },
        (Operand::Bool(a), Operand::Bool(b)) => Ok(equality(sign, a == b)),
        (Operand::Null, Operand::Null) => Ok(equality(sign, true)),
        _ => Ok(sign == CompareSign::Ne),
    }
}

/// The value of a condition against `node`.
pub open spec fn condition_value(c: ConditionModel, node: Node) -> Result<bool, EvalError> {
    compare(operand(c.left, node), c.sign, operand(c.right, node))
}

/// The truth of a bare value: a boolean literal, or a path that resolves to
/// a boolean (anything else it resolves to, or nothing, is `false`).
pub open spec fn term_value(v: ValueModel, node: Node) -> Result<bool, EvalError> {
    match v {
        ValueModel::Boolean(b) => Ok(b),
        ValueModel::Path(p) => match resolve(node, p) {
            Some(Node::Boolean(b)) => Ok(b),
            _ => Ok(false),
        },
        _ => Err(EvalError::NonBooleanTerm),
    }
}

/// A relation applied to the value so far and the next operand.
pub open spec fn apply(r: Relation, a: bool, b: bool) -> bool {
    match r {
        Relation::Or => a || b,
        Relation::And => a && b,
        Relation::Xor => a != b,
    }
}

/// The operand that starts at `i`, with any `Not` before it applied, and the
/// index after it.
pub open spec fn operand_value(items: Seq<ItemModel>, i: int, node: Node) -> Result<
    (bool, int),
    EvalError,
>
    decreases items, items.len() - i,
{
    if i < 0 || i >= items.len() {
        Err(EvalError::MalformedList)
    } else {
        match items[i] {
            ItemModel::Not => match operand_value(items, i + 1, node) {
                Ok((b, j)) => Ok((!b, j)),
                Err(e) => Err(e),
            },
            ItemModel::Condition(c) => match condition_value(c, node) {
                Ok(b) => Ok((b, i + 1)),
                Err(e) => Err(e),
            },
            ItemModel::Term(v) => match term_value(v, node) {
                Ok(b) => Ok((b, i + 1)),
                Err(e) => Err(e),
            },
            ItemModel::Group(_) => match list_value(items[i]->Group_0, node) {
                Ok(b) => Ok((b, i + 1)),
                Err(e) => Err(e),
            },
            ItemModel::Relation(_) => Err(EvalError::MalformedList),
        }
    }
}

/// Continues a left fold, with no precedence, from index `i` where `acc` is
/// the value so far: each relation combines `acc` with the next operand.
pub open spec fn fold_value(items: Seq<ItemModel>, i: int, acc: bool, node: Node) -> Result<
    bool,
    EvalError,
>
    decreases items, items.len() - i,
{
    if i < 0 || i >= items.len() {
        Ok(acc)
    } else {
        match items[i] {
            ItemModel::Relation(r) => match operand_value(items, i + 1, node) {
                Ok((b, j)) => if i < j <= items.len() {
                    fold_value(items, j, apply(r, acc, b), node)
                } else {
                    Err(EvalError::MalformedList)
                },
                Err(e) => Err(e),
            },
            _ => Err(EvalError::MalformedList),
        }
    }
}

/// The value of a condition list against `node`.
pub open spec fn list_value(items: Seq<ItemModel>, node: Node) -> Result<bool, EvalError>
    decreases items, items.len() + 1,
{
    match operand_value(items, 0, node) {
        Ok((b, j)) => if 0 <= j <= items.len() {
            fold_value(items, j, b, node)
        } else {
            Err(EvalError::MalformedList)
        },
        Err(e) => Err(e),
    }
}

// ---------------------------------------------------------------------------
// Executable evaluation
/// The sign of `d`: -1, 0 or 1.
pub open spec fn sgn(d: int) -> int {
    if d > 0 {
        1
    } else if d < 0 {
        -1
    } else {
        0
    }
}

/// `items_view` keeps length and maps each item by `item_view`.
pub proof fn lemma_items_view(v: Seq<ConditionListItem>)
    ensures
        items_view(v).len() == v.len(),
        forall|k: int| 0 <= k < v.len() ==> #[trigger] items_view(v)[k] == item_view(v[k]),
    decreases v.len(),
{
    if v.len() > 0 {
        let rest = v.subrange(1, v.len() as int);
        lemma_items_view(rest);
        assert forall|k: int| 0 <= k < v.len() implies #[trigger] items_view(v)[k] == item_view(
            v[k],
        ) by {
            if k > 0 {
                assert(items_view(v)[k] == items_view(rest)[k - 1]);
                assert(rest[k - 1] == v[k]);
            }
        }
    }
}

/// Sign of `a * 10^k - b`.
fn compare_scaled(a: i64, k: u32, b: i64) -> (r: i8)
    ensures
        r as int == sgn(a * pow10(k as nat) - b),
{
    if k <= 18 {
        let p = pow10_exec(k);
        proof {
            lemma_pow10_monotone(k as nat, 18);
            reveal_with_fuel(pow10, 19);
        }
        assert(-0x8000_0000_0000_0000 * 1_000_000_000_000_000_000 <= a * p
            <= 0x8000_0000_0000_0000 * 1_000_000_000_000_000_000) by (nonlinear_arith)
            requires
                -0x8000_0000_0000_0000 <= a <= 0x8000_0000_0000_0000,
                0 <= p <= 1_000_000_000_000_000_000,
        ;
        let x = (a as i128) * (p as i128);
        let y = b as i128;
        if x > y {
            1
        } else if x < y {
            -1
        } else {
            0
        }
    } else {
        proof {
            lemma_pow10_monotone(19, k as nat);
            reveal_with_fuel(pow10, 20);
            let p = pow10(k as nat);
            if a > 0 {
                assert(a * p >= p) by (nonlinear_arith)
                    requires
                        a >= 1,
                        p >= 0,
                ;
            } else if a < 0 {
                assert(a * p <= -p) by (nonlinear_arith)
                    requires
                        a <= -1,
                        p >= 0,
                ;
            }
        }
        if a > 0 {
            1
        } else if a < 0 {
            -1
        } else if b > 0 {
            -1
        } else if b < 0 {
            1
        } else {
            0
        }
    }
}

/// Sign of `a / 10^sa - b / 10^sb`, computed as that of
/// `a * 10^sb - b * 10^sa`.
pub fn compare_decimals(a: i64, sa: u32, b: i64, sb: u32) -> (r: i8)
    ensures
        r as int == sgn(a * pow10(sb as nat) - b * pow10(sa as nat)),
{
    if sa <= sb {
        let k = sb - sa;
        let r = compare_scaled(a, k, b);
        proof {
            lemma_pow10_split(sa as nat, k as nat);
            lemma_pow10_positive(sa as nat);
            let p = pow10(sa as nat);
            let q = pow10(k as nat);
            assert(a * pow10(sb as nat) - b * p == (a * q - b) * p) by (nonlinear_arith)
                requires
                    pow10(sb as nat) == p * q,
            ;
            lemma_sgn_scale(a * q - b, p);
        }
        r
    } else {
        let k = sa - sb;
        let r = compare_scaled(b, k, a);
        proof {
            lemma_pow10_split(sb as nat, k as nat);
            lemma_pow10_positive(sb as nat);
            let p = pow10(sb as nat);
            let q = pow10(k as nat);
            assert(a * p - b * pow10(sa as nat) == -((b * q - a) * p)) by (nonlinear_arith)
                requires
                    pow10(sa as nat) == p * q,
            ;
            lemma_sgn_scale(b * q - a, p);
        }
        -r
    }
}

proof fn lemma_pow10_split(a: nat, b: nat)
    ensures
        pow10(a + b) == pow10(a) * pow10(b),
    decreases b,
{
    if b > 0 {
        lemma_pow10_split(a, (b - 1) as nat);
        assert(pow10(a + b) == 10 * pow10((a + b - 1) as nat));
        assert(pow10(a) * pow10(b) == pow10(a) * (10 * pow10((b - 1) as nat)));
        assert(pow10(a) * (10 * pow10((b - 1) as nat)) == 10 * (pow10(a) * pow10((b - 1) as nat)))
            by (nonlinear_arith);
    }
}

proof fn lemma_sgn_scale(x: int, p: int)
    requires
        p >= 1,
    ensures
        sgn(x * p) == sgn(x),
{
    if x > 0 {
        assert(x * p > 0) by (nonlinear_arith)
            requires
                x > 0,
                p >= 1,
        ;
    } else if x < 0 {
        assert(x * p < 0) by (nonlinear_arith)
            requires
                x < 0,
                p >= 1,
        ;
    }
}

/// An operand as the evaluator holds it.
pub enum Resolved<'a> {
    Bool(bool),
    Num(i64, u32),
    Str(&'a String),
    Null,
    Other,
}

impl<'a> View for Resolved<'a> {
    type V = Operand;

    open spec fn view(&self) -> Operand {
        match self {
            Resolved::Bool(b) => Operand::Bool(*b),
            Resolved::Num(m, sc) => Operand::Num(*m as int, *sc as nat),
            Resolved::Str(t) => Operand::Str(t@),
            Resolved::Null => Operand::Null,
            Resolved::Other => Operand::Other,
        }
    }
}

fn node_operand_of<'a>(n: &'a Node) -> (r: Resolved<'a>)
    ensures
        r@ == node_operand(*n),
{
    match n {
        Node::Null => Resolved::Null,
        Node::Boolean(b) => Resolved::Bool(*b),
        Node::Integer(i) => Resolved::Num(*i, 0),
        Node::Real(t) => {
            let cs = chars_of(t.as_str());
            assert(cs@ == t@);
            match number::number(&cs, 0) {
                Some((Statement::Integer(k), j)) => if j == cs.len() {
                    Resolved::Num(k, 0)
                } else {
                    Resolved::Other
                },
                Some((Statement::Double(d), j)) => if j == cs.len() {
                    Resolved::Num(d.mantissa, d.scale)
                } else {
                    Resolved::Other
                },
                _ => Resolved::Other,
            }
        },
        Node::String(t) => Resolved::Str(t),
        _ => Resolved::Other,
    }
}

fn operand_of<'a>(v: &'a Statement, node: &'a Node) -> (r: Resolved<'a>)
    ensures
        r@ == operand(v@, *node),
{
    match v {
        Statement::Boolean(b) => Resolved::Bool(*b),
        Statement::Integer(n) => Resolved::Num(*n, 0),
        Statement::Double(d) => Resolved::Num(d.mantissa, d.scale),
        Statement::String(t) => Resolved::Str(t),
        Statement::Null => Resolved::Null,
        Statement::Path(p) => match resolve_path(node, p) {
            Some(n) => node_operand_of(n),
            None => Resolved::Other,
        },
    }
}

fn equality_of(sign: CompareSign, same: bool) -> (r: bool)
    ensures
        r == equality(sign, same),
{
    match sign {
        CompareSign::Eq => same,
        CompareSign::Ne => !same,
        _ => false,
    }
}

fn compare_operands(l: &Resolved, sign: CompareSign, r: &Resolved) -> (res: Result<bool, EvalError>)
    ensures
        res == compare(l@, sign, r@),
{
    match (l, r) {
        (Resolved::Num(a, sa), Resolved::Num(b, sb)) => {
            let c = compare_decimals(*a, *sa, *b, *sb);
            Ok(
                match sign {
                    CompareSign::Eq => c == 0,
                    CompareSign::Ne => c != 0,
                    CompareSign::Gt => c > 0,
                    CompareSign::Lt => c < 0,
                    CompareSign::Ge => c >= 0,
                    CompareSign::Le => c <= 0,
                },
            )
        },
        (Resolved::Str(a), Resolved::Str(b)) => {
            if sign == CompareSign::Eq || sign == CompareSign::Ne {
                let same = **a == **b;
                Ok(equality_of(sign, same))
            } else {
                Err(EvalError::StringOrdering)
            }
        },
        (Resolved::Bool(a), Resolved::Bool(b)) => Ok(equality_of(sign, *a == *b)),
        (Resolved::Null, Resolved::Null) => Ok(equality_of(sign, true)),
        _ => Ok(sign == CompareSign::Ne),
    }
}

/// Evaluates one condition against `node`.
pub fn evaluate_condition(c: &Condition, node: &Node) -> (r: Result<bool, EvalError>)
    ensures
        r == condition_value(c@, *node),
{
    let l = operand_of(&c.left, node);
    let r = operand_of(&c.right, node);
    compare_operands(&l, c.sign, &r)
}

/// Evaluates a bare value as a boolean against `node`.
pub fn evaluate_term(v: &Statement, node: &Node) -> (r: Result<bool, EvalError>)
    ensures
        r == term_value(v@, *node),
{
    match v {
        Statement::Boolean(b) => Ok(*b),
        Statement::Path(p) => match resolve_path(node, p) {
            Some(Node::Boolean(b)) => Ok(*b),
            _ => Ok(false),
        },
        _ => Err(EvalError::NonBooleanTerm),
    }
}

fn apply_relation(r: Relation, a: bool, b: bool) -> (res: bool)
    ensures
        res == apply(r, a, b),
{
    match r {
        Relation::Or => a || b,
        Relation::And => a && b,
        Relation::Xor => a != b,
    }
}

fn operand_at(items: &Vec<ConditionListItem>, i: usize, node: &Node) -> (r: Result<(bool, usize), EvalError>)
    requires
        i <= items@.len(),
    ensures
        match r {
            Ok((b, j)) => operand_value(items_view(items@), i as int, *node) == Ok::<(bool, int), EvalError>((b, j as int)) && i < j <= items@.len(),
            Err(e) => operand_value(items_view(items@), i as int, *node) == Err::<(bool, int), EvalError>(e),
        },
    decreases items_view(items@), items@.len() - i,
{
    proof {
        lemma_items_view(items@);
    }
    if i >= items.len() {
        return Err(EvalError::MalformedList);
    }
    match &items[i] {
        ConditionListItem::Not => match operand_at(items, i + 1, node) {
            Ok((b, j)) => Ok((!b, j)),
            Err(e) => Err(e),
        },
        ConditionListItem::Condition(c) => match evaluate_condition(c, node) {
            Ok(b) => Ok((b, i + 1)),
            Err(e) => Err(e),
        },
        ConditionListItem::Statement(v) => match evaluate_term(v, node) {
            Ok(b) => Ok((b, i + 1)),
            Err(e) => Err(e),
        },
        ConditionListItem::Group(g) => {
            assert(items_view(items@)[i as int] == ItemModel::Group(items_view(g@)));
            match evaluate_condition_list(g, node) {
                Ok(b) => Ok((b, i + 1)),
                Err(e) => Err(e),
            }
        },
        ConditionListItem::Relation(_) => Err(EvalError::MalformedList),
    }
}

/// Evaluates a condition list against `node`: operands folded left to right
/// with no precedence, each `Not` negating the operand after it.
pub fn evaluate_condition_list(items: &Vec<ConditionListItem>, node: &Node) -> (r: Result<bool, EvalError>)
    ensures
        r == list_value(items_view(items@), *node),
    decreases items_view(items@), items@.len() + 1,
{
    proof {
        lemma_items_view(items@);
    }
    let ghost iv = items_view(items@);
    let (first, j0) = match operand_at(items, 0, node) {
        Ok(x) => x,
        Err(e) => {
            return Err(e);
        },
    };
    let mut acc = first;
    let mut j = j0;
    while j < items.len()
        invariant
            j <= items@.len(),
            iv == items_view(items@),
            iv.len() == items@.len(),
            forall|k: int| 0 <= k < items@.len() ==> #[trigger] iv[k] == item_view(items@[k]),
            list_value(iv, *node) == fold_value(iv, j as int, acc, *node),
        decreases items@.len() - j,
    {
        match &items[j] {
            ConditionListItem::Relation(rel) => {
                match operand_at(items, j + 1, node) {
                    Ok((b, k)) => {
                        acc = apply_relation(*rel, acc, b);
                        j = k;
                    },
                    Err(e) => {
                        return Err(e);
                    },
                }
            },
            _ => {
                return Err(EvalError::MalformedList);
            },
        }
    }
    Ok(acc)
}

} // verus!
