//! The abstract syntax of a query and the mathematical models that the
//! contracts speak of.
use vstd::prelude::*;

verus! {

/// Logical connective between two operands of a condition list.
#[derive(Clone, Copy, Debug, PartialEq, Eq, Structural)]
pub enum Relation {
    Or,
    And,
    Xor,
}

/// Comparison operator of a condition.
#[derive(Clone, Copy, Debug, PartialEq, Eq, Structural)]
pub enum CompareSign {
    Eq,
    Ne,
    Gt,
    Lt,
    Ge,
    Le,
}

/// An exact decimal number: `mantissa / 10^scale`.
#[derive(Clone, Copy, Debug, PartialEq, Eq, Structural)]
pub struct Decimal {
    pub mantissa: i64,
    pub scale: u32,
}

/// Largest scale a `Decimal` may carry.
pub const MAX_SCALE: u32 = 18;

impl Decimal {
    pub open spec fn wf(self) -> bool {
        self.scale <= MAX_SCALE
    }
}

/// A literal or a reference to a field of the node under test.
#[derive(Clone, Debug, PartialEq)]
pub enum Statement {
    Boolean(bool),
    Integer(i64),
    String(String),
    Double(Decimal),
    Null,
    Path(Vec<String>),
}

/// `left sign right`.
#[derive(Clone, Debug, PartialEq)]
pub struct Condition {
    pub left: Statement,
    pub sign: CompareSign,
    pub right: Statement,
}

/// One element of the flat operand/operator chain of a condition list.
#[derive(Debug, PartialEq)]
pub enum ConditionListItem {
    Condition(Condition),
    Statement(Statement),
    Not,
    Relation(Relation),
    Group(Vec<ConditionListItem>),
}

/// One level of a query: a key pattern and an optional predicate.
#[derive(Debug, PartialEq)]
pub struct PathEntry {
    pub key: Option<String>,
    pub condition: Option<Vec<ConditionListItem>>,
}

/// A parsed query: the entries, consumed one document level at a time.
#[derive(Debug, PartialEq)]
pub struct Query {
    pub path: Vec<PathEntry>,
}

/// The single error that a malformed query text gives.
#[derive(Clone, Copy, Debug, PartialEq, Eq, Structural)]
pub struct ParseError;

impl ParseError {
    /// Human-readable description.
    pub fn message(&self) -> (r: String)
        ensures
            r@ == "A parsing error occurred."@,
    {
        String::from_str("A parsing error occurred.")
    }
}

// ---------------------------------------------------------------------------
// Models

/// Model of a `Statement`: strings as character sequences, decimals as
/// (mantissa, scale).
pub enum ValueModel {
    Boolean(bool),
    Integer(int),
    Double(int, nat),
    Str(Seq<char>),
    Null,
    Path(Seq<Seq<char>>),
}

/// Model of a `Condition`.
pub struct ConditionModel {
    pub left: ValueModel,
    pub sign: CompareSign,
    pub right: ValueModel,
}

/// Model of a `ConditionListItem`; a bare value is a `Term`.
pub enum ItemModel {
    Condition(ConditionModel),
    Term(ValueModel),
    Not,
    Relation(Relation),
    Group(Seq<ItemModel>),
}

/// Model of a `PathEntry`.
pub struct EntryModel {
    pub key: Option<Seq<char>>,
    pub condition: Option<Seq<ItemModel>>,
}

/// The character sequences of a list of strings.
pub open spec fn strings_view(v: Seq<String>) -> Seq<Seq<char>> {
    v.map_values(|s: String| s@)
}

impl View for Statement {
    type V = ValueModel;

    open spec fn view(&self) -> ValueModel {
        match self {
            Statement::Boolean(b) => ValueModel::Boolean(*b),
            Statement::Integer(n) => ValueModel::Integer(*n as int),
            Statement::String(s) => ValueModel::Str(s@),
            Statement::Double(d) => ValueModel::Double(d.mantissa as int, d.scale as nat),
            Statement::Null => ValueModel::Null,
            Statement::Path(p) => ValueModel::Path(strings_view(p@)),
        }
    }
}

impl View for Condition {
    type V = ConditionModel;

    open spec fn view(&self) -> ConditionModel {
        ConditionModel { left: self.left@, sign: self.sign, right: self.right@ }
    }
}

/// The model of an item, groups included.
pub open spec fn item_view(x: ConditionListItem) -> ItemModel
    decreases x,
{
    match x {
        ConditionListItem::Condition(c) => ItemModel::Condition(c@),
        ConditionListItem::Statement(v) => ItemModel::Term(v@),
        ConditionListItem::Not => ItemModel::Not,
        ConditionListItem::Relation(r) => ItemModel::Relation(r),
        ConditionListItem::Group(g) => ItemModel::Group(items_view(g@)),
    }
}

/// The models of a list of items, in order.
pub open spec fn items_view(s: Seq<ConditionListItem>) -> Seq<ItemModel>
    decreases s,
{
    if s.len() == 0 {
        Seq::empty()
    } else {
        seq![item_view(s[0])] + items_view(s.subrange(1, s.len() as int))
    }
}

impl View for ConditionListItem {
    type V = ItemModel;

    open spec fn view(&self) -> ItemModel {
        item_view(*self)
    }
}

impl View for PathEntry {
    type V = EntryModel;

    open spec fn view(&self) -> EntryModel {
        EntryModel {
            key: match self.key {
                Some(k) => Some(k@),
                None => None,
            },
            condition: match self.condition {
                Some(c) => Some(items_view(c@)),
                None => None,
            },
        }
    }
}

/// The models of a list of entries, in order.
pub open spec fn entries_view(s: Seq<PathEntry>) -> Seq<EntryModel> {
    s.map_values(|e: PathEntry| e@)
}

impl View for Query {
    type V = Seq<EntryModel>;

    open spec fn view(&self) -> Seq<EntryModel> {
        entries_view(self.path@)
    }
}

} // verus!
