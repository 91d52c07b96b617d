//! Queries over map/sequence/scalar document trees: a parser for the query
//! language and a matcher that walks a document guided by a parsed query.
use vstd::prelude::*;

pub mod ast;
pub mod grammar;
pub mod text;
pub mod lexer;
pub mod number;
pub mod parser;
pub mod document;
pub mod eval;
pub mod matcher;
pub mod laws;

pub use ast::{
    Relation, CompareSign, Decimal, Statement, Condition, ConditionListItem, PathEntry, Query,
    ParseError,
};
pub use parser::{parse_query, query, unescaped_path, quoted_string, value, condition, condition_list};
pub use document::{Node, PathKey};
pub use eval::{EvalError, evaluate_condition, evaluate_condition_list};
pub use matcher::{find, Found};

verus! {

} // verus!
