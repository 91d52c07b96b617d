//! The query grammar, stated as spec functions over character sequences.
//! Each function takes the text and a start position and gives the parsed
//! model together with the position just past what it consumed, or `None`
//! where the rule does not match there.
use vstd::prelude::*;
use crate::ast::{CompareSign, Relation, ValueModel, ConditionModel, ItemModel, EntryModel};

verus! {

/// Horizontal whitespace.
pub open spec fn is_space(c: char) -> bool {
    c == ' ' || c == '\t'
}

/// Characters that end an unescaped path segment.
pub open spec fn is_segment_stop(c: char) -> bool {
    c == '.' || is_space(c) || c == '=' || c == '<' || c == '>' || c == '!' || c == '&' || c
        == '|' || c == '^' || c == '(' || c == ')' || c == '\\'
}

/// Characters that a backslash may escape inside a path segment.
pub open spec fn is_segment_escapable(c: char) -> bool {
    c == '\\' || c == '.' || is_space(c) || c == '(' || c == ')'
}

/// An ASCII decimal digit.
pub open spec fn is_digit(c: char) -> bool {
    '0' <= c && c <= '9'
}

/// The value of a decimal digit.
pub open spec fn digit_value(c: char) -> int {
    (c as int) - ('0' as int)
}

/// Position after the horizontal whitespace that starts at `i`.
pub open spec fn skip_ws(s: Seq<char>, i: int) -> int
    decreases s.len() - i,
{
    if 0 <= i < s.len() && is_space(s[i]) {
        skip_ws(s, i + 1)
    } else {
        i
    }
}

/// Does `t` occur in `s` at position `i`?
pub open spec fn has_prefix(s: Seq<char>, i: int, t: Seq<char>) -> bool {
    0 <= i && i + t.len() <= s.len() && s.subrange(i, i + t.len()) == t
}

/// The longest run of plain characters and escape pairs at `i`, with each
/// escape pair replaced by the character it escapes. `None` where a
/// backslash is followed by a character it cannot escape.
pub open spec fn scan_segment(s: Seq<char>, i: int) -> Option<(Seq<char>, int)>
    decreases s.len() - i,
{
    if 0 <= i < s.len() && !is_segment_stop(s[i]) {
        match scan_segment(s, i + 1) {
            Some((t, j)) => Some((seq![s[i]] + t, j)),
            None => None,
        }
    } else if 0 <= i < s.len() && s[i] == '\\' {
        if i + 1 < s.len() && is_segment_escapable(s[i + 1]) {
            match scan_segment(s, i + 2) {
                Some((t, j)) => Some((seq![s[i + 1]] + t, j)),
                None => None,
            }
        } else {
            None
        }
    } else {
        Some((Seq::empty(), i))
    }
}

/// A non-empty segment at `i`.
pub open spec fn segment(s: Seq<char>, i: int) -> Option<(Seq<char>, int)> {
    match scan_segment(s, i) {
        Some((t, j)) => if t.len() > 0 {
            Some((t, j))
        } else {
            None
        },
        None => None,
    }
}

/// One or more segments separated by `.`; a `.` not followed by a segment is
/// left unconsumed.
pub open spec fn dotted_path(s: Seq<char>, i: int) -> Option<(Seq<Seq<char>>, int)>
    decreases s.len() - i,
{
    match segment(s, i) {
        Some((t, j)) => if i < j < s.len() && s[j] == '.' {
            match dotted_path(s, j + 1) {
                Some((rest, k)) => Some((seq![t] + rest, k)),
                None => Some((seq![t], j)),
            }
        } else {
            Some((seq![t], j))
        },
        None => None,
    }
}

/// A whitespace-trimmed dotted path.
pub open spec fn unescaped_path(s: Seq<char>, i: int) -> Option<(Seq<Seq<char>>, int)> {
    match dotted_path(s, skip_ws(s, i)) {
        Some((p, j)) => Some((p, skip_ws(s, j))),
        None => None,
    }
}

/// Position of the closing quote `q` of a quoted body that starts at `i`;
/// a backslash may precede a backslash or `q`.
pub open spec fn quoted_body_end(s: Seq<char>, i: int, q: char) -> Option<int>
    decreases s.len() - i,
{
    if i < 0 || i >= s.len() {
        None
    } else if s[i] == q {
        Some(i)
    } else if s[i] == '\\' {
        if i + 1 < s.len() && (s[i + 1] == '\\' || s[i + 1] == q) {
            quoted_body_end(s, i + 2, q)
        } else {
            None
        }
    } else {
        quoted_body_end(s, i + 1, q)
    }
}

/// A `"..."` or `'...'` literal at `i`: its body, escapes kept verbatim.
pub open spec fn quoted_string(s: Seq<char>, i: int) -> Option<(Seq<char>, int)> {
    if 0 <= i < s.len() && (s[i] == '"' || s[i] == '\'') {
        match quoted_body_end(s, i + 1, s[i]) {
            Some(e) => Some((s.subrange(i + 1, e), e + 1)),
            None => None,
        }
    } else {
        None
    }
}

// ---------------------------------------------------------------------------
// Numbers
/// First position at or after `i` that does not hold a decimal digit.
pub open spec fn digits_end(s: Seq<char>, i: int) -> int
    decreases s.len() - i,
{
    if 0 <= i < s.len() && is_digit(s[i]) {
        digits_end(s, i + 1)
    } else {
        i
    }
}

/// `acc` followed by the decimal digits `s[i..j]`.
pub open spec fn digits_value(s: Seq<char>, i: int, j: int, acc: int) -> int
    decreases j - i,
{
    if i < j {
        digits_value(s, i + 1, j, acc * 10 + digit_value(s[i]))
    } else {
        acc
    }
}

/// Ten to the power `k`.
pub open spec fn pow10(k: nat) -> int
    decreases k,
{
    if k == 0 {
        1
    } else {
        10 * pow10((k - 1) as nat)
    }
}

/// The shape of a numeric token: an optional sign, integer digits, an
/// optional fraction, an optional exponent.
pub struct NumberToken {
    pub negative: bool,
    pub plus: bool,
    pub int_start: int,
    pub int_end: int,
    pub dot: bool,
    pub frac_start: int,
    pub frac_end: int,
    pub exp: bool,
    pub exp_negative: bool,
    pub exp_start: int,
    pub exp_end: int,
    pub end: int,
}

/// The numeric token at `i`, if any: `[+-]? (d+ ('.' d*)? | '.' d+) ([eE] [+-]? d+)?`.
/// An exponent marker without digits after it is not part of the token.
pub open spec fn number_token(s: Seq<char>, i: int) -> Option<NumberToken> {
    let signed = 0 <= i < s.len() && (s[i] == '+' || s[i] == '-');
    let int_at = if signed { i + 1 } else { i };
    let int_stop = digits_end(s, int_at);
    let dot = int_stop < s.len() && s[int_stop] == '.';
    let frac_at = if dot { int_stop + 1 } else { int_stop };
    let frac_stop = if dot { digits_end(s, frac_at) } else { frac_at };
    let e = frac_stop < s.len() && (s[frac_stop] == 'e' || s[frac_stop] == 'E');
    let q = frac_stop + 1;
    let esigned = e && q < s.len() && (s[q] == '+' || s[q] == '-');
    let q1 = if esigned { q + 1 } else { q };
    let q2 = digits_end(s, q1);
    let exp = e && q2 > q1;
    if 0 <= i <= s.len() && (int_stop > int_at || frac_stop > frac_at) {
        Some(
            NumberToken {
                negative: signed && s[i] == '-',
                plus: signed && s[i] == '+',
                int_start: int_at,
                int_end: int_stop,
                dot,
                frac_start: frac_at,
                frac_end: frac_stop,
                exp,
                exp_negative: esigned && s[q] == '-',
                exp_start: q1,
                exp_end: if exp { q2 } else { q1 },
                end: if exp { q2 } else { frac_stop },
            },
        )
    } else {
        None
    }
}

/// Largest magnitude of an `i64` with the given sign.
pub open spec fn magnitude_bound(negative: bool) -> int {
    if negative {
        0x8000_0000_0000_0000
    } else {
        0x7fff_ffff_ffff_ffff
    }
}

/// `m` with the given sign.
pub open spec fn signed(negative: bool, m: int) -> int {
    if negative {
        -m
    } else {
        m
    }
}

/// The decimal `(mantissa, scale)` of `±d * 10^(e - f)`, where it has an
/// `i64` mantissa and a scale of at most 18.
pub open spec fn decimal_parts(negative: bool, d: nat, f: nat, e: int) -> Option<(int, nat)> {
    if d == 0 {
        Some((0, 0))
    } else if e >= f {
        let k = (e - f) as nat;
        if k <= 18 && d * pow10(k) <= magnitude_bound(negative) {
            Some((signed(negative, d * pow10(k)), 0))
        } else {
            None
        }
    } else {
        let sc = (f - e) as nat;
        if sc <= 18 && d <= magnitude_bound(negative) {
            Some((signed(negative, d as int), sc))
        } else {
            None
        }
    }
}

/// The value of a numeric token: an `Integer` where it is made of digits and
/// a `-` alone, a `Double` otherwise; `None` where it is out of range.
pub open spec fn token_value(s: Seq<char>, t: NumberToken) -> Option<ValueModel> {
    let d = digits_value(s, t.frac_start, t.frac_end, digits_value(s, t.int_start, t.int_end, 0));
    if !t.plus && !t.dot && !t.exp {
        if d <= magnitude_bound(t.negative) {
            Some(ValueModel::Integer(signed(t.negative, d)))
        } else {
            None
        }
    } else {
        let e = signed(t.exp_negative, digits_value(s, t.exp_start, t.exp_end, 0));
        match decimal_parts(t.negative, d as nat, (t.frac_end - t.frac_start) as nat, e) {
            Some((m, sc)) => Some(ValueModel::Double(m, sc)),
            None => None,
        }
    }
}

/// A numeric literal at `i` and its end.
pub open spec fn number(s: Seq<char>, i: int) -> Option<(ValueModel, int)> {
    match number_token(s, i) {
        Some(t) => match token_value(s, t) {
            Some(v) => Some((v, t.end)),
            None => None,
        },
        None => None,
    }
}

// ---------------------------------------------------------------------------
// Values, conditions, condition lists
/// A value without surrounding whitespace: keyword, number, quoted string or
/// path, tried in that order.
pub open spec fn value_core(s: Seq<char>, i: int) -> Option<(ValueModel, int)> {
    if has_prefix(s, i, seq!['t', 'r', 'u', 'e']) {
        Some((ValueModel::Boolean(true), i + 4))
    } else if has_prefix(s, i, seq!['f', 'a', 'l', 's', 'e']) {
        Some((ValueModel::Boolean(false), i + 5))
    } else if has_prefix(s, i, seq!['n', 'u', 'l', 'l']) {
        Some((ValueModel::Null, i + 4))
    } else if number(s, i) is Some {
        number(s, i)
    } else if quoted_string(s, i) is Some {
        let (t, j) = quoted_string(s, i)->0;
        Some((ValueModel::Str(t), j))
    } else {
        match unescaped_path(s, i) {
            Some((p, j)) => Some((ValueModel::Path(p), j)),
            None => None,
        }
    }
}

pub open spec fn value(s: Seq<char>, i: int) -> Option<(ValueModel, int)> {
    match value_core(s, skip_ws(s, i)) {
        Some((v, j)) => Some((v, skip_ws(s, j))),
        None => None,
    }
}

/// A comparison sign at `i`, two-character signs first.
pub open spec fn compare_sign(s: Seq<char>, i: int) -> Option<(CompareSign, int)> {
    if has_prefix(s, i, seq!['=', '=']) {
        Some((CompareSign::Eq, i + 2))
    } else if has_prefix(s, i, seq!['!', '=']) {
        Some((CompareSign::Ne, i + 2))
    } else if has_prefix(s, i, seq!['>', '=']) {
        Some((CompareSign::Ge, i + 2))
    } else if has_prefix(s, i, seq!['<', '=']) {
        Some((CompareSign::Le, i + 2))
    } else if has_prefix(s, i, seq!['>']) {
        Some((CompareSign::Gt, i + 1))
    } else if has_prefix(s, i, seq!['<']) {
        Some((CompareSign::Lt, i + 1))
    } else {
        None
    }
}

/// `value sign value`, with surrounding whitespace.
pub open spec fn condition(s: Seq<char>, i: int) -> Option<(ConditionModel, int)> {
    match value(s, skip_ws(s, i)) {
        Some((l, j)) => match compare_sign(s, j) {
            Some((c, k)) => match value(s, k) {
                Some((r, m)) => Some((ConditionModel { left: l, sign: c, right: r }, skip_ws(s, m))),
                None => None,
            },
            None => None,
        },
        None => None,
    }
}

/// `||`, `&&` or `^`, with surrounding whitespace.
pub open spec fn relation(s: Seq<char>, i: int) -> Option<(Relation, int)> {
    let a = skip_ws(s, i);
    if has_prefix(s, a, seq!['|', '|']) {
        Some((Relation::Or, skip_ws(s, a + 2)))
    } else if has_prefix(s, a, seq!['&', '&']) {
        Some((Relation::And, skip_ws(s, a + 2)))
    } else if has_prefix(s, a, seq!['^']) {
        Some((Relation::Xor, skip_ws(s, a + 1)))
    } else {
        None
    }
}

/// A parenthesised condition list, a condition, or a bare value, tried in
/// that order, with surrounding whitespace.
pub open spec fn condition_list_item(s: Seq<char>, i: int) -> Option<(ItemModel, int)>
    decreases s.len() - i, 0int,
{
    let a = skip_ws(s, i);
    let group = if 0 <= i <= a < s.len() && s[a] == '(' {
        match condition_list(s, a + 1) {
            Some((g, b)) => if 0 <= b < s.len() && s[b] == ')' {
                Some((ItemModel::Group(g), skip_ws(s, b + 1)))
            } else {
                None
            },
            None => None,
        }
    } else {
        None
    };
    if group is Some {
        group
    } else if condition(s, a) is Some {
        let (c, j) = condition(s, a)->0;
        Some((ItemModel::Condition(c), skip_ws(s, j)))
    } else {
        match value(s, a) {
            Some((v, j)) => Some((ItemModel::Term(v), skip_ws(s, j))),
            None => None,
        }
    }
}

/// Items separated by relations, as one flat alternating sequence.
pub open spec fn condition_list(s: Seq<char>, i: int) -> Option<(Seq<ItemModel>, int)>
    decreases s.len() - i, 1int,
{
    match condition_list_item(s, i) {
        Some((x, j)) => match relation(s, j) {
            Some((r, k)) => if i < k <= s.len() {
                match condition_list(s, k) {
                    Some((rest, m)) => Some((seq![x, ItemModel::Relation(r)] + rest, m)),
                    None => None,
                }
            } else {
                None
            },
            None => Some((seq![x], j)),
        },
        None => None,
    }
}

// ---------------------------------------------------------------------------
// Queries
/// The optional `( condition_list )` of an entry, with surrounding whitespace;
/// where there is none, nothing is consumed.
pub open spec fn entry_condition(s: Seq<char>, i: int) -> (Option<Seq<ItemModel>>, int) {
    let a = skip_ws(s, i);
    if 0 <= a < s.len() && s[a] == '(' {
        match condition_list(s, a + 1) {
            Some((g, b)) => if 0 <= b < s.len() && s[b] == ')' {
                (Some(g), skip_ws(s, b + 1))
            } else {
                (None, i)
            },
            None => (None, i),
        }
    } else {
        (None, i)
    }
}

/// An optional key followed by an optional condition; at least one of them.
pub open spec fn path_entry(s: Seq<char>, i: int) -> Option<(EntryModel, int)> {
    let (key, j) = match segment(s, i) {
        Some((t, j)) => (Some(t), j),
        None => (None, i),
    };
    let (cond, k) = entry_condition(s, j);
    if key is None && cond is None {
        None
    } else {
        Some((EntryModel { key, condition: cond }, k))
    }
}

/// Entries separated by `.`.
pub open spec fn path_entries(s: Seq<char>, i: int) -> Option<(Seq<EntryModel>, int)>
    decreases s.len() - i,
{
    match path_entry(s, i) {
        Some((e, j)) => if i < j < s.len() && s[j] == '.' {
            match path_entries(s, j + 1) {
                Some((rest, k)) => Some((seq![e] + rest, k)),
                None => None,
            }
        } else {
            Some((seq![e], j))
        },
        None => None,
    }
}

/// The entries of a query text with surrounding whitespace, and the position
/// where they end.
pub open spec fn query_prefix(s: Seq<char>) -> Option<(Seq<EntryModel>, int)> {
    match path_entries(s, skip_ws(s, 0)) {
        Some((es, j)) => Some((es, skip_ws(s, j))),
        None => None,
    }
}

/// The entries of a whole query text, which must be consumed entirely.
pub open spec fn query(s: Seq<char>) -> Option<Seq<EntryModel>> {
    match query_prefix(s) {
        Some((es, j)) => if j == s.len() {
            Some(es)
        } else {
            None
        },
        None => None,
    }
}

} // verus!
