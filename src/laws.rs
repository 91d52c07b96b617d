//! Properties of the grammar and of evaluation, stated over the spec
//! functions that the parser's and the evaluator's contracts use.
use vstd::prelude::*;
use crate::ast::{ItemModel, ValueModel, ConditionModel, CompareSign};
use crate::document::{Node, resolve};
use crate::eval::condition_value;
use crate::grammar::{
    condition_list, condition_list_item, relation, scan_segment, segment, unescaped_path,
    dotted_path, skip_ws, is_segment_stop, is_segment_escapable, is_digit, digit_value,
    digits_value, digits_end, value, number, number_token, quoted_body_end,
    quoted_string, has_prefix,
};
use crate::text::lemma_has_prefix;

verus! {

/// A flat operand/operator chain: odd length, with relations at exactly the
/// odd indices.
pub open spec fn alternates(items: Seq<ItemModel>) -> bool {
    items.len() % 2 == 1 && forall|k: int|
        0 <= k < items.len() ==> ((#[trigger] items[k] is Relation) <==> k % 2 == 1)
}

proof fn lemma_item_is_operand(s: Seq<char>, i: int)
    ensures
        condition_list_item(s, i) matches Some((x, _)) ==> !(x is Relation),
{
}

/// Every condition list that parses is a flat alternating chain: it has odd
/// length and holds relations at exactly its odd indices.
pub proof fn lemma_condition_list_alternates(s: Seq<char>, i: int)
    ensures
        condition_list(s, i) matches Some((items, _)) ==> alternates(items),
    decreases s.len() - i,
{
    lemma_item_is_operand(s, i);
    match condition_list_item(s, i) {
        Some((x, j)) => match relation(s, j) {
            Some((r, k)) => {
                if i < k <= s.len() {
                    lemma_condition_list_alternates(s, k);
                    match condition_list(s, k) {
                        Some((rest, m)) => {
                            let items = seq![x, ItemModel::Relation(r)] + rest;
                            assert forall|q: int| 0 <= q < items.len() implies ((
                            #[trigger] items[q] is Relation) <==> q % 2 == 1) by {
                                if q >= 2 {
                                    assert(items[q] == rest[q - 2]);
                                }
                            }
                        },
                        None => {},
                    }
                }
            },
            None => {},
        },
        None => {},
    }
}

/// A condition whose left side is a path that does not resolve is `false`
/// under `==` and `true` under `!=`, whatever its right side: an absent field
/// is no error.
pub proof fn lemma_absent_field(p: Seq<Seq<char>>, right: ValueModel, node: Node)
    requires
        resolve(node, p) is None,
    ensures
        condition_value(
            ConditionModel { left: ValueModel::Path(p), sign: CompareSign::Eq, right },
            node,
        ) == Ok::<bool, crate::eval::EvalError>(false),
        condition_value(
            ConditionModel { left: ValueModel::Path(p), sign: CompareSign::Ne, right },
            node,
        ) == Ok::<bool, crate::eval::EvalError>(true),
{
}

/// A character that may stand in a path segment, plainly or escaped.
pub open spec fn segment_char(c: char) -> bool {
    !is_segment_stop(c) || is_segment_escapable(c)
}

/// The text of a segment: a backslash before each character that needs one.
pub open spec fn escape_segment(t: Seq<char>) -> Seq<char>
    decreases t.len(),
{
    if t.len() == 0 {
        Seq::empty()
    } else {
        (if is_segment_escapable(t[0]) {
            seq!['\\', t[0]]
        } else {
            seq![t[0]]
        }) + escape_segment(t.drop_first())
    }
}

proof fn lemma_scan_escaped(p: Seq<char>, t: Seq<char>)
    requires
        forall|k: int| 0 <= k < t.len() ==> segment_char(#[trigger] t[k]),
    ensures
        scan_segment(p + escape_segment(t), p.len() as int) == Some(
            (t, (p + escape_segment(t)).len() as int),
        ),
    decreases t.len(),
{
    let s = p + escape_segment(t);
    if t.len() == 0 {
        assert(s.len() == p.len());
    } else {
        let c = t[0];
        let rest = t.drop_first();
        assert(forall|k: int| 0 <= k < rest.len() ==> rest[k] == t[k + 1]);
        assert(segment_char(c));
        if is_segment_escapable(c) {
            let int_stop = p + seq!['\\', c];
            assert(s =~= int_stop + escape_segment(rest));
            lemma_scan_escaped(int_stop, rest);
            assert(s[p.len() as int] == '\\');
            assert(s[p.len() as int + 1] == c);
        } else {
            let int_stop = p.push(c);
            assert(s =~= int_stop + escape_segment(rest));
            lemma_scan_escaped(int_stop, rest);
            assert(s[p.len() as int] == c);
        }
        assert(seq![c] + rest =~= t);
    }
}

/// Unescaping undoes escaping: the escaped text of a non-empty string of
/// segment characters reads back, whole, as that string, both as a segment
/// and as a one-segment path.
pub proof fn lemma_unescape_escape(t: Seq<char>)
    requires
        t.len() > 0,
        forall|k: int| 0 <= k < t.len() ==> segment_char(#[trigger] t[k]),
    ensures
        segment(escape_segment(t), 0) == Some((t, escape_segment(t).len() as int)),
        unescaped_path(escape_segment(t), 0) == Some((seq![t], escape_segment(t).len() as int)),
{
    let e = escape_segment(t);
    assert(Seq::<char>::empty() + e =~= e);
    lemma_scan_escaped(Seq::empty(), t);
    assert(e.len() > 0);
    assert(!crate::grammar::is_space(e[0]));
    assert(skip_ws(e, 0) == 0);
    assert(dotted_path(e, 0) == Some((seq![t], e.len() as int)));
}

// ---------------------------------------------------------------------------
// Literal texts
pub open spec fn digit_char(d: int) -> char {
    if d == 0 {
        '0'
    } else if d == 1 {
        '1'
    } else if d == 2 {
        '2'
    } else if d == 3 {
        '3'
    } else if d == 4 {
        '4'
    } else if d == 5 {
        '5'
    } else if d == 6 {
        '6'
    } else if d == 7 {
        '7'
    } else if d == 8 {
        '8'
    } else {
        '9'
    }
}

/// The decimal digits of `n`, without leading zeros.
pub open spec fn nat_digits(n: nat) -> Seq<char>
    decreases n,
{
    if n < 10 {
        seq![digit_char(n as int)]
    } else {
        nat_digits(n / 10).push(digit_char(n as int % 10))
    }
}

pub open spec fn integer_text(n: int) -> Seq<char> {
    if n < 0 {
        seq!['-'] + nat_digits((-n) as nat)
    } else {
        nat_digits(n as nat)
    }
}

/// `d` with zeros in front, to at least `w` digits.
pub open spec fn zero_padded(d: Seq<char>, w: nat) -> Seq<char> {
    if d.len() < w {
        Seq::new((w - d.len()) as nat, |k: int| '0') + d
    } else {
        d
    }
}

/// The text of `m / 10^sc`: the digits of `|m|` with a point before the last
/// `sc` of them (at least one digit before it), and a `-` where `m < 0`.
pub open spec fn decimal_text(m: int, sc: nat) -> Seq<char> {
    let a: nat = if m < 0 {
        (-m) as nat
    } else {
        m as nat
    };
    let w = zero_padded(nat_digits(a), sc + 1);
    let ip = w.subrange(0, w.len() - sc);
    let fp = w.subrange(w.len() - sc, w.len() as int);
    (if m < 0 {
        seq!['-']
    } else {
        Seq::empty()
    }) + ip + seq!['.'] + fp
}

/// The text of a literal: a keyword, a decimal integer, a decimal number
/// with a point, or a double-quoted string.
pub open spec fn literal_text(v: ValueModel) -> Seq<char> {
    match v {
        ValueModel::Boolean(b) => if b {
            seq!['t', 'r', 'u', 'e']
        } else {
            seq!['f', 'a', 'l', 's', 'e']
        },
        ValueModel::Null => seq!['n', 'u', 'l', 'l'],
        ValueModel::Integer(n) => integer_text(n),
        ValueModel::Str(t) => seq!['"'] + t + seq!['"'],
        ValueModel::Double(m, sc) => decimal_text(m, sc),
        _ => Seq::empty(),
    }
}

/// The literals that have a text: keywords, integers of `i64`'s range, and
/// strings with neither a double quote nor a backslash.
pub open spec fn has_literal_text(v: ValueModel) -> bool {
    match v {
        ValueModel::Boolean(_) => true,
        ValueModel::Null => true,
        ValueModel::Integer(n) => -0x8000_0000_0000_0000 <= n <= 0x7fff_ffff_ffff_ffff,
        ValueModel::Str(t) => forall|k: int| 0 <= k < t.len() ==> #[trigger] t[k] != '"' && t[k] != '\\',
        ValueModel::Double(m, sc) => -0x8000_0000_0000_0000 <= m <= 0x7fff_ffff_ffff_ffff && sc
            <= 18 && (m != 0 || sc == 0),
        _ => false,
    }
}

proof fn lemma_nat_digits(n: nat)
    ensures
        nat_digits(n).len() >= 1,
        forall|k: int| 0 <= k < nat_digits(n).len() ==> is_digit(#[trigger] nat_digits(n)[k]),
    decreases n,
{
    if n >= 10 {
        lemma_nat_digits(n / 10);
        lemma_digit_char(n as int % 10);
        assert forall|k: int| 0 <= k < nat_digits(n).len() implies is_digit(
            #[trigger] nat_digits(n)[k],
        ) by {
            if k < nat_digits(n / 10).len() {
                assert(nat_digits(n)[k] == nat_digits(n / 10)[k]);
            }
        }
    } else {
        lemma_digit_char(n as int);
    }
}

proof fn lemma_digits_value_push(s: Seq<char>, i: int, j: int, acc: int)
    requires
        i <= j,
    ensures
        digits_value(s, i, j + 1, acc) == digits_value(s, i, j, acc) * 10 + digit_value(s[j]),
    decreases j - i,
{
    if i < j {
        lemma_digits_value_push(s, i + 1, j, acc * 10 + digit_value(s[i]));
    } else {
        assert(digits_value(s, i + 1, i + 1, acc * 10 + digit_value(s[i])) == acc * 10
            + digit_value(s[i]));
    }
}

proof fn lemma_digit_char(d: int)
    requires
        0 <= d < 10,
    ensures
        is_digit(digit_char(d)),
        digit_value(digit_char(d)) == d,
{
}

proof fn lemma_digits_value_of(s: Seq<char>, o: int, n: nat)
    requires
        0 <= o,
        o + nat_digits(n).len() <= s.len(),
        s.subrange(o, o + nat_digits(n).len()) == nat_digits(n),
    ensures
        digits_value(s, o, o + nat_digits(n).len(), 0) == n,
    decreases n,
{
    let l = nat_digits(n).len() as int;
    if n < 10 {
        assert(s[o] == s.subrange(o, o + l)[0]);
        lemma_digit_char(n as int);
        lemma_digits_value_push(s, o, o, 0);
    } else {
        lemma_digit_char(n as int % 10);
        let m = n / 10;
        lemma_nat_digits(m);
        let l2 = nat_digits(m).len() as int;
        assert(l == l2 + 1);
        assert(s.subrange(o, o + l2) =~= nat_digits(m)) by {
            assert forall|k: int| 0 <= k < l2 implies s.subrange(o, o + l2)[k] == nat_digits(m)[k] by {
                assert(s.subrange(o, o + l)[k] == nat_digits(n)[k]);
            }
        }
        lemma_digits_value_of(s, o, m);
        lemma_digits_value_push(s, o, o + l2, 0);
        assert(s[o + l2] == s.subrange(o, o + l)[l2]);
        assert(nat_digits(n)[l2] == digit_char(n as int % 10));
        assert((n / 10) * 10 + n % 10 == n);
    }
}

proof fn lemma_digits_end_all(s: Seq<char>, i: int)
    requires
        0 <= i <= s.len(),
        forall|k: int| i <= k < s.len() ==> is_digit(#[trigger] s[k]),
    ensures
        digits_end(s, i) == s.len(),
    decreases s.len() - i,
{
    if i < s.len() {
        lemma_digits_end_all(s, i + 1);
    }
}

proof fn lemma_quoted_body(s: Seq<char>, k: int)
    requires
        2 <= s.len(),
        1 <= k <= s.len() - 1,
        s[s.len() - 1] == '"',
        forall|x: int| 1 <= x < s.len() - 1 ==> #[trigger] s[x] != '"' && s[x] != '\\',
    ensures
        quoted_body_end(s, k, '"') == Some(s.len() - 1),
    decreases s.len() - k,
{
    if k < s.len() - 1 {
        lemma_quoted_body(s, k + 1);
    }
}

proof fn lemma_integer_round_trip(n: int)
    requires
        -0x8000_0000_0000_0000 <= n <= 0x7fff_ffff_ffff_ffff,
    ensures
        value(integer_text(n), 0) == Some((ValueModel::Integer(n), integer_text(n).len() as int)),
{
    let s = integer_text(n);
    let a: nat = if n < 0 {
        (-n) as nat
    } else {
        n as nat
    };
    let o: int = if n < 0 {
        1
    } else {
        0
    };
    lemma_nat_digits(a);
    assert(s.subrange(o, s.len() as int) =~= nat_digits(a));
    assert forall|k: int| o <= k < s.len() implies is_digit(#[trigger] s[k]) by {
        assert(s[k] == nat_digits(a)[k - o]);
    }
    lemma_digits_end_all(s, o);
    lemma_digits_value_of(s, o, a);
    assert(s[0] == '-' || is_digit(s[0]));
    lemma_has_prefix(s, 0, seq!['t', 'r', 'u', 'e']);
    lemma_has_prefix(s, 0, seq!['f', 'a', 'l', 's', 'e']);
    lemma_has_prefix(s, 0, seq!['n', 'u', 'l', 'l']);
    assert(!has_prefix(s, 0, seq!['t', 'r', 'u', 'e']));
    assert(!has_prefix(s, 0, seq!['f', 'a', 'l', 's', 'e']));
    assert(!has_prefix(s, 0, seq!['n', 'u', 'l', 'l']));
    let t = number_token(s, 0)->0;
    assert(number_token(s, 0) is Some);
    assert(t.int_start == o && t.int_end == s.len() && t.end == s.len());
    assert(!t.plus && !t.dot && !t.exp);
    assert(t.negative == (n < 0));
    assert(number(s, 0) == Some((ValueModel::Integer(n), s.len() as int)));
    assert(skip_ws(s, 0) == 0);
    assert(skip_ws(s, s.len() as int) == s.len());
}

proof fn lemma_string_round_trip(t: Seq<char>)
    requires
        forall|k: int| 0 <= k < t.len() ==> #[trigger] t[k] != '"' && t[k] != '\\',
    ensures
        value(seq!['"'] + t + seq!['"'], 0) == Some(
            (ValueModel::Str(t), (seq!['"'] + t + seq!['"']).len() as int),
        ),
{
    let s = seq!['"'] + t + seq!['"'];
    assert forall|x: int| 1 <= x < s.len() - 1 implies #[trigger] s[x] != '"' && s[x] != '\\' by {
        assert(s[x] == t[x - 1]);
    }
    lemma_quoted_body(s, 1);
    assert(s.subrange(1, s.len() - 1) =~= t);
    assert(quoted_string(s, 0) == Some((t, s.len() as int)));
    lemma_has_prefix(s, 0, seq!['t', 'r', 'u', 'e']);
    lemma_has_prefix(s, 0, seq!['f', 'a', 'l', 's', 'e']);
    lemma_has_prefix(s, 0, seq!['n', 'u', 'l', 'l']);
    assert(digits_end(s, 0) == 0);
    assert(number_token(s, 0) is None);
    assert(skip_ws(s, 0) == 0);
    assert(skip_ws(s, s.len() as int) == s.len());
}

proof fn lemma_digits_value_shift(s: Seq<char>, t: Seq<char>, i: int, j: int, o: int, acc: int)
    requires
        forall|k: int| i <= k < j ==> s[k] == t[k - o],
    ensures
        digits_value(s, i, j, acc) == digits_value(t, i - o, j - o, acc),
    decreases j - i,
{
    if i < j {
        lemma_digits_value_shift(s, t, i + 1, j, o, acc * 10 + digit_value(s[i]));
    }
}

proof fn lemma_digits_value_split(s: Seq<char>, i: int, m: int, j: int, acc: int)
    requires
        i <= m <= j,
    ensures
        digits_value(s, i, j, acc) == digits_value(s, m, j, digits_value(s, i, m, acc)),
    decreases m - i,
{
    if i < m {
        lemma_digits_value_split(s, i + 1, m, j, acc * 10 + digit_value(s[i]));
    }
}

proof fn lemma_digits_value_zeros(s: Seq<char>, i: int, j: int)
    requires
        forall|k: int| i <= k < j ==> s[k] == '0',
    ensures
        digits_value(s, i, j, 0) == 0,
    decreases j - i,
{
    if i < j {
        lemma_digits_value_zeros(s, i + 1, j);
    }
}

proof fn lemma_digits_end_at(s: Seq<char>, i: int, j: int)
    requires
        0 <= i <= j <= s.len(),
        forall|k: int| i <= k < j ==> is_digit(#[trigger] s[k]),
        j == s.len() || !is_digit(s[j]),
    ensures
        digits_end(s, i) == j,
    decreases j - i,
{
    if i < j {
        lemma_digits_end_at(s, i + 1, j);
    }
}

#[verifier::rlimit(60)]
proof fn lemma_decimal_round_trip(m: int, sc: nat)
    requires
        -0x8000_0000_0000_0000 <= m <= 0x7fff_ffff_ffff_ffff,
        sc <= 18,
        m != 0 || sc == 0,
    ensures
        value(decimal_text(m, sc), 0) == Some(
            (ValueModel::Double(m, sc), decimal_text(m, sc).len() as int),
        ),
{
    let s = decimal_text(m, sc);
    let a: nat = if m < 0 {
        (-m) as nat
    } else {
        m as nat
    };
    let nd = nat_digits(a);
    lemma_nat_digits(a);
    let w = zero_padded(nd, sc + 1);
    let z: int = w.len() - nd.len();
    assert(w.len() >= sc + 1);
    assert(forall|k: int| 0 <= k < z ==> w[k] == '0');
    assert(forall|k: int| z <= k < w.len() ==> w[k] == nd[k - z]);
    assert forall|k: int| 0 <= k < w.len() implies is_digit(#[trigger] w[k]) by {
        if k >= z {
            assert(w[k] == nd[k - z]);
        }
    }
    let li = w.len() - sc;
    let o: int = if m < 0 {
        1
    } else {
        0
    };
    let int_stop = o + li;
    assert(s.len() == o + w.len() + 1);
    assert(forall|k: int| o <= k < int_stop ==> s[k] == w[k - o]);
    assert(s[int_stop] == '.');
    assert(forall|k: int| int_stop + 1 <= k < s.len() ==> s[k] == w[k - o - 1]);
    assert forall|k: int| o <= k < int_stop implies is_digit(#[trigger] s[k]) by {
        assert(s[k] == w[k - o]);
    }
    assert forall|k: int| int_stop + 1 <= k < s.len() implies is_digit(#[trigger] s[k]) by {
        assert(s[k] == w[k - o - 1]);
    }
    lemma_digits_end_at(s, o, int_stop);
    lemma_digits_end_at(s, int_stop + 1, s.len() as int);
    // the digits on both sides of the point read as those of `w`
    lemma_digits_value_shift(s, w, o, int_stop, o, 0);
    let x = digits_value(w, 0, li, 0);
    lemma_digits_value_shift(s, w, int_stop + 1, s.len() as int, o + 1, x);
    lemma_digits_value_split(w, 0, li, w.len() as int, 0);
    lemma_digits_value_split(w, 0, z, w.len() as int, 0);
    lemma_digits_value_zeros(w, 0, z);
    assert(w.subrange(z, z + nd.len()) =~= nd);
    lemma_digits_value_of(w, z, a);
    assert(digits_value(s, int_stop + 1, s.len() as int, digits_value(s, o, int_stop, 0)) == a);
    // keywords do not match
    assert(s[0] == '-' || is_digit(s[0]));
    lemma_has_prefix(s, 0, seq!['t', 'r', 'u', 'e']);
    lemma_has_prefix(s, 0, seq!['f', 'a', 'l', 's', 'e']);
    lemma_has_prefix(s, 0, seq!['n', 'u', 'l', 'l']);
    assert(!has_prefix(s, 0, seq!['t', 'r', 'u', 'e']));
    assert(!has_prefix(s, 0, seq!['f', 'a', 'l', 's', 'e']));
    assert(!has_prefix(s, 0, seq!['n', 'u', 'l', 'l']));
    let t = number_token(s, 0)->0;
    assert(number_token(s, 0) is Some);
    assert(t.int_start == o && t.int_end == int_stop && t.dot && t.frac_start == int_stop + 1);
    assert(t.frac_end == s.len() && !t.exp && t.end == s.len());
    assert(t.negative == (m < 0));
    assert(digits_value(s, t.exp_start, t.exp_end, 0) == 0);
    assert(t.frac_end - t.frac_start == sc);
    assert(crate::grammar::pow10(0) == 1);
    assert(number(s, 0) == Some((ValueModel::Double(m, sc), s.len() as int)));
    assert(skip_ws(s, 0) == 0);
    assert(skip_ws(s, s.len() as int) == s.len());
}

/// Parsing a literal's text gives back that literal, having consumed the
/// whole text.
pub proof fn lemma_literal_round_trip(v: ValueModel)
    requires
        has_literal_text(v),
    ensures
        value(literal_text(v), 0) == Some((v, literal_text(v).len() as int)),
{
    let s = literal_text(v);
    match v {
        ValueModel::Integer(n) => {
            lemma_integer_round_trip(n);
        },
        ValueModel::Str(t) => {
            lemma_string_round_trip(t);
        },
        ValueModel::Double(m, sc) => {
            lemma_decimal_round_trip(m, sc);
        },
        _ => {
            assert(s.subrange(0, s.len() as int) =~= s);
            assert(skip_ws(s, 0) == 0);
            assert(skip_ws(s, s.len() as int) == s.len());
            if v == ValueModel::Boolean(false) {
                lemma_has_prefix(s, 0, seq!['t', 'r', 'u', 'e']);
                assert(!has_prefix(s, 0, seq!['t', 'r', 'u', 'e']));
            }
            if v == ValueModel::Null {
                lemma_has_prefix(s, 0, seq!['t', 'r', 'u', 'e']);
                lemma_has_prefix(s, 0, seq!['f', 'a', 'l', 's', 'e']);
                assert(!has_prefix(s, 0, seq!['t', 'r', 'u', 'e']));
                assert(!has_prefix(s, 0, seq!['f', 'a', 'l', 's', 'e']));
            }
        },
    }
}

} // verus!
