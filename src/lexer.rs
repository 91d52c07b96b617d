//! Executable scanners for the lexical rules of the grammar: whitespace,
//! path segments, dotted paths and quoted strings.
use vstd::prelude::*;
use crate::ast::strings_view;
use crate::grammar;
use crate::text::{string_from_chars, lemma_push_concat};

verus! {

/// Skips horizontal whitespace.
pub fn skip_ws(s: &Vec<char>, i: usize) -> (r: usize)
    requires
        i <= s@.len(),
    ensures
        r == grammar::skip_ws(s@, i as int),
        i <= r <= s@.len(),
{
    let mut j = i;
    while j < s.len() && (s[j] == ' ' || s[j] == '\t')
        invariant
            i <= j <= s@.len(),
            grammar::skip_ws(s@, j as int) == grammar::skip_ws(s@, i as int),
        decreases s@.len() - j,
    {
        j += 1;
    }
    j
}

fn is_segment_stop(c: char) -> (r: bool)
    ensures
        r == grammar::is_segment_stop(c),
{
    c == '.' || c == ' ' || c == '\t' || c == '=' || c == '<' || c == '>' || c == '!' || c == '&'
        || c == '|' || c == '^' || c == '(' || c == ')' || c == '\\'
}

fn is_segment_escapable(c: char) -> (r: bool)
    ensures
        r == grammar::is_segment_escapable(c),
{
    c == '\\' || c == '.' || c == ' ' || c == '\t' || c == '(' || c == ')'
}

/// The run of segment characters at `i`, escapes resolved.
pub fn scan_segment(s: &Vec<char>, i: usize) -> (r: Option<(Vec<char>, usize)>)
    requires
        i <= s@.len(),
    ensures
        match r {
            Some((t, j)) => grammar::scan_segment(s@, i as int) == Some((t@, j as int)) && i <= j
                <= s@.len(),
            None => grammar::scan_segment(s@, i as int) is None,
        },
{
    let mut out: Vec<char> = Vec::new();
    let mut j = i;
    loop
        invariant
            i <= j <= s@.len(),
            grammar::scan_segment(s@, i as int) == (match grammar::scan_segment(s@, j as int) {
                Some((t, k)) => Some((out@ + t, k)),
                None => None,
            }),
        decreases s@.len() - j,
    {
        if j < s.len() && !is_segment_stop(s[j]) {
            proof {
                lemma_push_concat(out@, s@[j as int]);
            }
            out.push(s[j]);
            j += 1;
        } else if j < s.len() && s[j] == '\\' {
            if j + 1 < s.len() && is_segment_escapable(s[j + 1]) {
                proof {
                    lemma_push_concat(out@, s@[j + 1]);
                }
                out.push(s[j + 1]);
                j += 2;
            } else {
                return None;
            }
        } else {
            assert(out@ + Seq::<char>::empty() =~= out@);
            return Some((out, j));
        }
    }
}

/// A non-empty path segment at `i`, as a string.
pub fn segment(s: &Vec<char>, i: usize) -> (r: Option<(String, usize)>)
    requires
        i <= s@.len(),
    ensures
        match r {
            Some((t, j)) => grammar::segment(s@, i as int) == Some((t@, j as int)) && i <= j
                <= s@.len(),
            None => grammar::segment(s@, i as int) is None,
        },
{
    match scan_segment(s, i) {
        Some((t, j)) => {
            if t.len() > 0 {
                Some((string_from_chars(&t), j))
            } else {
                None
            }
        },
        None => None,
    }
}

/// One or more segments separated by `.`.
pub fn dotted_path(s: &Vec<char>, i: usize) -> (r: Option<(Vec<String>, usize)>)
    requires
        i <= s@.len(),
    ensures
        match r {
            Some((p, j)) => grammar::dotted_path(s@, i as int) == Some((strings_view(p@), j as int))
                && i <= j <= s@.len(),
            None => grammar::dotted_path(s@, i as int) is None,
        },
    decreases s@.len() - i,
{
    match segment(s, i) {
        Some((t, j)) => {
            let ghost tv = t@;
            if i < j && j < s.len() && s[j] == '.' {
                match dotted_path(s, j + 1) {
                    Some((rest, k)) => {
                        let ghost old_rest = rest@;
                        let mut rest = rest;
                        rest.insert(0, t);
                        assert(strings_view(rest@) =~= seq![tv] + strings_view(old_rest));
                        Some((rest, k))
                    },
                    None => {
                        let mut v: Vec<String> = Vec::new();
                        v.push(t);
                        assert(strings_view(v@) =~= seq![tv]);
                        Some((v, j))
                    },
                }
            } else {
                let mut v: Vec<String> = Vec::new();
                v.push(t);
                assert(strings_view(v@) =~= seq![tv]);
                Some((v, j))
            }
        },
        None => None,
    }
}

/// A dotted path with surrounding whitespace.
pub fn unescaped_path(s: &Vec<char>, i: usize) -> (r: Option<(Vec<String>, usize)>)
    requires
        i <= s@.len(),
    ensures
        match r {
            Some((p, j)) => grammar::unescaped_path(s@, i as int) == Some(
                (strings_view(p@), j as int),
            ) && i <= j <= s@.len(),
            None => grammar::unescaped_path(s@, i as int) is None,
        },
{
    let a = skip_ws(s, i);
    match dotted_path(s, a) {
        Some((p, j)) => Some((p, skip_ws(s, j))),
        None => None,
    }
}

/// Position of the closing quote `q` of a quoted body starting at `i`.
fn quoted_body_end(s: &Vec<char>, i: usize, q: char) -> (r: Option<usize>)
    requires
        i <= s@.len(),
    ensures
        match r {
            Some(e) => grammar::quoted_body_end(s@, i as int, q) == Some(e as int) && i <= e
                < s@.len(),
            None => grammar::quoted_body_end(s@, i as int, q) is None,
        },
{
    let mut j = i;
    while j < s.len()
        invariant
            i <= j <= s@.len(),
            grammar::quoted_body_end(s@, j as int, q) == grammar::quoted_body_end(s@, i as int, q),
        decreases s@.len() - j,
    {
        if s[j] == q {
            return Some(j);
        } else if s[j] == '\\' {
            if j + 1 < s.len() && (s[j + 1] == '\\' || s[j + 1] == q) {
                j += 2;
            } else {
                return None;
            }
        } else {
            j += 1;
        }
    }
    None
}

/// A `"..."` or `'...'` literal at `i`: its body, with escapes kept verbatim.
pub fn quoted_string(s: &Vec<char>, i: usize) -> (r: Option<(String, usize)>)
    requires
        i <= s@.len(),
    ensures
        match r {
            Some((t, j)) => grammar::quoted_string(s@, i as int) == Some((t@, j as int)) && i < j
                <= s@.len(),
            None => grammar::quoted_string(s@, i as int) is None,
        },
{
    if i < s.len() && (s[i] == '"' || s[i] == '\'') {
        match quoted_body_end(s, i + 1, s[i]) {
            Some(e) => {
                let mut body: Vec<char> = Vec::new();
                let mut k = i + 1;
                while k < e
                    invariant
                        i + 1 <= k <= e,
                        e < s@.len(),
                        body@ == s@.subrange(i + 1, k as int),
                    decreases e - k,
                {
                    body.push(s[k]);
                    k += 1;
                    assert(body@ =~= s@.subrange(i + 1, k as int));
                }
                Some((string_from_chars(&body), e + 1))
            },
            None => None,
        }
    } else {
        None
    }
}

} // verus!
