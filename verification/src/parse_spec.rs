//! The grammar, as spec-level parsing functions over a character sequence.
//! Each function takes the text and a position and yields the parsed value
//! and the position one past it, or `None` on a grammar violation. The
//! verified parser is proved to return exactly these results.
//!
//! Grammar notes: a document is one object; `{ }` and `[ ]` may be empty;
//! a trailing comma before a closing brace or bracket is tolerated (the
//! serializer emits one after every child); strings run verbatim to the
//! next quote, with no escapes; numbers are unsigned decimals with at most
//! one point and no exponent; keys must be non-empty.

use vstd::prelude::*;

use crate::model::{is_digit, ValueModel};

verus! {

/// Skippable whitespace between tokens.
pub open spec fn is_ws(c: char) -> bool {
    c == ' ' || c == '\n' || c == '\t' || c == '\r'
}

/// A character that ends a number token.
pub open spec fn is_num_end(c: char) -> bool {
    is_ws(c) || c == ',' || c == ']' || c == '}'
}

pub open spec fn is_digit_or_dot(c: char) -> bool {
    is_digit(c) || c == '.'
}

/// The first position at or after `i` holding a non-whitespace character
/// (or the end of the text).
pub open spec fn skip_ws(s: Seq<char>, i: int) -> int
    decreases s.len() - i,
{
    if 0 <= i < s.len() && is_ws(s[i]) {
        skip_ws(s, i + 1)
    } else {
        i
    }
}

pub proof fn lemma_skip_ws(s: Seq<char>, i: int)
    requires
        0 <= i <= s.len(),
    ensures
        i <= skip_ws(s, i) <= s.len(),
        skip_ws(s, i) < s.len() ==> !is_ws(s[skip_ws(s, i)]),
        forall|k: int| i <= k < skip_ws(s, i) ==> is_ws(#[trigger] s[k]),
    decreases s.len() - i,
{
    if i < s.len() && is_ws(s[i]) {
        lemma_skip_ws(s, i + 1);
    }
}

/// The position of the first quote at or after `i` (or the end of the text).
pub open spec fn find_quote(s: Seq<char>, i: int) -> int
    decreases s.len() - i,
{
    if 0 <= i < s.len() {
        if s[i] == '"' {
            i
        } else {
            find_quote(s, i + 1)
        }
    } else {
        s.len() as int
    }
}

/// A quoted string at `i`: the verbatim characters up to the next quote.
/// Fails at the end of the text (an unterminated string).
pub open spec fn parse_string_at(s: Seq<char>, i: int) -> Option<(Seq<char>, int)> {
    if !(0 <= i < s.len() && s[i] == '"') {
        None
    } else {
        let j = find_quote(s, i + 1);
        if j >= s.len() {
            None
        } else {
            Some((s.subrange(i + 1, j), j + 1))
        }
    }
}

/// The end of the run of digits and points starting at `i`.
pub open spec fn num_run_end(s: Seq<char>, i: int) -> int
    decreases s.len() - i,
{
    if 0 <= i < s.len() && is_digit_or_dot(s[i]) {
        num_run_end(s, i + 1)
    } else {
        i
    }
}

/// The position of the first decimal point at or after `i` (or the end).
pub open spec fn dot_from(t: Seq<char>, i: int) -> int
    decreases t.len() - i,
{
    if 0 <= i < t.len() {
        if t[i] == '.' {
            i
        } else {
            dot_from(t, i + 1)
        }
    } else {
        t.len() as int
    }
}

pub open spec fn all_digits(t: Seq<char>) -> bool {
    forall|k: int| 0 <= k < t.len() ==> is_digit(#[trigger] t[k])
}

/// Splits a number token into integer and fraction digits, per the grammar
/// `digits ('.' digits)?`; anything else — an empty side, a second point —
/// is malformed.
pub open spec fn num_token_parts(t: Seq<char>) -> Option<(Seq<char>, Seq<char>)> {
    let d = dot_from(t, 0);
    if d == t.len() {
        if t.len() > 0 && all_digits(t) {
            Some((t, Seq::empty()))
        } else {
            None
        }
    } else {
        let int_part = t.subrange(0, d);
        let frac_part = t.subrange(d + 1, t.len() as int);
        if int_part.len() > 0 && frac_part.len() > 0 && all_digits(int_part) && all_digits(
            frac_part,
        ) {
            Some((int_part, frac_part))
        } else {
            None
        }
    }
}

/// Drops leading zeros, keeping at least one digit.
pub open spec fn strip_leading_zeros(t: Seq<char>) -> Seq<char>
    decreases t.len(),
{
    if t.len() > 1 && t[0] == '0' {
        strip_leading_zeros(t.drop_first())
    } else {
        t
    }
}

/// Drops trailing zeros, possibly down to the empty sequence.
pub open spec fn strip_trailing_zeros(t: Seq<char>) -> Seq<char>
    decreases t.len(),
{
    if t.len() > 0 && t[t.len() - 1] == '0' {
        strip_trailing_zeros(t.drop_last())
    } else {
        t
    }
}

/// Stripping leading zeros keeps the characters from the first non-zero
/// digit on (capped at the last character).
pub proof fn lemma_strip_leading(t: Seq<char>, k: int)
    requires
        0 <= k < t.len(),
        forall|j: int| 0 <= j < k ==> #[trigger] t[j] == '0',
        t[k] != '0' || k == t.len() - 1,
    ensures
        strip_leading_zeros(t) == t.subrange(k, t.len() as int),
    decreases k,
{
    if k == 0 {
        assert(t.subrange(0, t.len() as int) =~= t);
    } else {
        lemma_strip_leading(t.drop_first(), k - 1);
        assert(t.drop_first().subrange(k - 1, t.drop_first().len() as int) =~= t.subrange(
            k,
            t.len() as int,
        ));
    }
}

/// Stripping trailing zeros keeps the characters before the first of the
/// trailing zeros.
pub proof fn lemma_strip_trailing(t: Seq<char>, m: int)
    requires
        0 <= m <= t.len(),
        forall|j: int| m <= j < t.len() ==> #[trigger] t[j] == '0',
        m == 0 || t[m - 1] != '0',
    ensures
        strip_trailing_zeros(t) == t.subrange(0, m),
    decreases t.len() - m,
{
    if m == t.len() {
        assert(t.subrange(0, m) =~= t);
    } else {
        lemma_strip_trailing(t.drop_last(), m);
        assert(t.drop_last().subrange(0, m) =~= t.subrange(0, m));
    }
}

/// Normalizing a digit run yields a well-formed number.
pub proof fn lemma_strip_wf(int_part: Seq<char>, frac_part: Seq<char>)
    requires
        int_part.len() > 0,
        all_digits(int_part),
        all_digits(frac_part),
    ensures
        crate::model::wf_int_digits(strip_leading_zeros(int_part)),
        crate::model::wf_frac_digits(strip_trailing_zeros(frac_part)),
    decreases int_part.len() + frac_part.len(),
{
    if int_part.len() > 1 && int_part[0] == '0' {
        lemma_strip_wf(int_part.drop_first(), frac_part);
    } else if frac_part.len() > 0 && frac_part[frac_part.len() - 1] == '0' {
        lemma_strip_wf(int_part, frac_part.drop_last());
    }
}

/// A number at `i`: the digit run, checked against the grammar and against
/// its terminator, then normalized.
pub open spec fn parse_number_at(s: Seq<char>, i: int) -> Option<((Seq<char>, Seq<char>), int)> {
    let j = num_run_end(s, i);
    if j < s.len() && !is_num_end(s[j]) {
        None
    } else {
        match num_token_parts(s.subrange(i, j)) {
            Some(p) => Some(((strip_leading_zeros(p.0), strip_trailing_zeros(p.1)), j)),
            None => None,
        }
    }
}

/// The fixed characters of `lit` stand at `i`.
pub open spec fn literal_at(s: Seq<char>, i: int, lit: Seq<char>) -> bool {
    0 <= i && i + lit.len() <= s.len() && s.subrange(i, i + lit.len()) == lit
}

/// A value at `i`, dispatched on its first character: a quote starts a
/// string, `t`/`f` a boolean literal, a digit or point a number, `n` the
/// null literal, and braces or brackets a nested object or array. Any
/// other character is a grammar violation.
pub open spec fn parse_value_at(s: Seq<char>, i: int) -> Option<(ValueModel, int)>
    decreases s.len() - i, 1int,
{
    if !(0 <= i < s.len()) {
        None
    } else {
        let c = s[i];
        if c == '"' {
            match parse_string_at(s, i) {
                Some((t, j)) => Some((ValueModel::Str(t), j)),
                None => None,
            }
        } else if c == 't' || c == 'f' {
            if literal_at(s, i, seq!['t', 'r', 'u', 'e']) {
                Some((ValueModel::Bool(true), i + 4))
            } else if literal_at(s, i, seq!['f', 'a', 'l', 's', 'e']) {
                Some((ValueModel::Bool(false), i + 5))
            } else {
                None
            }
        } else if is_digit(c) || c == '.' {
            match parse_number_at(s, i) {
                Some((p, j)) => Some((ValueModel::Number(p.0, p.1), j)),
                None => None,
            }
        } else if c == 'n' {
            if literal_at(s, i, seq!['n', 'u', 'l', 'l']) {
                Some((ValueModel::Null, i + 4))
            } else {
                None
            }
        } else if c == '{' {
            match parse_object_at(s, i) {
                Some((fields, j)) => Some((ValueModel::Object(fields), j)),
                None => None,
            }
        } else if c == '[' {
            match parse_array_at(s, i) {
                Some((elems, j)) => Some((ValueModel::Array(elems), j)),
                None => None,
            }
        } else {
            None
        }
    }
}

/// An object at `i`: `{`, optionally whitespace and `}` for an empty
/// object, else its members.
pub open spec fn parse_object_at(s: Seq<char>, i: int) -> Option<
    (Seq<(Seq<char>, ValueModel)>, int),
>
    decreases s.len() - i, 0int,
{
    if !(0 <= i < s.len() && s[i] == '{') {
        None
    } else {
        let j = skip_ws(s, i + 1);
        if j < s.len() && s[j] == '}' {
            Some((Seq::empty(), j + 1))
        } else if !(i < j <= s.len()) {
            // cannot happen; keeps the recursion well-founded
            None
        } else {
            parse_members(s, j)
        }
    }
}

/// One or more `"key": value` members starting at the opening quote of the
/// first key, each followed by `}` to close, or `,` and — after a tolerated
/// trailing comma — either `}` or the next member.
pub open spec fn parse_members(s: Seq<char>, i: int) -> Option<(Seq<(Seq<char>, ValueModel)>, int)>
    decreases s.len() - i, 2int,
{
    match parse_string_at(s, i) {
        None => None,
        Some((key, j)) => {
            if key.len() == 0 {
                None
            } else {
                let j2 = skip_ws(s, j);
                if !(j2 < s.len() && s[j2] == ':') {
                    None
                } else {
                    let j3 = skip_ws(s, j2 + 1);
                    if !(i <= j3 <= s.len()) {
                        // cannot happen; keeps the recursion well-founded
                        None
                    } else {
                        match parse_value_at(s, j3) {
                            None => None,
                            Some((v, j4)) => {
                                let j5 = skip_ws(s, j4);
                                if j5 < s.len() && s[j5] == '}' {
                                    Some((seq![(key, v)], j5 + 1))
                                } else if j5 < s.len() && s[j5] == ',' {
                                    let j6 = skip_ws(s, j5 + 1);
                                    if j6 < s.len() && s[j6] == '}' {
                                        Some((seq![(key, v)], j6 + 1))
                                    } else if !(i < j6 <= s.len()) {
                                        // cannot happen; keeps the recursion well-founded
                                        None
                                    } else {
                                        match parse_members(s, j6) {
                                            None => None,
                                            Some((rest, j7)) => Some((seq![(key, v)] + rest, j7)),
                                        }
                                    }
                                } else {
                                    None
                                }
                            },
                        }
                    }
                }
            }
        },
    }
}

/// An array at `i`: `[`, optionally whitespace and `]` for an empty array,
/// else its elements.
pub open spec fn parse_array_at(s: Seq<char>, i: int) -> Option<(Seq<ValueModel>, int)>
    decreases s.len() - i, 0int,
{
    if !(0 <= i < s.len() && s[i] == '[') {
        None
    } else {
        let j = skip_ws(s, i + 1);
        if j < s.len() && s[j] == ']' {
            Some((Seq::empty(), j + 1))
        } else if !(i < j <= s.len()) {
            // cannot happen; keeps the recursion well-founded
            None
        } else {
            parse_elements(s, j)
        }
    }
}

/// One or more array elements starting at the first character of the first
/// element, mirroring the member rule of objects, with `]` closing.
pub open spec fn parse_elements(s: Seq<char>, i: int) -> Option<(Seq<ValueModel>, int)>
    decreases s.len() - i, 2int,
{
    match parse_value_at(s, i) {
        None => None,
        Some((v, j)) => {
            let j2 = skip_ws(s, j);
            if j2 < s.len() && s[j2] == ']' {
                Some((seq![v], j2 + 1))
            } else if j2 < s.len() && s[j2] == ',' {
                let j3 = skip_ws(s, j2 + 1);
                if j3 < s.len() && s[j3] == ']' {
                    Some((seq![v], j3 + 1))
                } else if !(i < j3 <= s.len()) {
                    // cannot happen; keeps the recursion well-founded
                    None
                } else {
                    match parse_elements(s, j3) {
                        None => None,
                        Some((rest, j4)) => Some((seq![v] + rest, j4)),
                    }
                }
            } else {
                None
            }
        },
    }
}

/// A whole document: leading whitespace, then one object. Text after the
/// object is ignored.
pub open spec fn parse_document(s: Seq<char>) -> Option<Seq<(Seq<char>, ValueModel)>> {
    match parse_object_at(s, skip_ws(s, 0)) {
        Some((fields, _j)) => Some(fields),
        None => None,
    }
}

} // verus!
