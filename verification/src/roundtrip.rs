//! The round-trip law: a document built from well-formed values whose keys
//! are non-empty and whose keys and strings carry no quote character parses
//! back, from its own rendering, to exactly the same document.

use vstd::prelude::*;

use crate::model::{wf_elems, wf_fields, wf_frac_digits, wf_int_digits, wf_value, ValueModel};
use crate::number::number_text;
use crate::parse_spec::{
    all_digits, dot_from, find_quote, is_digit_or_dot, is_num_end, is_ws, literal_at,
    num_run_end, num_token_parts, parse_array_at, parse_document, parse_elements, parse_members,
    parse_number_at, parse_object_at, parse_string_at, parse_value_at, skip_ws,
    strip_leading_zeros, strip_trailing_zeros,
};
use crate::render::{render_array, render_elems, render_fields, render_object, render_value};

verus! {

/// No quote character anywhere in the text.
pub open spec fn no_quote(s: Seq<char>) -> bool {
    forall|k: int| 0 <= k < s.len() ==> #[trigger] s[k] != '"'
}

pub open spec fn all_spaces(s: Seq<char>) -> bool {
    forall|k: int| 0 <= k < s.len() ==> #[trigger] s[k] == ' '
}

/// The value survives rendering: its strings carry no quote, and every
/// nested key is non-empty and carries no quote.
pub open spec fn renderable_value(m: ValueModel) -> bool
    decreases m, 1int,
{
    match m {
        ValueModel::Str(s) => no_quote(s),
        ValueModel::Array(elems) => renderable_elems(elems),
        ValueModel::Object(fields) => renderable_fields(fields),
        _ => true,
    }
}

pub open spec fn renderable_elems(elems: Seq<ValueModel>) -> bool
    decreases elems, 0int,
{
    if elems.len() == 0 {
        true
    } else {
        renderable_value(elems[0]) && renderable_elems(elems.drop_first())
    }
}

pub open spec fn renderable_fields(fields: Seq<(Seq<char>, ValueModel)>) -> bool
    decreases fields, 0int,
{
    if fields.len() == 0 {
        true
    } else {
        fields[0].0.len() > 0 && no_quote(fields[0].0) && renderable_value(fields[0].1)
            && renderable_fields(fields.drop_first())
    }
}

/// Each character of a text standing at `i` stands at `i` plus its offset.
proof fn lemma_literal_index(s: Seq<char>, i: int, t: Seq<char>)
    requires
        literal_at(s, i, t),
    ensures
        forall|k: int| 0 <= k < t.len() ==> s[i + k] == #[trigger] t[k],
{
    assert(forall|k: int|
        0 <= k < t.len() ==> s[i + k] == #[trigger] s.subrange(i, i + t.len())[k]);
}

/// A concatenation standing at `i` is its left part at `i` and its right
/// part just after.
proof fn lemma_literal_split(s: Seq<char>, i: int, a: Seq<char>, b: Seq<char>)
    requires
        literal_at(s, i, a + b),
    ensures
        literal_at(s, i, a),
        literal_at(s, i + a.len(), b),
{
    assert(s.subrange(i, i + a.len()) =~= a) by {
        assert(forall|k: int|
            0 <= k < a.len() + b.len() ==> s[i + k] == #[trigger] (a + b)[k]) by {
            lemma_literal_index(s, i, a + b);
        }
    }
    assert forall|k2: int| 0 <= k2 < b.len() implies s[i + a.len() + k2] == b[k2] by {
        lemma_literal_index(s, i, a + b);
        assert(s[i + (a.len() + k2)] == (a + b)[a.len() + k2]);
    }
    assert(s.subrange(i + a.len(), i + a.len() + b.len()) =~= b);
}

/// `skip_ws` lands exactly after a known whitespace run.
proof fn lemma_skip_ws_exact(s: Seq<char>, i: int, j: int)
    requires
        0 <= i <= j <= s.len(),
        forall|k: int| i <= k < j ==> is_ws(#[trigger] s[k]),
        j == s.len() || !is_ws(s[j]),
    ensures
        skip_ws(s, i) == j,
    decreases j - i,
{
    if i < j {
        lemma_skip_ws_exact(s, i + 1, j);
    }
}

/// `find_quote` lands exactly on a known first quote.
proof fn lemma_find_quote_exact(s: Seq<char>, i: int, j: int)
    requires
        0 <= i <= j < s.len(),
        forall|k: int| i <= k < j ==> #[trigger] s[k] != '"',
        s[j] == '"',
    ensures
        find_quote(s, i) == j,
    decreases j - i,
{
    if i < j {
        lemma_find_quote_exact(s, i + 1, j);
    }
}

/// `num_run_end` lands exactly after a known digit run.
proof fn lemma_num_run_end_exact(s: Seq<char>, i: int, j: int)
    requires
        0 <= i <= j <= s.len(),
        forall|k: int| i <= k < j ==> is_digit_or_dot(#[trigger] s[k]),
        j == s.len() || !is_digit_or_dot(s[j]),
    ensures
        num_run_end(s, i) == j,
    decreases j - i,
{
    if i < j {
        lemma_num_run_end_exact(s, i + 1, j);
    }
}

/// `dot_from` lands exactly on a known first point.
proof fn lemma_dot_from_exact(t: Seq<char>, i: int, j: int)
    requires
        0 <= i <= j <= t.len(),
        forall|k: int| i <= k < j ==> #[trigger] t[k] != '.',
        j == t.len() || t[j] == '.',
    ensures
        dot_from(t, i) == j,
    decreases j - i,
{
    if i < j {
        lemma_dot_from_exact(t, i + 1, j);
    }
}

/// A rendered string parses back to its own content.
proof fn lemma_parse_string_render(s: Seq<char>, i: int, t: Seq<char>)
    requires
        literal_at(s, i, seq!['"'] + t + seq!['"']),
        no_quote(t),
    ensures
        parse_string_at(s, i) == Some((t, i + t.len() + 2)),
{
    let lit = seq!['"'] + t + seq!['"'];
    lemma_literal_index(s, i, lit);
    assert(lit[0] == '"');
    assert(lit[t.len() as int + 1] == '"');
    assert(forall|k: int| 0 <= k < t.len() ==> lit[k + 1] == #[trigger] t[k]);
    assert(s[i] == '"');
    assert(s[i + t.len() + 1] == '"');
    assert forall|k: int| i + 1 <= k < i + 1 + t.len() implies s[k] != '"' by {
        assert(s[i + (k - i)] == lit[k - i]);
        assert(lit[k - i] == t[k - i - 1]);
        assert(t[k - i - 1] != '"');
    }
    lemma_find_quote_exact(s, i + 1, i + 1 + t.len());
    assert forall|k2: int| 0 <= k2 < t.len() implies s.subrange(i + 1, i + 1 + t.len())[k2]
        == t[k2] by {
        assert(s[i + (k2 + 1)] == lit[k2 + 1]);
    }
    assert(s.subrange(i + 1, i + 1 + t.len()) =~= t);
}

/// A well-formed number's text splits back into its own two parts.
proof fn lemma_num_token_parts(int_part: Seq<char>, frac_part: Seq<char>)
    requires
        wf_int_digits(int_part),
        wf_frac_digits(frac_part),
    ensures
        num_token_parts(number_text(int_part, frac_part)) == Some((int_part, frac_part)),
{
    let t = number_text(int_part, frac_part);
    if frac_part.len() == 0 {
        assert(t == int_part);
        lemma_dot_from_exact(t, 0, t.len() as int);
        assert(all_digits(t));
    } else {
        assert(t == int_part + seq!['.'] + frac_part);
        assert(forall|k: int|
            0 <= k < int_part.len() ==> #[trigger] t[k] == int_part[k] && t[k] != '.');
        assert(t[int_part.len() as int] == '.');
        lemma_dot_from_exact(t, 0, int_part.len() as int);
        assert(t.subrange(0, int_part.len() as int) =~= int_part);
        assert(t.subrange(int_part.len() as int + 1, t.len() as int) =~= frac_part);
    }
}

/// A rendered well-formed number parses back to its own parts: its digits
/// are already normalized, so stripping changes nothing.
proof fn lemma_parse_number_render(s: Seq<char>, i: int, int_part: Seq<char>, frac_part: Seq<char>)
    requires
        wf_int_digits(int_part),
        wf_frac_digits(frac_part),
        literal_at(s, i, number_text(int_part, frac_part)),
        i + number_text(int_part, frac_part).len() < s.len(),
        is_num_end(s[i + number_text(int_part, frac_part).len()]),
    ensures
        parse_number_at(s, i) == Some(
            ((int_part, frac_part), i + number_text(int_part, frac_part).len()),
        ),
{
    let t = number_text(int_part, frac_part);
    let j = i + t.len();
    lemma_literal_index(s, i, t);
    assert forall|k: int| 0 <= k < t.len() implies is_digit_or_dot(#[trigger] t[k]) by {
        if frac_part.len() > 0 {
            if k < int_part.len() {
                assert(t[k] == int_part[k]);
            } else if k == int_part.len() {
                assert(t[k] == '.');
            } else {
                assert(t[k] == frac_part[k - int_part.len() - 1]);
            }
        }
    }
    assert forall|k: int| i <= k < j implies is_digit_or_dot(#[trigger] s[k]) by {
        assert(s[i + (k - i)] == t[k - i]);
    }
    assert(!is_digit_or_dot(s[j]));
    lemma_num_run_end_exact(s, i, j);
    assert(s.subrange(i, j) == t);
    lemma_num_token_parts(int_part, frac_part);
    assert(strip_leading_zeros(int_part) == int_part);
    assert(strip_trailing_zeros(frac_part) == frac_part);
}

/// The quoted form of a text.
pub open spec fn quoted(t: Seq<char>) -> Seq<char> {
    seq!['"'] + t + seq!['"']
}

/// The text of an object body from the opening quote of its first key to
/// the closing brace: each member is its quoted key, `: `, its value and a
/// comma; members after the first start on a fresh indented line.
pub open spec fn members_text(
    fields: Seq<(Seq<char>, ValueModel)>,
    pad2: Seq<char>,
    pad: Seq<char>,
) -> Seq<char>
    decreases fields,
{
    if fields.len() == 0 {
        Seq::empty()
    } else {
        quoted(fields[0].0) + seq![':', ' '] + render_value(fields[0].1, pad2) + seq![','] + (
        if fields.len() == 1 {
            seq!['\n'] + pad + seq!['}']
        } else {
            seq!['\n'] + pad2 + members_text(fields.drop_first(), pad2, pad)
        })
    }
}

/// The text of an array body from the first character of its first element
/// to the closing bracket.
pub open spec fn elements_text(elems: Seq<ValueModel>, pad2: Seq<char>, pad: Seq<char>) -> Seq<
    char,
>
    decreases elems,
{
    if elems.len() == 0 {
        Seq::empty()
    } else {
        render_value(elems[0], pad2) + seq![','] + (if elems.len() == 1 {
            seq!['\n'] + pad + seq![']']
        } else {
            seq!['\n'] + pad2 + elements_text(elems.drop_first(), pad2, pad)
        })
    }
}

/// An object's rendering after its opening brace is one newline, the inner
/// indentation, and its body text.
proof fn lemma_object_text(fields: Seq<(Seq<char>, ValueModel)>, pad2: Seq<char>, pad: Seq<char>)
    requires
        fields.len() > 0,
    ensures
        render_fields(fields, pad2) + seq!['\n'] + pad + seq!['}'] == seq!['\n'] + pad2
            + members_text(fields, pad2, pad),
    decreases fields.len(),
{
    let line0 = seq!['\n'] + pad2 + seq!['"'] + fields[0].0 + seq!['"', ':', ' '] + render_value(
        fields[0].1,
        pad2,
    ) + seq![','];
    let rest = fields.drop_first();
    assert(render_fields(fields, pad2) == line0 + render_fields(rest, pad2));
    if fields.len() == 1 {
        assert(render_fields(rest, pad2) == Seq::<char>::empty());
        assert(members_text(fields, pad2, pad) == quoted(fields[0].0) + seq![':', ' ']
            + render_value(fields[0].1, pad2) + seq![','] + (seq!['\n'] + pad + seq!['}']));
        assert(render_fields(fields, pad2) + seq!['\n'] + pad + seq!['}'] =~= seq!['\n'] + pad2
            + members_text(fields, pad2, pad));
    } else {
        lemma_object_text(rest, pad2, pad);
        assert(members_text(fields, pad2, pad) == quoted(fields[0].0) + seq![':', ' ']
            + render_value(fields[0].1, pad2) + seq![','] + (seq!['\n'] + pad2 + members_text(
            rest,
            pad2,
            pad,
        )));
        assert(render_fields(fields, pad2) + seq!['\n'] + pad + seq!['}'] =~= seq!['\n'] + pad2
            + members_text(fields, pad2, pad));
    }
}

/// An array's rendering after its opening bracket is one newline, the
/// inner indentation, and its body text.
proof fn lemma_array_text(elems: Seq<ValueModel>, pad2: Seq<char>, pad: Seq<char>)
    requires
        elems.len() > 0,
    ensures
        render_elems(elems, pad2) + seq!['\n'] + pad + seq![']'] == seq!['\n'] + pad2
            + elements_text(elems, pad2, pad),
    decreases elems.len(),
{
    let line0 = seq!['\n'] + pad2 + render_value(elems[0], pad2) + seq![','];
    let rest = elems.drop_first();
    assert(render_elems(elems, pad2) == line0 + render_elems(rest, pad2));
    if elems.len() == 1 {
        assert(render_elems(rest, pad2) == Seq::<char>::empty());
        assert(elements_text(elems, pad2, pad) == render_value(elems[0], pad2) + seq![','] + (
        seq!['\n'] + pad + seq![']']));
        assert(render_elems(elems, pad2) + seq!['\n'] + pad + seq![']'] =~= seq!['\n'] + pad2
            + elements_text(elems, pad2, pad));
    } else {
        lemma_array_text(rest, pad2, pad);
        assert(elements_text(elems, pad2, pad) == render_value(elems[0], pad2) + seq![','] + (
        seq!['\n'] + pad2 + elements_text(rest, pad2, pad)));
        assert(render_elems(elems, pad2) + seq!['\n'] + pad + seq![']'] =~= seq!['\n'] + pad2
            + elements_text(elems, pad2, pad));
    }
}

/// A well-formed value's rendering starts with the character that selects
/// its kind in the parser's dispatch, never with whitespace.
proof fn lemma_render_value_head(m: ValueModel, pad: Seq<char>)
    requires
        wf_value(m),
    ensures
        render_value(m, pad).len() > 0,
        match m {
            ValueModel::Bool(b) => render_value(m, pad)[0] == if b {
                't'
            } else {
                'f'
            },
            ValueModel::Number(int_part, _f) => render_value(m, pad)[0] == int_part[0]
                && crate::model::is_digit(int_part[0]),
            ValueModel::Str(_t) => render_value(m, pad)[0] == '"',
            ValueModel::Array(_e) => render_value(m, pad)[0] == '[',
            ValueModel::Object(_fs) => render_value(m, pad)[0] == '{',
            ValueModel::Null => render_value(m, pad)[0] == 'n',
        },
        !is_ws(render_value(m, pad)[0]),
{
    match m {
        ValueModel::Number(int_part, frac_part) => {
            if frac_part.len() > 0 {
                assert(render_value(m, pad)[0] == (int_part + seq!['.'] + frac_part)[0]);
            }
        },
        _ => {},
    }
}

/// A non-empty object body text starts with the quote of its first key.
proof fn lemma_members_text_head(
    fields: Seq<(Seq<char>, ValueModel)>,
    pad2: Seq<char>,
    pad: Seq<char>,
)
    requires
        fields.len() > 0,
    ensures
        members_text(fields, pad2, pad).len() > 0,
        members_text(fields, pad2, pad)[0] == '"',
{
    assert(members_text(fields, pad2, pad)[0] == quoted(fields[0].0)[0]);
}

/// A rendered value, followed by a comma, parses back to itself.
proof fn lemma_value_round(s: Seq<char>, i: int, m: ValueModel, pad: Seq<char>)
    requires
        wf_value(m),
        renderable_value(m),
        all_spaces(pad),
        literal_at(s, i, render_value(m, pad)),
        i + render_value(m, pad).len() < s.len(),
        s[i + render_value(m, pad).len()] == ',',
    ensures
        parse_value_at(s, i) == Some((m, i + render_value(m, pad).len())),
    decreases m, 2int,
{
    let rv = render_value(m, pad);
    lemma_literal_index(s, i, rv);
    lemma_render_value_head(m, pad);
    assert(s[i] == rv[0]);
    match m {
        ValueModel::Bool(b) => {
            if !b {
                assert(!literal_at(s, i, seq!['t', 'r', 'u', 'e'])) by {
                    if literal_at(s, i, seq!['t', 'r', 'u', 'e']) {
                        lemma_literal_index(s, i, seq!['t', 'r', 'u', 'e']);
                        assert(s[i + 0] == 't');
                    }
                }
            }
        },
        ValueModel::Number(int_part, frac_part) => {
            lemma_parse_number_render(s, i, int_part, frac_part);
        },
        ValueModel::Str(t) => {
            lemma_parse_string_render(s, i, t);
        },
        ValueModel::Array(elems) => {
            lemma_array_round(s, i, elems, pad);
        },
        ValueModel::Object(fields) => {
            lemma_object_round(s, i, fields, pad);
        },
        ValueModel::Null => {},
    }
}

/// A rendered object parses back to its own fields.
proof fn lemma_object_round(s: Seq<char>, i: int, fields: Seq<(Seq<char>, ValueModel)>, pad: Seq<
    char,
>)
    requires
        wf_fields(fields),
        renderable_fields(fields),
        all_spaces(pad),
        literal_at(s, i, render_object(fields, pad)),
    ensures
        parse_object_at(s, i) == Some((fields, i + render_object(fields, pad).len())),
    decreases fields, 1int,
{
    let pad2 = pad + seq![' ', ' '];
    let ro = render_object(fields, pad);
    lemma_literal_index(s, i, ro);
    assert(s[i] == '{') by {
        assert(ro[0] == '{');
    }
    if fields.len() == 0 {
        let j = i + 2 + pad.len();
        assert forall|k: int| i + 1 <= k < j implies is_ws(#[trigger] s[k]) by {
            assert(s[k] == ro[k - i]);
            if k == i + 1 {
                assert(ro[1] == '\n');
            } else {
                assert(ro[k - i] == pad[k - i - 2]);
            }
        }
        assert(s[j] == '}') by {
            assert(ro[2 + pad.len() as int] == '}');
        }
        lemma_skip_ws_exact(s, i + 1, j);
        assert(parse_object_at(s, i) == Some((Seq::<(Seq<char>, ValueModel)>::empty(), j + 1)));
        assert(fields =~= Seq::<(Seq<char>, ValueModel)>::empty());
    } else {
        lemma_object_text(fields, pad2, pad);
        let mt = members_text(fields, pad2, pad);
        assert(ro =~= seq!['{'] + (seq!['\n'] + pad2 + mt));
        lemma_literal_split(s, i, seq!['{'], seq!['\n'] + pad2 + mt);
        lemma_literal_split(s, i + 1, seq!['\n'] + pad2, mt);
        let pm = i + 2 + pad2.len();
        lemma_members_text_head(fields, pad2, pad);
        lemma_literal_index(s, i + 1, seq!['\n'] + pad2);
        lemma_literal_index(s, pm, mt);
        assert forall|k: int| i + 1 <= k < pm implies is_ws(#[trigger] s[k]) by {
            assert(s[k] == (seq!['\n'] + pad2)[k - i - 1]);
            if k > i + 1 {
                assert((seq!['\n'] + pad2)[k - i - 1] == pad2[k - i - 2]);
                assert(pad2[k - i - 2] == ' ') by {
                    if k - i - 2 < pad.len() {
                        assert(pad2[k - i - 2] == pad[k - i - 2]);
                    }
                }
            }
        }
        assert(s[pm] == '"');
        lemma_skip_ws_exact(s, i + 1, pm);
        lemma_members_round(s, pm, fields, pad, pad2);
        assert(parse_object_at(s, i) == Some((fields, pm + mt.len())));
        assert(pm + mt.len() == i + ro.len());
    }
}

/// A rendered array parses back to its own elements.
proof fn lemma_array_round(s: Seq<char>, i: int, elems: Seq<ValueModel>, pad: Seq<char>)
    requires
        wf_elems(elems),
        renderable_elems(elems),
        all_spaces(pad),
        literal_at(s, i, render_array(elems, pad)),
    ensures
        parse_array_at(s, i) == Some((elems, i + render_array(elems, pad).len())),
    decreases elems, 1int,
{
    let pad2 = pad + seq![' ', ' '];
    let ra = render_array(elems, pad);
    lemma_literal_index(s, i, ra);
    assert(s[i] == '[') by {
        assert(ra[0] == '[');
    }
    if elems.len() == 0 {
        let j = i + 2 + pad.len();
        assert forall|k: int| i + 1 <= k < j implies is_ws(#[trigger] s[k]) by {
            assert(s[k] == ra[k - i]);
            if k == i + 1 {
                assert(ra[1] == '\n');
            } else {
                assert(ra[k - i] == pad[k - i - 2]);
            }
        }
        assert(s[j] == ']') by {
            assert(ra[2 + pad.len() as int] == ']');
        }
        lemma_skip_ws_exact(s, i + 1, j);
        assert(parse_array_at(s, i) == Some((Seq::<ValueModel>::empty(), j + 1)));
        assert(elems =~= Seq::<ValueModel>::empty());
    } else {
        lemma_array_text(elems, pad2, pad);
        let et = elements_text(elems, pad2, pad);
        assert(ra =~= seq!['['] + (seq!['\n'] + pad2 + et));
        lemma_literal_split(s, i, seq!['['], seq!['\n'] + pad2 + et);
        lemma_literal_split(s, i + 1, seq!['\n'] + pad2, et);
        let pe = i + 2 + pad2.len();
        lemma_literal_index(s, i + 1, seq!['\n'] + pad2);
        lemma_literal_index(s, pe, et);
        lemma_render_value_head(elems[0], pad2);
        assert(et[0] == render_value(elems[0], pad2)[0]);
        assert forall|k: int| i + 1 <= k < pe implies is_ws(#[trigger] s[k]) by {
            assert(s[k] == (seq!['\n'] + pad2)[k - i - 1]);
            if k > i + 1 {
                assert((seq!['\n'] + pad2)[k - i - 1] == pad2[k - i - 2]);
                assert(pad2[k - i - 2] == ' ') by {
                    if k - i - 2 < pad.len() {
                        assert(pad2[k - i - 2] == pad[k - i - 2]);
                    }
                }
            }
        }
        assert(!is_ws(s[pe]));
        lemma_skip_ws_exact(s, i + 1, pe);
        assert(s[pe] != ']') by {
            assert(!is_ws(et[0]));
        }
        lemma_elements_round(s, pe, elems, pad, pad2);
        assert(parse_array_at(s, i) == Some((elems, pe + et.len())));
        assert(pe + et.len() == i + ra.len());
    }
}

/// An object body text parses back to its own members.
proof fn lemma_members_round(
    s: Seq<char>,
    i: int,
    fields: Seq<(Seq<char>, ValueModel)>,
    pad: Seq<char>,
    pad2: Seq<char>,
)
    requires
        fields.len() > 0,
        wf_fields(fields),
        renderable_fields(fields),
        all_spaces(pad),
        pad2 == pad + seq![' ', ' '],
        literal_at(s, i, members_text(fields, pad2, pad)),
    ensures
        parse_members(s, i) == Some((fields, i + members_text(fields, pad2, pad).len())),
    decreases fields, 0int,
{
    let k0 = fields[0].0;
    let v0 = fields[0].1;
    let rv = render_value(v0, pad2);
    let mt = members_text(fields, pad2, pad);
    let tail: Seq<char> = if fields.len() == 1 {
        seq!['\n'] + pad + seq!['}']
    } else {
        seq!['\n'] + pad2 + members_text(fields.drop_first(), pad2, pad)
    };
    assert(mt == quoted(k0) + seq![':', ' '] + rv + seq![','] + tail);
    lemma_literal_split(s, i, quoted(k0) + seq![':', ' '] + rv + seq![','], tail);
    lemma_literal_split(s, i, quoted(k0) + seq![':', ' '] + rv, seq![',']);
    lemma_literal_split(s, i, quoted(k0) + seq![':', ' '], rv);
    lemma_literal_split(s, i, quoted(k0), seq![':', ' ']);
    let p = i + k0.len() + 2;
    let pv = p + 2;
    let pc = pv + rv.len();
    let pt = pc + 1;
    lemma_parse_string_render(s, i, k0);
    lemma_literal_index(s, p, seq![':', ' ']);
    assert(s[p] == ':' && s[p + 1] == ' ');
    lemma_literal_index(s, pc, seq![',']);
    assert(s[pc + 0] == seq![','][0]);
    assert(s[pc] == ',');
    lemma_skip_ws_exact(s, p, p);
    lemma_render_value_head(v0, pad2);
    lemma_literal_index(s, pv, rv);
    assert(s[pv] == rv[0]);
    lemma_skip_ws_exact(s, p + 1, pv);
    lemma_value_round(s, pv, v0, pad2);
    lemma_skip_ws_exact(s, pc, pc);
    lemma_literal_index(s, pt, tail);
    if fields.len() == 1 {
        let j6 = pt + 1 + pad.len();
        assert forall|k: int| pt <= k < j6 implies is_ws(#[trigger] s[k]) by {
            assert(s[k] == tail[k - pt]);
            if k > pt {
                assert(tail[k - pt] == pad[k - pt - 1]);
            }
        }
        assert(s[j6] == '}') by {
            assert(tail[1 + pad.len() as int] == '}');
        }
        lemma_skip_ws_exact(s, pt, j6);
        assert(parse_members(s, i) == Some((seq![(k0, v0)], j6 + 1)));
        assert(seq![(k0, v0)] =~= fields);
        assert(j6 + 1 == i + mt.len());
    } else {
        let rest = fields.drop_first();
        let mtr = members_text(rest, pad2, pad);
        assert(tail =~= (seq!['\n'] + pad2) + mtr);
        lemma_literal_split(s, pt, seq!['\n'] + pad2, mtr);
        let j6 = pt + 1 + pad2.len();
        lemma_members_text_head(rest, pad2, pad);
        lemma_literal_index(s, j6, mtr);
        assert(s[j6] == '"');
        assert forall|k: int| pt <= k < j6 implies is_ws(#[trigger] s[k]) by {
            assert(s[k] == tail[k - pt]);
            if k > pt {
                assert(tail[k - pt] == pad2[k - pt - 1]);
                assert(pad2[k - pt - 1] == ' ') by {
                    if k - pt - 1 < pad.len() {
                        assert(pad2[k - pt - 1] == pad[k - pt - 1]);
                    }
                }
            }
        }
        lemma_skip_ws_exact(s, pt, j6);
        lemma_members_round(s, j6, rest, pad, pad2);
        assert(parse_members(s, i) == Some((seq![(k0, v0)] + rest, j6 + mtr.len())));
        assert(seq![(k0, v0)] + rest =~= fields);
        assert(j6 + mtr.len() == i + mt.len());
    }
}

/// An array body text parses back to its own elements.
proof fn lemma_elements_round(
    s: Seq<char>,
    i: int,
    elems: Seq<ValueModel>,
    pad: Seq<char>,
    pad2: Seq<char>,
)
    requires
        elems.len() > 0,
        wf_elems(elems),
        renderable_elems(elems),
        all_spaces(pad),
        pad2 == pad + seq![' ', ' '],
        literal_at(s, i, elements_text(elems, pad2, pad)),
    ensures
        parse_elements(s, i) == Some((elems, i + elements_text(elems, pad2, pad).len())),
    decreases elems, 0int,
{
    let v0 = elems[0];
    let rv = render_value(v0, pad2);
    let et = elements_text(elems, pad2, pad);
    let tail: Seq<char> = if elems.len() == 1 {
        seq!['\n'] + pad + seq![']']
    } else {
        seq!['\n'] + pad2 + elements_text(elems.drop_first(), pad2, pad)
    };
    assert(et == rv + seq![','] + tail);
    lemma_literal_split(s, i, rv + seq![','], tail);
    lemma_literal_split(s, i, rv, seq![',']);
    let pc = i + rv.len();
    let pt = pc + 1;
    lemma_literal_index(s, pc, seq![',']);
    assert(s[pc + 0] == seq![','][0]);
    assert(s[pc] == ',');
    lemma_value_round(s, i, v0, pad2);
    lemma_skip_ws_exact(s, pc, pc);
    lemma_literal_index(s, pt, tail);
    if elems.len() == 1 {
        let j3 = pt + 1 + pad.len();
        assert forall|k: int| pt <= k < j3 implies is_ws(#[trigger] s[k]) by {
            assert(s[k] == tail[k - pt]);
            if k > pt {
                assert(tail[k - pt] == pad[k - pt - 1]);
            }
        }
        assert(s[j3] == ']') by {
            assert(tail[1 + pad.len() as int] == ']');
        }
        lemma_skip_ws_exact(s, pt, j3);
        assert(parse_elements(s, i) == Some((seq![v0], j3 + 1)));
        assert(seq![v0] =~= elems);
        assert(j3 + 1 == i + et.len());
    } else {
        let rest = elems.drop_first();
        let etr = elements_text(rest, pad2, pad);
        assert(tail =~= (seq!['\n'] + pad2) + etr);
        lemma_literal_split(s, pt, seq!['\n'] + pad2, etr);
        let j3 = pt + 1 + pad2.len();
        lemma_literal_index(s, j3, etr);
        assert(wf_elems(rest) && renderable_elems(rest));
        assert(wf_value(rest[0]));
        lemma_render_value_head(rest[0], pad2);
        assert(etr[0] == render_value(rest[0], pad2)[0]);
        assert(s[j3] == etr[0] && !is_ws(etr[0]));
        assert forall|k: int| pt <= k < j3 implies is_ws(#[trigger] s[k]) by {
            assert(s[k] == tail[k - pt]);
            if k > pt {
                assert(tail[k - pt] == pad2[k - pt - 1]);
                assert(pad2[k - pt - 1] == ' ') by {
                    if k - pt - 1 < pad.len() {
                        assert(pad2[k - pt - 1] == pad[k - pt - 1]);
                    }
                }
            }
        }
        lemma_skip_ws_exact(s, pt, j3);
        assert(s[j3] != ']');
        lemma_elements_round(s, j3, rest, pad, pad2);
        assert(parse_elements(s, i) == Some((seq![v0] + rest, j3 + etr.len())));
        assert(seq![v0] + rest =~= elems);
        assert(j3 + etr.len() == i + et.len());
    }
}

/// Law: a document whose values are well-formed, whose keys are non-empty
/// and quote-free, and whose strings are quote-free parses back, from its
/// own rendering, to exactly the same document — keys, order and typed
/// values included.
pub proof fn lemma_parse_stringify_round_trip(fields: Seq<(Seq<char>, ValueModel)>)
    requires
        wf_fields(fields),
        renderable_fields(fields),
    ensures
        parse_document(render_object(fields, Seq::<char>::empty())) == Some(fields),
{
    let s = render_object(fields, Seq::<char>::empty());
    assert(s.subrange(0, s.len() as int) =~= s);
    assert(literal_at(s, 0, s));
    lemma_literal_index(s, 0, s);
    assert(s[0] == '{');
    lemma_skip_ws_exact(s, 0, 0);
    lemma_object_round(s, 0, fields, Seq::<char>::empty());
}

} // verus!
