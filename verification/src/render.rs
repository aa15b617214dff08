//! The serializer: an indented textual rendering of a document, defined as
//! a spec-level function and implemented by verified writers.
//!
//! Format, chosen for compatibility with files the tool already writes:
//! every child — including the last — is followed by a comma, children are
//! indented by two spaces per nesting level, strings are quoted but not
//! escaped, and numbers print their normalized decimal digits.

use vstd::prelude::*;

use crate::model::ValueModel;
use crate::number::number_text;
use crate::object::{fields_model, lemma_fields_model, lemma_model_seq, JsonObject, JsonType};
use crate::text::{append_chars, append_str_chars, chars_to_string};

verus! {

/// The rendering of one value. `pad` is the indentation of the line the
/// value starts on; nested children indent by two more spaces.
pub open spec fn render_value(m: ValueModel, pad: Seq<char>) -> Seq<char>
    decreases m, 2int,
{
    match m {
        ValueModel::Bool(b) => if b {
            seq!['t', 'r', 'u', 'e']
        } else {
            seq!['f', 'a', 'l', 's', 'e']
        },
        ValueModel::Number(int_part, frac_part) => number_text(int_part, frac_part),
        ValueModel::Str(s) => seq!['"'] + s + seq!['"'],
        ValueModel::Array(elems) => render_array(elems, pad),
        ValueModel::Object(fields) => render_object(fields, pad),
        ValueModel::Null => seq!['n', 'u', 'l', 'l'],
    }
}

/// `{`, one line per pair, then the closing brace on its own line.
pub open spec fn render_object(fields: Seq<(Seq<char>, ValueModel)>, pad: Seq<char>) -> Seq<char>
    decreases fields, 1int,
{
    seq!['{'] + render_fields(fields, pad + seq![' ', ' ']) + seq!['\n'] + pad + seq!['}']
}

/// The pair lines of an object body: each is a newline, the indentation,
/// the quoted key, `: `, the value, and a trailing comma.
pub open spec fn render_fields(fields: Seq<(Seq<char>, ValueModel)>, pad: Seq<char>) -> Seq<char>
    decreases fields, 0int,
{
    if fields.len() == 0 {
        Seq::empty()
    } else {
        seq!['\n'] + pad + seq!['"'] + fields[0].0 + seq!['"', ':', ' '] + render_value(
            fields[0].1,
            pad,
        ) + seq![','] + render_fields(fields.drop_first(), pad)
    }
}

/// `[`, one line per element, then the closing bracket on its own line.
pub open spec fn render_array(elems: Seq<ValueModel>, pad: Seq<char>) -> Seq<char>
    decreases elems, 1int,
{
    seq!['['] + render_elems(elems, pad + seq![' ', ' ']) + seq!['\n'] + pad + seq![']']
}

/// The element lines of an array body: each is a newline, the indentation,
/// the element, and a trailing comma.
pub open spec fn render_elems(elems: Seq<ValueModel>, pad: Seq<char>) -> Seq<char>
    decreases elems, 0int,
{
    if elems.len() == 0 {
        Seq::empty()
    } else {
        seq!['\n'] + pad + render_value(elems[0], pad) + seq![','] + render_elems(
            elems.drop_first(),
            pad,
        )
    }
}

pub proof fn lemma_render_fields_concat(
    a: Seq<(Seq<char>, ValueModel)>,
    b: Seq<(Seq<char>, ValueModel)>,
    pad: Seq<char>,
)
    ensures
        render_fields(a + b, pad) == render_fields(a, pad) + render_fields(b, pad),
    decreases a.len(),
{
    if a.len() == 0 {
        assert(a + b =~= b);
        assert(render_fields(a, pad) + render_fields(b, pad) =~= render_fields(b, pad));
    } else {
        lemma_render_fields_concat(a.drop_first(), b, pad);
        assert((a + b).drop_first() =~= a.drop_first() + b);
        assert((a + b)[0] == a[0]);
        assert(render_fields(a + b, pad) =~= render_fields(a, pad) + render_fields(b, pad));
    }
}

pub proof fn lemma_render_elems_concat(a: Seq<ValueModel>, b: Seq<ValueModel>, pad: Seq<char>)
    ensures
        render_elems(a + b, pad) == render_elems(a, pad) + render_elems(b, pad),
    decreases a.len(),
{
    if a.len() == 0 {
        assert(a + b =~= b);
        assert(render_elems(a, pad) + render_elems(b, pad) =~= render_elems(b, pad));
    } else {
        lemma_render_elems_concat(a.drop_first(), b, pad);
        assert((a + b).drop_first() =~= a.drop_first() + b);
        assert((a + b)[0] == a[0]);
        assert(render_elems(a + b, pad) =~= render_elems(a, pad) + render_elems(b, pad));
    }
}

/// Appends the rendering of `v` to `out`.
fn write_value(v: &JsonType, pad: &Vec<char>, out: &mut Vec<char>)
    ensures
        final (out)@ == old(out)@ + render_value(v@, pad@),
    decreases *v, 2int,
{
    match v {
        JsonType::Bool(b) => {
            if *b {
                out.push('t');
                out.push('r');
                out.push('u');
                out.push('e');
                proof {
                    assert(out@ =~= old(out)@ + render_value(v@, pad@));
                }
            } else {
                out.push('f');
                out.push('a');
                out.push('l');
                out.push('s');
                out.push('e');
                proof {
                    assert(out@ =~= old(out)@ + render_value(v@, pad@));
                }
            }
        },
        JsonType::Number(n) => {
            n.write_text(out);
        },
        JsonType::String(s) => {
            out.push('"');
            append_str_chars(s.as_str(), out);
            out.push('"');
            proof {
                assert(out@ =~= old(out)@ + render_value(v@, pad@));
            }
        },
        JsonType::Array(a) => {
            proof {
                assert(decreases_to!(*v, 2int => *a, 1int));
            }
            write_array(a, pad, out);
        },
        JsonType::Object(o) => {
            proof {
                assert(decreases_to!(*v, 2int => *o, 1int));
            }
            write_object(o, pad, out);
        },
        JsonType::Null => {
            out.push('n');
            out.push('u');
            out.push('l');
            out.push('l');
            proof {
                assert(out@ =~= old(out)@ + render_value(v@, pad@));
            }
        },
    }
}

/// Appends the rendering of the object to `out`.
fn write_object(o: &JsonObject, pad: &Vec<char>, out: &mut Vec<char>)
    ensures
        final (out)@ == old(out)@ + render_object(o@, pad@),
    decreases *o, 1int,
{
    broadcast use lemma_fields_model;

    let ghost fields = o@;
    out.push('{');
    let mut pad2 = Vec::new();
    append_chars(pad, &mut pad2);
    pad2.push(' ');
    pad2.push(' ');
    let mut i: usize = 0;
    while i < o.children.len()
        invariant
            i <= o.children.len(),
            fields == o@,
            fields.len() == o.children.len(),
            pad2@ == pad@ + seq![' ', ' '],
            out@ == old(out)@ + seq!['{'] + render_fields(fields.take(i as int), pad2@),
        decreases o.children.len() - i,
    {
        let ghost done = out@;
        out.push('\n');
        append_chars(&pad2, out);
        out.push('"');
        append_str_chars(o.children[i].0.as_str(), out);
        out.push('"');
        out.push(':');
        out.push(' ');
        proof {
            assert(decreases_to!(*o, 1int => o.children@[i as int].1, 2int));
        }
        write_value(&o.children[i].1, &pad2, out);
        out.push(',');
        proof {
            broadcast use lemma_fields_model;

            let one = seq![fields[i as int]];
            reveal_with_fuel(render_fields, 2);
            assert(fields[i as int] == (o.children@[i as int].0@, o.children@[i as int].1.model()));
            assert(one.drop_first() =~= Seq::<(Seq<char>, ValueModel)>::empty());
            assert(render_fields(one, pad2@) =~= seq!['\n'] + pad2@ + seq!['"']
                + fields[i as int].0 + seq!['"', ':', ' ']
                + render_value(fields[i as int].1, pad2@) + seq![',']);
            assert(out@ =~= done + render_fields(one, pad2@));
            lemma_render_fields_concat(fields.take(i as int), one, pad2@);
            assert(fields.take(i as int) + one =~= fields.take(i + 1 as int));
        }
        i = i + 1;
    }
    out.push('\n');
    append_chars(pad, out);
    out.push('}');
    proof {
        assert(fields.take(fields.len() as int) == fields);
        assert(out@ =~= old(out)@ + render_object(fields, pad@));
    }
}

/// Appends the rendering of the array to `out`.
fn write_array(a: &Vec<JsonType>, pad: &Vec<char>, out: &mut Vec<char>)
    ensures
        final (out)@ == old(out)@ + render_array(crate::object::model_seq(a@), pad@),
    decreases *a, 1int,
{
    broadcast use lemma_model_seq;

    let ghost elems = crate::object::model_seq(a@);
    out.push('[');
    let mut pad2 = Vec::new();
    append_chars(pad, &mut pad2);
    pad2.push(' ');
    pad2.push(' ');
    let mut i: usize = 0;
    while i < a.len()
        invariant
            i <= a.len(),
            elems == crate::object::model_seq(a@),
            elems.len() == a.len(),
            pad2@ == pad@ + seq![' ', ' '],
            out@ == old(out)@ + seq!['['] + render_elems(elems.take(i as int), pad2@),
        decreases a.len() - i,
    {
        let ghost done = out@;
        out.push('\n');
        append_chars(&pad2, out);
        proof {
            assert(decreases_to!(*a, 1int => a@[i as int], 2int));
        }
        write_value(&a[i], &pad2, out);
        out.push(',');
        proof {
            broadcast use lemma_model_seq;

            let one = seq![elems[i as int]];
            reveal_with_fuel(render_elems, 2);
            assert(elems[i as int] == a@[i as int].model());
            assert(one.drop_first() =~= Seq::<ValueModel>::empty());
            assert(render_elems(one, pad2@) =~= seq!['\n'] + pad2@
                + render_value(elems[i as int], pad2@) + seq![',']);
            assert(out@ =~= done + render_elems(one, pad2@));
            lemma_render_elems_concat(elems.take(i as int), one, pad2@);
            assert(elems.take(i as int) + one =~= elems.take(i + 1 as int));
        }
        i = i + 1;
    }
    out.push('\n');
    append_chars(pad, out);
    out.push(']');
    proof {
        assert(elems.take(elems.len() as int) == elems);
        assert(out@ =~= old(out)@ + render_array(elems, pad@));
    }
}

impl JsonObject {
    /// The indented textual form of the whole document.
    pub fn stringify(&self) -> (r: String)
        ensures
            r@ == render_object(self@, Seq::<char>::empty()),
    {
        let mut out: Vec<char> = Vec::new();
        let pad: Vec<char> = Vec::new();
        write_object(self, &pad, &mut out);
        proof {
            assert(out@ == render_object(self@, Seq::<char>::empty()));
        }
        chars_to_string(&out)
    }
}

} // verus!
