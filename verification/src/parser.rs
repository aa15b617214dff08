//! The parser: a cursor-based recursive-descent scanner over a character
//! buffer, proved to return exactly what the grammar of `parse_spec` says —
//! the parsed document on well-formed input, and a `MalformedInput` error
//! on every grammar violation, never a panic or an abort.

use vstd::prelude::*;

use crate::error::JsonError;
use crate::number::{number_from_token, JsonNumber};
use crate::object::{fields_model, lemma_fields_model, lemma_model_seq, JsonObject, JsonType};
use crate::parse_spec::{
    find_quote, is_digit_or_dot, is_num_end, is_ws, literal_at, num_run_end, parse_array_at,
    parse_document, parse_elements, parse_members, parse_number_at, parse_object_at,
    parse_string_at, parse_value_at, skip_ws,
};
use crate::text::{chars_to_string, copy_range, str_to_chars};

verus! {

/// A `MalformedInput` error at `pos`, recording what was expected and the
/// character actually found there (`None` at the end of the text).
fn parse_error(s: &Vec<char>, pos: usize, expected: &str) -> (e: JsonError)
    ensures
        e is MalformedInput,
{
    let found = if pos < s.len() {
        Some(s[pos])
    } else {
        None
    };
    JsonError::MalformedInput { pos, expected: expected.to_owned(), found }
}

/// The position of the next non-whitespace character at or after `i`.
fn ws_end(s: &Vec<char>, i: usize) -> (r: usize)
    requires
        i <= s@.len(),
    ensures
        r == skip_ws(s@, i as int),
        i <= r <= s@.len(),
{
    proof {
        crate::parse_spec::lemma_skip_ws(s@, i as int);
    }
    let mut j = i;
    while j < s.len() && (s[j] == ' ' || s[j] == '\n' || s[j] == '\t' || s[j] == '\r')
        invariant
            i <= j <= s@.len(),
            skip_ws(s@, i as int) == skip_ws(s@, j as int),
        decreases s@.len() - j,
    {
        j = j + 1;
    }
    j
}

/// Scans a quoted string: the verbatim characters up to the closing quote.
fn parse_string_ex(s: &Vec<char>, i: usize) -> (r: Result<(Vec<char>, usize), JsonError>)
    requires
        i <= s@.len(),
    ensures
        match r {
            Ok(p) => parse_string_at(s@, i as int) == Some((p.0@, p.1 as int)) && i < p.1
                <= s@.len(),
            Err(e) => parse_string_at(s@, i as int) is None && e is MalformedInput,
        },
{
    if i == s.len() || !(s[i] == '"') {
        return Err(parse_error(s, i, "an opening quote"));
    }
    let mut j = i + 1;
    while j < s.len() && s[j] != '"'
        invariant
            i + 1 <= j <= s@.len(),
            find_quote(s@, i + 1 as int) == find_quote(s@, j as int),
        decreases s@.len() - j,
    {
        j = j + 1;
    }
    if j == s.len() {
        return Err(parse_error(s, j, "a closing quote"));
    }
    let content = copy_range(s, i + 1, j);
    Ok((content, j + 1))
}

/// Scans a number: the digit run, its terminator, then validation and
/// normalization of the token.
fn parse_number_ex(s: &Vec<char>, i: usize) -> (r: Result<(JsonNumber, usize), JsonError>)
    requires
        i <= s@.len(),
    ensures
        match r {
            Ok(p) => parse_number_at(s@, i as int) == Some(((p.0@.0, p.0@.1), p.1 as int)) && i
                < p.1 <= s@.len(),
            Err(e) => parse_number_at(s@, i as int) is None && e is MalformedInput,
        },
{
    let mut j = i;
    while j < s.len() && ((48 <= s[j] as u32 && s[j] as u32 <= 57) || s[j] == '.')
        invariant
            i <= j <= s@.len(),
            num_run_end(s@, i as int) == num_run_end(s@, j as int),
        decreases s@.len() - j,
    {
        j = j + 1;
    }
    assert(num_run_end(s@, i as int) == j);
    if j < s.len() {
        let c = s[j];
        if !(c == ' ' || c == '\n' || c == '\t' || c == '\r' || c == ',' || c == ']' || c == '}') {
            return Err(parse_error(s, j, "a character that ends a number"));
        }
    }
    let t = copy_range(s, i, j);
    match number_from_token(t) {
        Some(n) => {
            proof {
                assert(s@.subrange(i as int, j as int).len() > 0);
            }
            Ok((n, j))
        },
        None => Err(parse_error(s, i, "digits with at most one point")),
    }
}

/// Whether the four given characters stand at `i`.
fn lit4(s: &Vec<char>, i: usize, c0: char, c1: char, c2: char, c3: char) -> (r: bool)
    requires
        i <= s@.len(),
    ensures
        r == literal_at(s@, i as int, seq![c0, c1, c2, c3]),
{
    if s.len() >= 4 && i <= s.len() - 4 {
        let ghost sub = s@.subrange(i as int, i as int + 4);
        proof {
            assert(sub[0] == s@[i as int] && sub[1] == s@[i + 1] && sub[2] == s@[i + 2] && sub[3]
                == s@[i + 3]);
        }
        if s[i] == c0 && s[i + 1] == c1 && s[i + 2] == c2 && s[i + 3] == c3 {
            proof {
                assert(sub =~= seq![c0, c1, c2, c3]);
            }
            true
        } else {
            false
        }
    } else {
        false
    }
}

/// Whether the five given characters stand at `i`.
fn lit5(s: &Vec<char>, i: usize, c0: char, c1: char, c2: char, c3: char, c4: char) -> (r: bool)
    requires
        i <= s@.len(),
    ensures
        r == literal_at(s@, i as int, seq![c0, c1, c2, c3, c4]),
{
    if s.len() >= 5 && i <= s.len() - 5 {
        let ghost sub = s@.subrange(i as int, i as int + 5);
        proof {
            assert(sub[0] == s@[i as int] && sub[1] == s@[i + 1] && sub[2] == s@[i + 2] && sub[3]
                == s@[i + 3] && sub[4] == s@[i + 4]);
        }
        if s[i] == c0 && s[i + 1] == c1 && s[i + 2] == c2 && s[i + 3] == c3 && s[i + 4] == c4 {
            proof {
                assert(sub =~= seq![c0, c1, c2, c3, c4]);
            }
            true
        } else {
            false
        }
    } else {
        false
    }
}

/// Parses one value, dispatched on its first character.
fn parse_value_ex(s: &Vec<char>, i: usize) -> (r: Result<(JsonType, usize), JsonError>)
    requires
        i <= s@.len(),
    ensures
        match r {
            Ok(p) => parse_value_at(s@, i as int) == Some((p.0@, p.1 as int)) && i < p.1
                <= s@.len(),
            Err(e) => parse_value_at(s@, i as int) is None && e is MalformedInput,
        },
    decreases s@.len() - i, 1int,
{
    if i == s.len() {
        return Err(parse_error(s, i, "a value"));
    }
    let c = s[i];
    if c == '"' {
        match parse_string_ex(s, i) {
            Ok((t, j)) => Ok((JsonType::String(chars_to_string(&t)), j)),
            Err(e) => Err(e),
        }
    } else if c == 't' || c == 'f' {
        if lit4(s, i, 't', 'r', 'u', 'e') {
            Ok((JsonType::Bool(true), i + 4))
        } else if lit5(s, i, 'f', 'a', 'l', 's', 'e') {
            Ok((JsonType::Bool(false), i + 5))
        } else {
            Err(parse_error(s, i, "the literal true or false"))
        }
    } else if (48 <= c as u32 && c as u32 <= 57) || c == '.' {
        match parse_number_ex(s, i) {
            Ok((n, j)) => Ok((JsonType::Number(n), j)),
            Err(e) => Err(e),
        }
    } else if c == 'n' {
        if lit4(s, i, 'n', 'u', 'l', 'l') {
            Ok((JsonType::Null, i + 4))
        } else {
            Err(parse_error(s, i, "the literal null"))
        }
    } else if c == '{' {
        match parse_object_ex(s, i) {
            Ok((o, j)) => Ok((JsonType::Object(o), j)),
            Err(e) => Err(e),
        }
    } else if c == '[' {
        match parse_array_ex(s, i) {
            Ok((a, j)) => Ok((JsonType::Array(a), j)),
            Err(e) => Err(e),
        }
    } else {
        Err(parse_error(s, i, "a value"))
    }
}

/// Parses an object from its opening brace.
fn parse_object_ex(s: &Vec<char>, i: usize) -> (r: Result<(JsonObject, usize), JsonError>)
    requires
        i <= s@.len(),
    ensures
        match r {
            Ok(p) => parse_object_at(s@, i as int) == Some((p.0@, p.1 as int)) && i < p.1
                <= s@.len(),
            Err(e) => parse_object_at(s@, i as int) is None && e is MalformedInput,
        },
    decreases s@.len() - i, 0int,
{
    if i == s.len() || !(s[i] == '{') {
        return Err(parse_error(s, i, "an opening brace"));
    }
    let j = ws_end(s, i + 1);
    if j < s.len() && s[j] == '}' {
        return Ok((JsonObject::new(), j + 1));
    }
    match parse_members_ex(s, j) {
        Ok((children, j2)) => Ok((JsonObject { children }, j2)),
        Err(e) => Err(e),
    }
}

/// Parses the members of an object, from the opening quote of the first
/// key to the closing brace.
fn parse_members_ex(s: &Vec<char>, i: usize) -> (r: Result<(Vec<(String, JsonType)>, usize),
    JsonError>)
    requires
        i <= s@.len(),
    ensures
        match r {
            Ok(p) => parse_members(s@, i as int) == Some((fields_model(p.0@), p.1 as int)) && i
                < p.1 <= s@.len(),
            Err(e) => parse_members(s@, i as int) is None && e is MalformedInput,
        },
    decreases s@.len() - i, 2int,
{
    broadcast use lemma_fields_model;

    let (key_chars, j) = match parse_string_ex(s, i) {
        Ok(p) => p,
        Err(e) => {
            return Err(e);
        },
    };
    if key_chars.len() == 0 {
        return Err(parse_error(s, i, "a non-empty key"));
    }
    let j2 = ws_end(s, j);
    if j2 == s.len() || !(s[j2] == ':') {
        return Err(parse_error(s, j2, "a colon after the key"));
    }
    let j3 = ws_end(s, j2 + 1);
    let (value, j4) = match parse_value_ex(s, j3) {
        Ok(p) => p,
        Err(e) => {
            return Err(e);
        },
    };
    let key = chars_to_string(&key_chars);
    let ghost pair_model = (key@, value@);
    let j5 = ws_end(s, j4);
    if j5 < s.len() && s[j5] == '}' {
        let mut children: Vec<(String, JsonType)> = Vec::new();
        children.push((key, value));
        proof {
            assert(fields_model(children@) =~= seq![pair_model]);
        }
        return Ok((children, j5 + 1));
    }
    if j5 < s.len() && s[j5] == ',' {
        let j6 = ws_end(s, j5 + 1);
        if j6 < s.len() && s[j6] == '}' {
            let mut children: Vec<(String, JsonType)> = Vec::new();
            children.push((key, value));
            proof {
                assert(fields_model(children@) =~= seq![pair_model]);
            }
            return Ok((children, j6 + 1));
        }
        match parse_members_ex(s, j6) {
            Ok((mut rest, j7)) => {
                let ghost rest_model = fields_model(rest@);
                let mut children: Vec<(String, JsonType)> = Vec::new();
                children.push((key, value));
                children.append(&mut rest);
                proof {
                    assert forall|k: int| 0 <= k < children@.len() implies fields_model(
                        children@,
                    )[k] == (seq![pair_model] + rest_model)[k] by {
                        assert(fields_model(children@)[k] == (
                            children@[k].0@,
                            children@[k].1.model(),
                        ));
                    }
                    assert(fields_model(children@) =~= seq![pair_model] + rest_model);
                }
                Ok((children, j7))
            },
            Err(e) => Err(e),
        }
    } else {
        Err(parse_error(s, j5, "a comma or a closing brace"))
    }
}

/// Parses an array from its opening bracket.
fn parse_array_ex(s: &Vec<char>, i: usize) -> (r: Result<(Vec<JsonType>, usize), JsonError>)
    requires
        i <= s@.len(),
    ensures
        match r {
            Ok(p) => parse_array_at(s@, i as int) == Some(
                (crate::object::model_seq(p.0@), p.1 as int),
            ) && i < p.1 <= s@.len(),
            Err(e) => parse_array_at(s@, i as int) is None && e is MalformedInput,
        },
    decreases s@.len() - i, 0int,
{
    if i == s.len() || !(s[i] == '[') {
        return Err(parse_error(s, i, "an opening bracket"));
    }
    let j = ws_end(s, i + 1);
    if j < s.len() && s[j] == ']' {
        let empty: Vec<JsonType> = Vec::new();
        proof {
            assert(crate::object::model_seq(empty@) =~= Seq::<crate::model::ValueModel>::empty());
        }
        return Ok((empty, j + 1));
    }
    match parse_elements_ex(s, j) {
        Ok((elems, j2)) => Ok((elems, j2)),
        Err(e) => Err(e),
    }
}

/// Parses the elements of an array, from the first character of the first
/// element to the closing bracket.
fn parse_elements_ex(s: &Vec<char>, i: usize) -> (r: Result<(Vec<JsonType>, usize), JsonError>)
    requires
        i <= s@.len(),
    ensures
        match r {
            Ok(p) => parse_elements(s@, i as int) == Some(
                (crate::object::model_seq(p.0@), p.1 as int),
            ) && i < p.1 <= s@.len(),
            Err(e) => parse_elements(s@, i as int) is None && e is MalformedInput,
        },
    decreases s@.len() - i, 2int,
{
    broadcast use lemma_model_seq;

    let (value, j) = match parse_value_ex(s, i) {
        Ok(p) => p,
        Err(e) => {
            return Err(e);
        },
    };
    let ghost value_model = value@;
    let j2 = ws_end(s, j);
    if j2 < s.len() && s[j2] == ']' {
        let mut elems: Vec<JsonType> = Vec::new();
        elems.push(value);
        proof {
            assert(crate::object::model_seq(elems@) =~= seq![value_model]);
        }
        return Ok((elems, j2 + 1));
    }
    if j2 < s.len() && s[j2] == ',' {
        let j3 = ws_end(s, j2 + 1);
        if j3 < s.len() && s[j3] == ']' {
            let mut elems: Vec<JsonType> = Vec::new();
            elems.push(value);
            proof {
                assert(crate::object::model_seq(elems@) =~= seq![value_model]);
            }
            return Ok((elems, j3 + 1));
        }
        match parse_elements_ex(s, j3) {
            Ok((mut rest, j4)) => {
                let ghost rest_model = crate::object::model_seq(rest@);
                let mut elems: Vec<JsonType> = Vec::new();
                elems.push(value);
                elems.append(&mut rest);
                proof {
                    assert forall|k: int| 0 <= k < elems@.len() implies crate::object::model_seq(
                        elems@,
                    )[k] == (seq![value_model] + rest_model)[k] by {
                        assert(crate::object::model_seq(elems@)[k] == elems@[k].model());
                    }
                    assert(crate::object::model_seq(elems@) =~= seq![value_model] + rest_model);
                }
                Ok((elems, j4))
            },
            Err(e) => Err(e),
        }
    } else {
        Err(parse_error(s, j2, "a comma or a closing bracket"))
    }
}

/// A cursor-based scanner for whole documents. `load` stores a text and
/// arms one `parse` call; after `parse` — success or failure — the parser
/// stays usable through another `load`.
pub struct Parser {
    cur_text: Vec<char>,
    fresh: bool,
}

impl Parser {
    /// The loaded text.
    pub closed spec fn text(&self) -> Seq<char> {
        self.cur_text@
    }

    /// Whether the loaded text is freshly loaded, i.e. not yet consumed by
    /// a `parse` call.
    pub closed spec fn is_fresh(&self) -> bool {
        self.fresh
    }

    /// A parser with an empty buffer.
    pub fn new() -> (r: Parser)
        ensures
            r.text() == Seq::<char>::empty(),
            r.is_fresh(),
    {
        Parser { cur_text: Vec::new(), fresh: true }
    }

    /// Stores `new_text` and resets the cursor; may be called repeatedly
    /// to parse successive documents with the same parser.
    pub fn load(&mut self, new_text: &str)
        ensures
            final (self).text() == new_text@,
            final (self).is_fresh(),
    {
        self.cur_text = str_to_chars(new_text);
        self.fresh = true;
    }

    /// Parses the loaded text into its document, exactly when the text
    /// matches the grammar; every grammar violation yields a typed
    /// `MalformedInput` error instead. A second `parse` without an
    /// intervening `load` yields `MisuseError`. The buffer is kept, and
    /// the parser stays usable for a subsequent `load`.
    pub fn parse(&mut self) -> (r: Result<JsonObject, JsonError>)
        ensures
            final (self).text() == old(self).text(),
            !final (self).is_fresh(),
            match r {
                Ok(o) => old(self).is_fresh() && parse_document(old(self).text()) == Some(o@),
                Err(e) => match e {
                    JsonError::MisuseError => !old(self).is_fresh(),
                    JsonError::MalformedInput { .. } => old(self).is_fresh() && parse_document(
                        old(self).text(),
                    ) is None,
                    _ => false,
                },
            },
    {
        if !self.fresh {
            return Err(JsonError::MisuseError);
        }
        self.fresh = false;
        let i = ws_end(&self.cur_text, 0);
        match parse_object_ex(&self.cur_text, i) {
            Ok((o, _end)) => Ok(o),
            Err(e) => Err(e),
        }
    }
}

} // verus!
