//! The mathematical model of a document: an ordered sequence of key/value
//! pairs whose values are drawn from six kinds of value.

use vstd::prelude::*;

verus! {

/// The abstract value of a document node. Numbers are modelled as exact
/// decimal digit sequences (integer digits, fraction digits); text as
/// sequences of characters; objects as ordered key/value pair sequences.
#[verifier::ext_equal]
pub enum ValueModel {
    Bool(bool),
    Number(Seq<char>, Seq<char>),
    Str(Seq<char>),
    Array(Seq<ValueModel>),
    Object(Seq<(Seq<char>, ValueModel)>),
    Null,
}

pub open spec fn is_digit(c: char) -> bool {
    48 <= c as u32 <= 57
}

/// A well-formed integer part: at least one digit, and no leading zero
/// unless the whole part is a single `0`.
pub open spec fn wf_int_digits(s: Seq<char>) -> bool {
    &&& s.len() > 0
    &&& forall|i: int| 0 <= i < s.len() ==> is_digit(#[trigger] s[i])
    &&& s.len() > 1 ==> s[0] != '0'
}

/// A well-formed fraction part: all digits, possibly empty (an integer),
/// and no trailing zero.
pub open spec fn wf_frac_digits(s: Seq<char>) -> bool {
    &&& forall|i: int| 0 <= i < s.len() ==> is_digit(#[trigger] s[i])
    &&& s.len() > 0 ==> s[s.len() - 1] != '0'
}

/// Every number in the value is in normalized decimal form.
pub open spec fn wf_value(m: ValueModel) -> bool
    decreases m, 1int,
{
    match m {
        ValueModel::Number(int_part, frac_part) => wf_int_digits(int_part) && wf_frac_digits(
            frac_part,
        ),
        ValueModel::Array(elems) => wf_elems(elems),
        ValueModel::Object(fields) => wf_fields(fields),
        _ => true,
    }
}

pub open spec fn wf_elems(elems: Seq<ValueModel>) -> bool
    decreases elems, 0int,
{
    if elems.len() == 0 {
        true
    } else {
        wf_value(elems[0]) && wf_elems(elems.drop_first())
    }
}

pub open spec fn wf_fields(fields: Seq<(Seq<char>, ValueModel)>) -> bool
    decreases fields, 0int,
{
    if fields.len() == 0 {
        true
    } else {
        wf_value(fields[0].1) && wf_fields(fields.drop_first())
    }
}

/// The first index of `key` among the pairs, or -1 when absent.
pub open spec fn key_index(fields: Seq<(Seq<char>, ValueModel)>, key: Seq<char>) -> int
    decreases fields.len(),
{
    if fields.len() == 0 {
        -1
    } else if fields[0].0 == key {
        0
    } else {
        let rest = key_index(fields.drop_first(), key);
        if rest == -1 {
            -1
        } else {
            rest + 1
        }
    }
}

pub open spec fn has_key(fields: Seq<(Seq<char>, ValueModel)>, key: Seq<char>) -> bool {
    key_index(fields, key) != -1
}

/// The value stored at the first occurrence of `key`.
pub open spec fn lookup(fields: Seq<(Seq<char>, ValueModel)>, key: Seq<char>) -> ValueModel {
    fields[key_index(fields, key)].1
}

/// The pair sequence after storing `value` under `key`: replaced in place
/// when the key is already present, appended at the end otherwise.
pub open spec fn set_entry(
    fields: Seq<(Seq<char>, ValueModel)>,
    key: Seq<char>,
    value: ValueModel,
) -> Seq<(Seq<char>, ValueModel)> {
    if has_key(fields, key) {
        fields.update(key_index(fields, key), (key, value))
    } else {
        fields.push((key, value))
    }
}

/// `key_index` returns the first matching index, and -1 exactly when no
/// pair carries the key.
pub proof fn lemma_key_index(fields: Seq<(Seq<char>, ValueModel)>, key: Seq<char>)
    ensures
        key_index(fields, key) == -1 ==> forall|i: int|
            0 <= i < fields.len() ==> (#[trigger] fields[i]).0 != key,
        key_index(fields, key) != -1 ==> {
            &&& 0 <= key_index(fields, key) < fields.len()
            &&& fields[key_index(fields, key)].0 == key
            &&& forall|i: int| 0 <= i < key_index(fields, key) ==> (#[trigger] fields[i]).0 != key
        },
    decreases fields.len(),
{
    if fields.len() > 0 && fields[0].0 != key {
        lemma_key_index(fields.drop_first(), key);
        assert(forall|i: int|
            1 <= i < fields.len() ==> #[trigger] fields[i] == fields.drop_first()[i - 1]);
    }
}

/// Law: after storing `value` under `key`, the key is present and a lookup
/// of it yields exactly `value` — whichever kind of value is stored.
pub proof fn lemma_set_then_lookup(
    fields: Seq<(Seq<char>, ValueModel)>,
    key: Seq<char>,
    value: ValueModel,
)
    ensures
        has_key(set_entry(fields, key, value), key),
        lookup(set_entry(fields, key, value), key) == value,
        key_index(set_entry(fields, key, value), key) == if has_key(fields, key) {
            key_index(fields, key)
        } else {
            fields.len() as int
        },
{
    lemma_key_index(fields, key);
    let s = set_entry(fields, key, value);
    lemma_key_index(s, key);
    if has_key(fields, key) {
        let ki = key_index(fields, key);
        assert(s[ki].0 == key);
        assert(key_index(s, key) != -1);
        assert(forall|j: int| 0 <= j < ki ==> (#[trigger] s[j]) == fields[j]);
        assert(!(key_index(s, key) < ki) && !(key_index(s, key) > ki));
    } else {
        assert(s[fields.len() as int].0 == key);
        assert(key_index(s, key) != -1);
        assert(forall|j: int| 0 <= j < fields.len() ==> (#[trigger] s[j]) == fields[j]);
        assert(!(key_index(s, key) < fields.len()) && !(key_index(s, key) > fields.len()));
    }
}

/// Law: storing under a key never disturbs the other pairs. Re-setting an
/// existing key keeps its original position and every other pair in place;
/// a new key is appended after all existing pairs.
pub proof fn lemma_set_keeps_positions(
    fields: Seq<(Seq<char>, ValueModel)>,
    key: Seq<char>,
    value: ValueModel,
)
    ensures
        has_key(fields, key) ==> {
            &&& set_entry(fields, key, value).len() == fields.len()
            &&& forall|j: int|
                0 <= j < fields.len() && j != key_index(fields, key) ==> #[trigger] set_entry(
                    fields,
                    key,
                    value,
                )[j] == fields[j]
            &&& set_entry(fields, key, value)[key_index(fields, key)] == (key, value)
        },
        !has_key(fields, key) ==> {
            &&& set_entry(fields, key, value).len() == fields.len() + 1
            &&& forall|j: int|
                0 <= j < fields.len() ==> #[trigger] set_entry(fields, key, value)[j] == fields[j]
            &&& set_entry(fields, key, value)[fields.len() as int] == (key, value)
        },
{
    lemma_key_index(fields, key);
}

} // verus!
