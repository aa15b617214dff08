//! Exact decimal numbers. A document number is kept as its decimal digits —
//! an integer part and an optional fraction part — in normalized form (no
//! leading zeros on the integer part, no trailing zeros on the fraction).
//! This keeps numeric payloads exact and their printed form canonical.

use vstd::prelude::*;

use crate::error::JsonError;
use crate::model::{is_digit, wf_frac_digits, wf_int_digits};
use crate::parse_spec::{
    all_digits, dot_from, lemma_strip_leading, lemma_strip_trailing, lemma_strip_wf,
    num_token_parts, strip_leading_zeros, strip_trailing_zeros,
};

verus! {

/// A non-negative decimal number, stored as its digit characters.
#[derive(Debug, PartialEq, Eq)]
pub struct JsonNumber {
    int_digits: Vec<char>,
    frac_digits: Vec<char>,
}

impl View for JsonNumber {
    type V = (Seq<char>, Seq<char>);

    closed spec fn view(&self) -> (Seq<char>, Seq<char>) {
        (self.int_digits@, self.frac_digits@)
    }
}

/// The printed form of a number: the integer digits, then `.` and the
/// fraction digits when a fraction is present.
pub open spec fn number_text(int_part: Seq<char>, frac_part: Seq<char>) -> Seq<char> {
    if frac_part.len() == 0 {
        int_part
    } else {
        int_part + seq!['.'] + frac_part
    }
}

/// The decimal digit character for a single digit value.
pub open spec fn digit_char(d: nat) -> char {
    if d == 0 {
        '0'
    } else if d == 1 {
        '1'
    } else if d == 2 {
        '2'
    } else if d == 3 {
        '3'
    } else if d == 4 {
        '4'
    } else if d == 5 {
        '5'
    } else if d == 6 {
        '6'
    } else if d == 7 {
        '7'
    } else if d == 8 {
        '8'
    } else {
        '9'
    }
}

/// The decimal digit characters of `n`, most significant first.
pub open spec fn dec_digits(n: nat) -> Seq<char>
    decreases n,
{
    if n < 10 {
        seq![digit_char(n)]
    } else {
        dec_digits(n / 10) + seq![digit_char(n % 10)]
    }
}

pub proof fn lemma_dec_digits_wf(n: nat)
    ensures
        wf_int_digits(dec_digits(n)),
        n > 0 ==> dec_digits(n)[0] != '0',
    decreases n,
{
    if n >= 10 {
        lemma_dec_digits_wf(n / 10);
    }
}

impl JsonNumber {
    /// The number is in normalized decimal form.
    pub open spec fn wf(self) -> bool {
        wf_int_digits(self@.0) && wf_frac_digits(self@.1)
    }

    /// The whole number `n`.
    pub fn from_u64(n: u64) -> (r: JsonNumber)
        ensures
            r.wf(),
            r@ == (dec_digits(n as nat), Seq::<char>::empty()),
    {
        let mut int_digits: Vec<char> = Vec::new();
        push_dec_digits(n, &mut int_digits);
        proof {
            lemma_dec_digits_wf(n as nat);
        }
        JsonNumber { int_digits, frac_digits: Vec::new() }
    }

    /// Appends the printed form of the number to `out`.
    pub(crate) fn write_text(&self, out: &mut Vec<char>)
        ensures
            final(out)@ == old(out)@ + number_text(self@.0, self@.1),
    {
        let mut i: usize = 0;
        while i < self.int_digits.len()
            invariant
                i <= self.int_digits.len(),
                out@ == old(out)@ + self.int_digits@.take(i as int),
            decreases self.int_digits.len() - i,
        {
            out.push(self.int_digits[i]);
            i = i + 1;
        }
        assert(self.int_digits@.take(self.int_digits@.len() as int) == self.int_digits@);
        if self.frac_digits.len() > 0 {
            out.push('.');
            let mut j: usize = 0;
            while j < self.frac_digits.len()
                invariant
                    j <= self.frac_digits.len(),
                    out@ == old(out)@ + self.int_digits@ + seq!['.']
                        + self.frac_digits@.take(j as int),
                decreases self.frac_digits.len() - j,
            {
                out.push(self.frac_digits[j]);
                j = j + 1;
            }
            assert(self.frac_digits@.take(self.frac_digits@.len() as int) == self.frac_digits@);
        }
    }
}

impl Clone for JsonNumber {
    fn clone(&self) -> (r: Self)
        ensures
            r@ == self@,
    {
        JsonNumber {
            int_digits: copy_chars(&self.int_digits),
            frac_digits: copy_chars(&self.frac_digits),
        }
    }
}

/// A fresh copy of a character vector.
fn copy_chars(v: &Vec<char>) -> (r: Vec<char>)
    ensures
        r@ == v@,
{
    let mut r: Vec<char> = Vec::new();
    let mut i: usize = 0;
    while i < v.len()
        invariant
            i <= v.len(),
            r@ == v@.take(i as int),
        decreases v.len() - i,
    {
        r.push(v[i]);
        i = i + 1;
    }
    assert(v@.take(v@.len() as int) == v@);
    r
}

impl JsonNumber {
    /// A number from already-validated digit parts.
    pub(crate) fn from_parts(int_digits: Vec<char>, frac_digits: Vec<char>) -> (r: JsonNumber)
        ensures
            r@ == (int_digits@, frac_digits@),
    {
        JsonNumber { int_digits, frac_digits }
    }

    /// The printed form of the number, e.g. `7` or `0.25`.
    pub fn digits(&self) -> (r: String)
        ensures
            r@ == number_text(self@.0, self@.1),
    {
        let mut v: Vec<char> = Vec::new();
        self.write_text(&mut v);
        crate::text::chars_to_string(&v)
    }

    /// Reads a number from its decimal digit text, per the grammar
    /// `digits ('.' digits)?`, and normalizes it. Anything else — an empty
    /// text, a sign, an exponent, a second point, a missing digit beside
    /// the point — is malformed.
    pub fn from_digits(text: &str) -> (r: Result<JsonNumber, JsonError>)
        ensures
            match r {
                Ok(n) => {
                    &&& num_token_parts(text@) matches Some(p) && n@ == (
                        strip_leading_zeros(p.0),
                        strip_trailing_zeros(p.1),
                    )
                    &&& n.wf()
                },
                Err(e) => num_token_parts(text@) is None && e is MalformedInput,
            },
    {
        let t = crate::text::str_to_chars(text);
        match number_from_token(t) {
            Some(n) => Ok(n),
            None => Err(
                JsonError::MalformedInput {
                    pos: 0,
                    expected: "a decimal number: digits with at most one point".to_owned(),
                    found: None,
                },
            ),
        }
    }
}

/// Whether every character of `t` is a decimal digit.
fn check_all_digits(t: &Vec<char>) -> (r: bool)
    ensures
        r == all_digits(t@),
{
    let mut i: usize = 0;
    while i < t.len()
        invariant
            i <= t.len(),
            forall|k: int| 0 <= k < i ==> is_digit(#[trigger] t@[k]),
        decreases t.len() - i,
    {
        let u = t[i] as u32;
        if !(48 <= u && u <= 57) {
            return false;
        }
        i = i + 1;
    }
    true
}

/// Splits a digit-run token into its validated, normalized number, or
/// `None` when the token violates the number grammar.
pub(crate) fn number_from_token(t: Vec<char>) -> (r: Option<JsonNumber>)
    ensures
        match r {
            Some(n) => {
                &&& num_token_parts(t@) matches Some(p) && n@ == (
                    strip_leading_zeros(p.0),
                    strip_trailing_zeros(p.1),
                )
                &&& n.wf()
            },
            None => num_token_parts(t@) is None,
        },
{
    let mut d: usize = 0;
    while d < t.len() && t[d] != '.'
        invariant
            0 <= d <= t.len(),
            dot_from(t@, 0) == dot_from(t@, d as int),
        decreases t.len() - d,
    {
        d = d + 1;
    }
    assert(dot_from(t@, 0) == d);
    let int_part: Vec<char>;
    let frac_part: Vec<char>;
    if d == t.len() {
        if t.len() == 0 {
            return None;
        }
        if !check_all_digits(&t) {
            return None;
        }
        assert(t@.subrange(0, t@.len() as int) == t@);
        int_part = t;
        frac_part = Vec::new();
    } else {
        let fp = crate::text::copy_range(&t, d + 1, t.len());
        let ip = crate::text::copy_range(&t, 0, d);
        if ip.len() == 0 || fp.len() == 0 {
            return None;
        }
        if !check_all_digits(&ip) {
            return None;
        }
        if !check_all_digits(&fp) {
            return None;
        }
        int_part = ip;
        frac_part = fp;
    }
    proof {
        lemma_strip_wf(int_part@, frac_part@);
    }
    // normalize: skip leading zeros of the integer part, keeping one digit
    let mut k: usize = 0;
    while k + 1 < int_part.len() && int_part[k] == '0'
        invariant
            0 <= k < int_part.len(),
            forall|j: int| 0 <= j < k ==> #[trigger] int_part@[j] == '0',
        decreases int_part.len() - k,
    {
        k = k + 1;
    }
    proof {
        lemma_strip_leading(int_part@, k as int);
    }
    // normalize: drop trailing zeros of the fraction part
    let mut m: usize = frac_part.len();
    while m > 0 && frac_part[m - 1] == '0'
        invariant
            0 <= m <= frac_part.len(),
            forall|j: int| m <= j < frac_part.len() ==> #[trigger] frac_part@[j] == '0',
        decreases m,
    {
        m = m - 1;
    }
    proof {
        lemma_strip_trailing(frac_part@, m as int);
    }
    let nip = crate::text::copy_range(&int_part, k, int_part.len());
    let nfp = crate::text::copy_range(&frac_part, 0, m);
    Some(JsonNumber { int_digits: nip, frac_digits: nfp })
}

/// The digit character of a single digit value.
fn digit_char_of(d: u64) -> (c: char)
    requires
        d < 10,
    ensures
        c == digit_char(d as nat),
{
    if d == 0 {
        '0'
    } else if d == 1 {
        '1'
    } else if d == 2 {
        '2'
    } else if d == 3 {
        '3'
    } else if d == 4 {
        '4'
    } else if d == 5 {
        '5'
    } else if d == 6 {
        '6'
    } else if d == 7 {
        '7'
    } else if d == 8 {
        '8'
    } else {
        '9'
    }
}

/// Appends the decimal digits of `n`, most significant first.
fn push_dec_digits(n: u64, out: &mut Vec<char>)
    ensures
        final(out)@ == old(out)@ + dec_digits(n as nat),
    decreases n,
{
    if n < 10 {
        out.push(digit_char_of(n));
    } else {
        push_dec_digits(n / 10, out);
        out.push(digit_char_of(n % 10));
    }
}

} // verus!
