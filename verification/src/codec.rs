//! The hexadecimal codec: parsing optionally `0x`-prefixed hexadecimal
//! text into a [`BigInt`] and rendering a [`BigInt`] back as `0x`-prefixed
//! text, together with the laws the two directions obey.

use vstd::prelude::*;

use crate::big_int::BigInt;
use crate::hex_math::{
    all_hex_digits, digit_chars, digits_value, digits_wf, hex_chars_of, hex_digit_value,
    hex_string_value, int_magnitude, is_hex_digit_char, lemma_canonical_digits_render,
    lemma_digits_match_chars, lemma_hex_chars_of,
};

verus! {

/// What parsing yields: the optional lowercase `0x` prefix is dropped
/// once, and what remains must be one or more hexadecimal digits, whose
/// value (never negative) is the result.
pub open spec fn spec_parse_hex(s: Seq<char>) -> Option<int> {
    let body = strip_hex_prefix(s);
    if body.len() > 0 && all_hex_digits(body) {
        Some(hex_string_value(body) as int)
    } else {
        None
    }
}

/// Drops one leading lowercase `0x`, if the text starts with one.
pub open spec fn strip_hex_prefix(s: Seq<char>) -> Seq<char> {
    if s.len() >= 2 && s[0] == '0' && s[1] == 'x' {
        s.skip(2)
    } else {
        s
    }
}

/// What rendering yields: `0x` followed by the shortest hexadecimal form
/// of the magnitude, preceded by `-` for a negative value.
pub open spec fn spec_hex_render(v: int, upper: bool) -> Seq<char> {
    if v < 0 {
        seq!['-'] + seq!['0', 'x'] + hex_chars_of(int_magnitude(v), upper)
    } else {
        seq!['0', 'x'] + hex_chars_of(int_magnitude(v), upper)
    }
}

/// The error for text that is not hexadecimal: it keeps the offending
/// input for diagnostics.
#[derive(Debug)]
pub struct ParseError {
    input: String,
}

/// The diagnostic text of a [`ParseError`] for the given input.
pub open spec fn parse_error_message(input: Seq<char>) -> Seq<char> {
    "failed to parse hex big int "@ + input + " (parse returned None)"@
}

impl ParseError {
    /// The input that was refused.
    pub closed spec fn spec_input(&self) -> Seq<char> {
        self.input@
    }

    /// The input that was refused.
    pub fn input(&self) -> (r: &str)
        ensures
            r@ == self.spec_input(),
    {
        self.input.as_str()
    }

    /// A diagnostic message naming the offending input.
    pub fn message(&self) -> (m: String)
        ensures
            m@ == parse_error_message(self.spec_input()),
    {
        let mut m = String::from_str("failed to parse hex big int ");
        m.append(self.input.as_str());
        m.append(" (parse returned None)");
        m
    }
}

/// The numeric value of one hexadecimal digit character, or `None` for
/// any other character.
fn hex_digit_val(c: char) -> (r: Option<u8>)
    ensures
        r is Some <==> is_hex_digit_char(c),
        r matches Some(d) ==> d < 16 && d as nat == hex_digit_value(c),
{
    let u = c as u32;
    if 48 <= u && u <= 57 {
        Some((u - 48) as u8)
    } else if 97 <= u && u <= 102 {
        Some((u - 87) as u8)
    } else if 65 <= u && u <= 70 {
        Some((u - 55) as u8)
    } else {
        None
    }
}

/// Parses a hexadecimal string, optionally prefixed with lowercase `0x`,
/// into a non-negative [`BigInt`]. Digits of either letter case are
/// accepted. An empty body or any character outside the hexadecimal
/// alphabet is refused with a [`ParseError`] carrying the input.
pub fn from_hex_to_big_int(s: &str) -> (r: Result<BigInt, ParseError>)
    ensures
        r is Ok <==> spec_parse_hex(s@) is Some,
        (r matches Ok(b) ==> Some(b.value()) == spec_parse_hex(s@)),
        (r matches Err(e) ==> e.spec_input() == s@),
{
    let n = s.unicode_len();
    let start: usize = if n >= 2 && s.get_char(0) == '0' && s.get_char(1) == 'x' {
        2
    } else {
        0
    };
    let ghost body = strip_hex_prefix(s@);
    proof {
        assert(body =~= s@.skip(start as int));
    }
    if start == n {
        return Err(ParseError { input: s.to_owned() });
    }
    let mut raw: Vec<u8> = Vec::new();
    let mut i: usize = start;
    while i < n
        invariant
            start <= i <= n,
            n == s@.len(),
            body == strip_hex_prefix(s@),
            body == s@.skip(start as int),
            raw@.len() == i - start,
            forall|j: int| 0 <= j < i - start ==> is_hex_digit_char(#[trigger] body[j]),
            forall|j: int| 0 <= j < i - start ==> #[trigger] raw@[j] < 16
                && raw@[j] as nat == hex_digit_value(body[j]),
        decreases n - i,
    {
        let c = s.get_char(i);
        proof {
            assert(body[i - start as int] == s@[i as int]);
        }
        match hex_digit_val(c) {
            Some(d) => {
                raw.push(d);
            },
            None => {
                proof {
                    assert(!is_hex_digit_char(body[i - start as int]));
                }
                return Err(ParseError { input: s.to_owned() });
            },
        }
        i += 1;
    }
    proof {
        assert(body.len() == n - start);
        lemma_digits_match_chars(raw@, body);
        assert(digits_wf(raw@));
    }
    let b = BigInt::from_sign_magnitude(false, raw).unwrap();
    Ok(b)
}

/// The string slice holding the single digit character for `d`.
fn digit_char_str(d: u8, upper: bool) -> (r: &'static str)
    requires
        d < 16,
    ensures
        r@ == seq![crate::hex_math::hex_char_of_digit(d as nat, upper)],
{
    proof {
        reveal_strlit("0");
        reveal_strlit("1");
        reveal_strlit("2");
        reveal_strlit("3");
        reveal_strlit("4");
        reveal_strlit("5");
        reveal_strlit("6");
        reveal_strlit("7");
        reveal_strlit("8");
        reveal_strlit("9");
        reveal_strlit("a");
        reveal_strlit("b");
        reveal_strlit("c");
        reveal_strlit("d");
        reveal_strlit("e");
        reveal_strlit("f");
        reveal_strlit("A");
        reveal_strlit("B");
        reveal_strlit("C");
        reveal_strlit("D");
        reveal_strlit("E");
        reveal_strlit("F");
    }
    if d == 0 {
        "0"
    } else if d == 1 {
        "1"
    } else if d == 2 {
        "2"
    } else if d == 3 {
        "3"
    } else if d == 4 {
        "4"
    } else if d == 5 {
        "5"
    } else if d == 6 {
        "6"
    } else if d == 7 {
        "7"
    } else if d == 8 {
        "8"
    } else if d == 9 {
        "9"
    } else if d == 10 {
        if upper { "A" } else { "a" }
    } else if d == 11 {
        if upper { "B" } else { "b" }
    } else if d == 12 {
        if upper { "C" } else { "c" }
    } else if d == 13 {
        if upper { "D" } else { "d" }
    } else if d == 14 {
        if upper { "E" } else { "e" }
    } else {
        if upper { "F" } else { "f" }
    }
}

/// Renders a value as `0x`-prefixed hexadecimal text in the requested
/// letter case, with `-` in front for a negative value.
fn hex_render(v: &BigInt, upper: bool) -> (r: String)
    ensures
        r@ == spec_hex_render(v.value(), upper),
{
    let digits = v.hex_digits();
    let mut out = String::new();
    proof {
        reveal_strlit("-");
        reveal_strlit("0x");
        reveal_strlit("0");
    }
    if v.is_negative() {
        out.append("-");
    }
    out.append("0x");
    let ghost head = out@;
    if digits.len() == 0 {
        out.append("0");
        proof {
            assert(hex_chars_of(int_magnitude(v.value()), upper) =~= seq!['0']);
            assert(out@ =~= spec_hex_render(v.value(), upper));
        }
    } else {
        let mut i: usize = 0;
        while i < digits.len()
            invariant
                i <= digits@.len(),
                digits_wf(digits@),
                out@ == head + digit_chars(digits@.take(i as int), upper),
            decreases digits@.len() - i,
        {
            let ds = digit_char_str(digits[i], upper);
            out.append(ds);
            proof {
                assert(digit_chars(digits@.take(i + 1 as int), upper)
                    =~= digit_chars(digits@.take(i as int), upper)
                        + seq![crate::hex_math::hex_char_of_digit(digits@[i as int] as nat, upper)]);
            }
            i += 1;
        }
        proof {
            assert(digits@.take(digits@.len() as int) =~= digits@);
            lemma_canonical_digits_render(digits@, upper);
            assert(out@ =~= spec_hex_render(v.value(), upper));
        }
    }
    out
}

/// Renders a value as `0x`-prefixed hexadecimal text with uppercase
/// digits, and `-` in front for a negative value.
pub fn big_int_to_upper_hex(v: &BigInt) -> (r: String)
    ensures
        r@ == spec_hex_render(v.value(), true),
{
    hex_render(v, true)
}

/// Renders a value as `0x`-prefixed hexadecimal text with lowercase
/// digits, and `-` in front for a negative value.
pub fn big_int_to_lower_hex(v: &BigInt) -> (r: String)
    ensures
        r@ == spec_hex_render(v.value(), false),
{
    hex_render(v, false)
}

/// Round trip: rendering a non-negative value in either letter case and
/// parsing the result gives back exactly that value.
pub proof fn lemma_render_parse_round_trip(v: int, upper: bool)
    requires
        v >= 0,
    ensures
        spec_parse_hex(spec_hex_render(v, upper)) == Some(v),
{
    lemma_hex_chars_of(v as nat, upper);
    let digits = hex_chars_of(v as nat, upper);
    let s = spec_hex_render(v, upper);
    assert(s == seq!['0', 'x'] + digits);
    assert(s[0] == '0' && s[1] == 'x');
    assert(s.skip(2) =~= digits);
    assert(hex_string_value(digits) == v as nat);
}

/// A negative value renders with a leading `-`, which parsing refuses.
pub proof fn lemma_negative_render_fails(v: int, upper: bool)
    requires
        v < 0,
    ensures
        spec_parse_hex(spec_hex_render(v, upper)) is None,
{
    let s = spec_hex_render(v, upper);
    assert(s[0] == '-');
    assert(strip_hex_prefix(s) == s);
    assert(!is_hex_digit_char('-'));
    assert(!all_hex_digits(s));
}

/// Parsing does not see the letter case of rendering: the uppercase and
/// lowercase renderings of any value parse to the same outcome.
pub proof fn lemma_parse_case_insensitive(v: int)
    ensures
        spec_parse_hex(spec_hex_render(v, true)) == spec_parse_hex(spec_hex_render(v, false)),
{
    if v >= 0 {
        lemma_render_parse_round_trip(v, true);
        lemma_render_parse_round_trip(v, false);
    } else {
        lemma_negative_render_fails(v, true);
        lemma_negative_render_fails(v, false);
    }
}

/// Putting a `0x` prefix in front of bare hexadecimal digits does not
/// change what parsing yields.
pub proof fn lemma_prefix_stripping(s: Seq<char>)
    requires
        s.len() > 0,
        all_hex_digits(s),
    ensures
        spec_parse_hex(seq!['0', 'x'] + s) == spec_parse_hex(s),
{
    let t = seq!['0', 'x'] + s;
    assert(t[0] == '0' && t[1] == 'x');
    assert(t.skip(2) =~= s);
    if s.len() >= 2 {
        assert(is_hex_digit_char(s[1]));
        assert(s[1] != 'x');
    }
    assert(strip_hex_prefix(s) == s);
}

} // verus!
