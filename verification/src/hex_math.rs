//! The mathematics of hexadecimal notation: what a sequence of hex digit
//! characters denotes, which digit sequences are canonical (no leading
//! zeros), and how a non-negative integer is rendered in hex.

use vstd::prelude::*;

verus! {

/// A hexadecimal digit character: `0`-`9`, `a`-`f`, or `A`-`F`.
pub open spec fn is_hex_digit_char(c: char) -> bool {
    ||| '0' as u32 <= c as u32 && c as u32 <= '9' as u32
    ||| 'a' as u32 <= c as u32 && c as u32 <= 'f' as u32
    ||| 'A' as u32 <= c as u32 && c as u32 <= 'F' as u32
}

/// The numeric value of a hexadecimal digit character.
pub open spec fn hex_digit_value(c: char) -> nat {
    if '0' as u32 <= c as u32 && c as u32 <= '9' as u32 {
        (c as u32 - '0' as u32) as nat
    } else if 'a' as u32 <= c as u32 && c as u32 <= 'f' as u32 {
        (c as u32 - 'a' as u32 + 10) as nat
    } else {
        (c as u32 - 'A' as u32 + 10) as nat
    }
}

/// Every character of `s` is a hexadecimal digit.
pub open spec fn all_hex_digits(s: Seq<char>) -> bool {
    forall|i: int| 0 <= i < s.len() ==> is_hex_digit_char(#[trigger] s[i])
}

/// The number denoted by a sequence of hexadecimal digit characters,
/// most significant digit first.
pub open spec fn hex_string_value(s: Seq<char>) -> nat
    decreases s.len(),
{
    if s.len() == 0 {
        0
    } else {
        16 * hex_string_value(s.drop_last()) + hex_digit_value(s.last())
    }
}

/// Every entry of `d` is the value of a single hexadecimal digit.
pub open spec fn digits_wf(d: Seq<u8>) -> bool {
    forall|i: int| 0 <= i < d.len() ==> #[trigger] d[i] < 16
}

/// The number denoted by a sequence of digit values, most significant first.
pub open spec fn digits_value(d: Seq<u8>) -> nat
    decreases d.len(),
{
    if d.len() == 0 {
        0
    } else {
        16 * digits_value(d.drop_last()) + d.last() as nat
    }
}

/// `16^n`.
pub open spec fn pow16(n: nat) -> nat
    decreases n,
{
    if n == 0 {
        1
    } else {
        16 * pow16((n - 1) as nat)
    }
}

/// The character for digit value `d`, in upper or lower case.
pub open spec fn hex_char_of_digit(d: nat, upper: bool) -> char {
    if d == 0 {
        '0'
    } else if d == 1 {
        '1'
    } else if d == 2 {
        '2'
    } else if d == 3 {
        '3'
    } else if d == 4 {
        '4'
    } else if d == 5 {
        '5'
    } else if d == 6 {
        '6'
    } else if d == 7 {
        '7'
    } else if d == 8 {
        '8'
    } else if d == 9 {
        '9'
    } else if d == 10 {
        if upper { 'A' } else { 'a' }
    } else if d == 11 {
        if upper { 'B' } else { 'b' }
    } else if d == 12 {
        if upper { 'C' } else { 'c' }
    } else if d == 13 {
        if upper { 'D' } else { 'd' }
    } else if d == 14 {
        if upper { 'E' } else { 'e' }
    } else {
        if upper { 'F' } else { 'f' }
    }
}

/// The characters for a sequence of digit values.
pub open spec fn digit_chars(d: Seq<u8>, upper: bool) -> Seq<char> {
    Seq::new(d.len(), |i: int| hex_char_of_digit(d[i] as nat, upper))
}

/// The shortest hexadecimal rendering of `n`: one digit for `n < 16`,
/// otherwise the rendering of `n / 16` followed by the last digit.
pub open spec fn hex_chars_of(n: nat, upper: bool) -> Seq<char>
    decreases n,
{
    if n < 16 {
        seq![hex_char_of_digit(n, upper)]
    } else {
        hex_chars_of(n / 16, upper).push(hex_char_of_digit(n % 16, upper))
    }
}

/// The digit character of `d < 16` is a hex digit and denotes `d` again.
pub proof fn lemma_hex_char_of_digit(d: nat, upper: bool)
    requires
        d < 16,
    ensures
        is_hex_digit_char(hex_char_of_digit(d, upper)),
        hex_digit_value(hex_char_of_digit(d, upper)) == d,
{
}

/// The canonical rendering of `n` is non-empty, consists of hex digits,
/// and denotes `n` again.
pub proof fn lemma_hex_chars_of(n: nat, upper: bool)
    ensures
        hex_chars_of(n, upper).len() >= 1,
        all_hex_digits(hex_chars_of(n, upper)),
        hex_string_value(hex_chars_of(n, upper)) == n,
    decreases n,
{
    if n < 16 {
        lemma_hex_char_of_digit(n, upper);
        let s = hex_chars_of(n, upper);
        assert(s.drop_last() =~= Seq::<char>::empty());
        assert(hex_string_value(s) == 16 * hex_string_value(s.drop_last()) + hex_digit_value(s.last()));
    } else {
        lemma_hex_chars_of(n / 16, upper);
        lemma_hex_char_of_digit(n % 16, upper);
        let prefix = hex_chars_of(n / 16, upper);
        let s = hex_chars_of(n, upper);
        assert(s == prefix.push(hex_char_of_digit(n % 16, upper)));
        assert(s.drop_last() =~= prefix);
        assert forall|i: int| 0 <= i < s.len() implies is_hex_digit_char(#[trigger] s[i]) by {
            if i < prefix.len() {
                assert(s[i] == prefix[i]);
            }
        }
        vstd::arithmetic::div_mod::lemma_fundamental_div_mod(n as int, 16);
        assert(hex_string_value(s) == 16 * hex_string_value(prefix) + hex_digit_value(s.last()));
    }
}

/// A non-empty digit sequence without a leading zero denotes a positive number.
pub proof fn lemma_digits_value_pos(d: Seq<u8>)
    requires
        d.len() > 0,
        d[0] != 0,
    ensures
        digits_value(d) >= 1,
    decreases d.len(),
{
    if d.len() == 1 {
        assert(d.drop_last() =~= Seq::<u8>::empty());
    } else {
        lemma_digits_value_pos(d.drop_last());
    }
}

/// Rendering the number denoted by a canonical digit sequence gives back
/// exactly the characters of that sequence.
pub proof fn lemma_canonical_digits_render(d: Seq<u8>, upper: bool)
    requires
        d.len() > 0,
        d[0] != 0,
        digits_wf(d),
    ensures
        hex_chars_of(digits_value(d), upper) == digit_chars(d, upper),
    decreases d.len(),
{
    let n = digits_value(d);
    if d.len() == 1 {
        assert(d.drop_last() =~= Seq::<u8>::empty());
        assert(n == d[0]);
        assert(hex_chars_of(n, upper) =~= digit_chars(d, upper));
    } else {
        let q = digits_value(d.drop_last());
        let r = d.last();
        assert(d.drop_last()[0] == d[0]);
        lemma_digits_value_pos(d.drop_last());
        assert(n == 16 * q + r);
        assert(n >= 16);
        vstd::arithmetic::div_mod::lemma_fundamental_div_mod_converse(n as int, 16, q as int, r as int);
        assert(n / 16 == q && n % 16 == r as nat);
        lemma_canonical_digits_render(d.drop_last(), upper);
        assert(hex_chars_of(n, upper) == digit_chars(d.drop_last(), upper).push(hex_char_of_digit(r as nat, upper)));
        assert(hex_chars_of(n, upper) =~= digit_chars(d, upper));
    }
}

/// Putting one more significant digit in front multiplies its weight by
/// sixteen to the length of the rest.
pub proof fn lemma_digits_value_prepend(d: u8, s: Seq<u8>)
    ensures
        digits_value(seq![d] + s) == d * pow16(s.len()) + digits_value(s),
    decreases s.len(),
{
    if s.len() == 0 {
        assert(seq![d] + s =~= seq![d]);
        assert(seq![d].drop_last() =~= Seq::<u8>::empty());
        assert(digits_value(Seq::<u8>::empty()) == 0);
        assert(seq![d].last() == d);
        assert(digits_value(seq![d] + s) == d as nat);
        assert(pow16(s.len()) == 1);
        assert(d as nat * 1 == d as nat);
    } else {
        let t = seq![d] + s;
        assert(t.drop_last() =~= seq![d] + s.drop_last());
        assert(t.last() == s.last());
        lemma_digits_value_prepend(d, s.drop_last());
        let p = pow16((s.len() - 1) as nat);
        let x = digits_value(s.drop_last());
        assert(pow16(s.len()) == 16 * p);
        assert(digits_value(t) == 16 * (d as nat * p + x) + s.last() as nat);
        assert(16 * (d as nat * p + x) == d as nat * (16 * p) + 16 * x) by (nonlinear_arith);
        assert(d as nat * pow16(s.len()) == d as nat * (16 * p));
        assert(digits_value(s) == 16 * x + s.last() as nat);
        assert(digits_value(seq![d] + s) == d as nat * pow16(s.len()) + digits_value(s));
    }
}

/// The absolute value of an integer, as a natural number.
pub open spec fn int_magnitude(v: int) -> nat {
    if v < 0 {
        (-v) as nat
    } else {
        v as nat
    }
}

/// Two canonical digit sequences denoting the same number are equal.
pub proof fn lemma_canonical_digits_unique(a: Seq<u8>, b: Seq<u8>)
    requires
        digits_wf(a),
        digits_wf(b),
        a.len() > 0 ==> a[0] != 0,
        b.len() > 0 ==> b[0] != 0,
        digits_value(a) == digits_value(b),
    ensures
        a == b,
{
    if a.len() == 0 {
        if b.len() > 0 {
            lemma_digits_value_pos(b);
        }
        assert(a =~= b);
    } else if b.len() == 0 {
        lemma_digits_value_pos(a);
    } else {
        lemma_canonical_digits_render(a, false);
        lemma_canonical_digits_render(b, false);
        assert(digit_chars(a, false) == digit_chars(b, false));
        assert(a.len() == b.len());
        assert forall|i: int| 0 <= i < a.len() implies a[i] == b[i] by {
            assert(digit_chars(a, false)[i] == digit_chars(b, false)[i]);
            lemma_hex_char_of_digit(a[i] as nat, false);
            lemma_hex_char_of_digit(b[i] as nat, false);
        }
        assert(a =~= b);
    }
}

/// Digit values and digit characters that agree pointwise denote the
/// same number.
pub proof fn lemma_digits_match_chars(d: Seq<u8>, c: Seq<char>)
    requires
        d.len() == c.len(),
        forall|i: int| 0 <= i < d.len() ==> #[trigger] d[i] as nat == hex_digit_value(c[i]),
    ensures
        digits_value(d) == hex_string_value(c),
    decreases d.len(),
{
    if d.len() > 0 {
        assert(forall|i: int| 0 <= i < d.len() - 1 ==> #[trigger] d.drop_last()[i] == d[i]);
        lemma_digits_match_chars(d.drop_last(), c.drop_last());
        assert(d.last() as nat == hex_digit_value(c.last()));
    }
}

} // verus!
