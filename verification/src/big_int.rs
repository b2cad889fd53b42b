//! A signed integer of unbounded magnitude, kept as a sign and the
//! canonical sequence of hexadecimal digit values of its magnitude
//! (most significant digit first, no leading zeros, zero as the empty
//! sequence, and no negative zero).

use vstd::prelude::*;

use crate::hex_math::{
    digits_value, digits_wf, int_magnitude, lemma_canonical_digits_unique,
    lemma_digits_value_pos, lemma_digits_value_prepend, pow16,
};

verus! {

/// An arbitrary-precision signed integer.
#[derive(Debug)]
pub struct BigInt {
    negative: bool,
    digits: Vec<u8>,
}

impl BigInt {
    /// Every digit is below sixteen, there is no leading zero digit, and
    /// a negative value has at least one digit.
    #[verifier::type_invariant]
    spec fn inv(self) -> bool {
        &&& digits_wf(self.digits@)
        &&& self.digits@.len() > 0 ==> self.digits@[0] != 0
        &&& self.negative ==> self.digits@.len() > 0
    }

    /// The integer this value stands for.
    pub closed spec fn value(self) -> int {
        if self.negative {
            -(digits_value(self.digits@) as int)
        } else {
            digits_value(self.digits@) as int
        }
    }

    /// Builds the integer with the given sign whose magnitude the given
    /// hexadecimal digit values denote, most significant first. Leading
    /// zero digits are allowed and ignored; a digit of sixteen or more
    /// is refused.
    pub fn from_sign_magnitude(negative: bool, digits: Vec<u8>) -> (r: Option<BigInt>)
        ensures
            r is Some <==> digits_wf(digits@),
            (r matches Some(b) ==> b.value() == if negative {
                -(digits_value(digits@) as int)
            } else {
                digits_value(digits@) as int
            }),
    {
        let ghost orig = digits@;
        let mut i: usize = 0;
        while i < digits.len()
            invariant
                i <= digits.len(),
                digits@ == orig,
                forall|j: int| 0 <= j < i ==> #[trigger] orig[j] < 16,
            decreases digits.len() - i,
        {
            if digits[i] >= 16 {
                proof {
                    assert(orig[i as int] >= 16);
                }
                return None;
            }
            i += 1;
        }
        let mut mag = digits;
        while mag.len() > 0 && mag[0] == 0
            invariant
                digits_wf(mag@),
                digits_value(mag@) == digits_value(orig),
            decreases mag@.len(),
        {
            let ghost before = mag@;
            mag.remove(0);
            proof {
                assert(before =~= seq![before[0]] + mag@);
                lemma_digits_value_prepend(before[0], mag@);
            }
        }
        let has_digits = mag.len() > 0;
        Some(BigInt { negative: negative && has_digits, digits: mag })
    }

    /// Builds the integer equal to the given machine integer.
    pub fn from_i128(v: i128) -> (r: BigInt)
        ensures
            r.value() == v as int,
    {
        let negative = v < 0;
        let mag: u128 = if v >= 0 {
            v as u128
        } else {
            ((-(v + 1)) as u128) + 1
        };
        proof {
            assert(mag as int == int_magnitude(v as int));
        }
        let digits = u128_hex_digits(mag);
        let neg = negative && digits.len() > 0;
        BigInt { negative: neg, digits }
    }

    /// Whether the value is below zero.
    pub fn is_negative(&self) -> (r: bool)
        ensures
            r == (self.value() < 0),
    {
        proof {
            use_type_invariant(&*self);
            if self.negative {
                lemma_digits_value_pos(self.digits@);
            }
        }
        self.negative
    }

    /// The hexadecimal digit values of the magnitude, most significant
    /// first, without leading zeros; empty exactly for the value zero.
    pub fn hex_digits(&self) -> (r: Vec<u8>)
        ensures
            digits_wf(r@),
            r@.len() > 0 ==> r@[0] != 0,
            digits_value(r@) == int_magnitude(self.value()),
            r@.len() == 0 <==> self.value() == 0,
    {
        proof {
            use_type_invariant(&*self);
            if self.digits@.len() > 0 {
                lemma_digits_value_pos(self.digits@);
            }
        }
        let mut r: Vec<u8> = Vec::new();
        let mut i: usize = 0;
        while i < self.digits.len()
            invariant
                i <= self.digits@.len(),
                r@ == self.digits@.take(i as int),
            decreases self.digits@.len() - i,
        {
            r.push(self.digits[i]);
            proof {
                assert(r@ =~= self.digits@.take(i + 1 as int));
            }
            i += 1;
        }
        proof {
            assert(r@ =~= self.digits@);
        }
        r
    }
}

/// The canonical digit values of a machine integer's magnitude.
fn u128_hex_digits(m: u128) -> (r: Vec<u8>)
    ensures
        digits_wf(r@),
        r@.len() > 0 ==> r@[0] != 0,
        digits_value(r@) == m as nat,
        r@.len() == 0 <==> m == 0,
{
    let mut digits: Vec<u8> = Vec::new();
    let mut cur = m;
    proof {
        assert(pow16(0) == 1);
    }
    while cur > 0
        invariant
            digits_wf(digits@),
            m as nat == cur as nat * pow16(digits@.len()) + digits_value(digits@),
            digits@.len() > 0 ==> (cur > 0 || digits@[0] != 0),
            digits@.len() == 0 ==> cur as nat == m as nat,
        decreases cur,
    {
        let ghost before = digits@;
        let ghost cur0 = cur as nat;
        let d = (cur % 16) as u8;
        digits.insert(0, d);
        cur = cur / 16;
        proof {
            vstd::arithmetic::div_mod::lemma_fundamental_div_mod(cur0 as int, 16);
            assert(digits@ =~= seq![d] + before);
            lemma_digits_value_prepend(d, before);
            let p = pow16(before.len());
            let cn = cur as nat;
            assert(pow16(digits@.len()) == 16 * p);
            assert(cur0 == 16 * cn + d);
            assert(cur0 * p == (16 * cn + d) * p);
            assert((16 * cn + d as nat) * p == cn * (16 * p) + d as nat * p) by (nonlinear_arith);
            assert(m as nat == cn * pow16(digits@.len()) + digits_value(digits@));
            if cn == 0 {
                assert(d as nat == cur0);
            }
        }
    }
    proof {
        if digits@.len() == 0 {
        } else {
            assert(digits_value(digits@) == m as nat);
            lemma_digits_value_pos(digits@);
        }
    }
    digits
}

/// Element-wise comparison of two digit vectors.
fn digits_equal(a: &Vec<u8>, b: &Vec<u8>) -> (r: bool)
    ensures
        r <==> a@ == b@,
{
    if a.len() != b.len() {
        return false;
    }
    let mut i: usize = 0;
    while i < a.len()
        invariant
            i <= a@.len(),
            a@.len() == b@.len(),
            forall|j: int| 0 <= j < i ==> #[trigger] a@[j] == b@[j],
        decreases a@.len() - i,
    {
        if a[i] != b[i] {
            return false;
        }
        i += 1;
    }
    proof {
        assert(a@ =~= b@);
    }
    true
}

impl Clone for BigInt {
    /// A clone stands for the same integer.
    fn clone(&self) -> (r: Self)
        ensures
            r.value() == self.value(),
    {
        proof {
            use_type_invariant(&*self);
        }
        let digits = self.hex_digits();
        proof {
            if self.negative {
                lemma_digits_value_pos(self.digits@);
            }
        }
        BigInt { negative: self.negative, digits }
    }
}

impl Default for BigInt {
    /// The default value is zero.
    fn default() -> (r: Self)
        ensures
            r.value() == 0,
    {
        BigInt { negative: false, digits: Vec::new() }
    }
}

impl PartialEq for BigInt {
    /// Two values compare equal exactly when they stand for the same integer.
    fn eq(&self, other: &Self) -> (r: bool) {
        proof {
            use_type_invariant(&*self);
            use_type_invariant(&*other);
        }
        let same = self.negative == other.negative && digits_equal(&self.digits, &other.digits);
        proof {
            if !same {
                if self.negative != other.negative {
                    if self.negative {
                        lemma_digits_value_pos(self.digits@);
                    } else {
                        lemma_digits_value_pos(other.digits@);
                    }
                } else {
                    if self.value() == other.value() {
                        lemma_canonical_digits_unique(self.digits@, other.digits@);
                    }
                }
            }
        }
        same
    }
}

impl Eq for BigInt {}

impl vstd::std_specs::cmp::PartialEqSpecImpl for BigInt {
    open spec fn obeys_eq_spec() -> bool {
        true
    }

    open spec fn eq_spec(&self, other: &Self) -> bool {
        self.value() == other.value()
    }
}

} // verus!
