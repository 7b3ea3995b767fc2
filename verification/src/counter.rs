//! The arbitrary-precision counter: a non-negative integer held as its
//! canonical decimal digits. Exact addition and scaling by a small factor are
//! carried out by the `num_bigint` crate behind trusted wrappers; everything
//! else — rendering, parsing — is verified digit by digit.

use crate::digits::{
    append_digits, char_digit, char_to_digit, dec_chars, digits_val, digits_wf, is_digit_char,
    lemma_digits_canonical, lemma_digits_val_skip_zeros, u64_to_digits,
};
use vstd::prelude::*;

verus! {

/// A malformed decimal string was handed to the counter.
#[derive(Clone, Copy, PartialEq, Eq, Structural, Debug)]
pub struct ParseError;

/// An arbitrary-precision non-negative integer, stored as its canonical
/// big-endian decimal digits (no leading zeros; `[0]` for zero).
#[derive(Debug)]
pub struct BigCounter {
    pub digits: Vec<u8>,
}

impl View for BigCounter {
    type V = nat;

    open spec fn view(&self) -> nat {
        digits_val(self.digits@)
    }
}

/// Relies on `num_bigint::BigUint`: `from_radix_be(_, 10)` reads base-10
/// digits and returns `Some` whenever every digit is below 10, `+` is exact
/// big-integer addition, and `to_radix_be(10)` returns the base-10 digits
/// most significant first, `[0]` for zero and with no leading zeros otherwise.
#[verifier::external_body]
fn add_digits(a: &Vec<u8>, b: &Vec<u8>) -> (r: Vec<u8>)
    requires
        digits_wf(a@),
        digits_wf(b@),
    ensures
        digits_wf(r@),
        digits_val(r@) == digits_val(a@) + digits_val(b@),
{
    let x = num_bigint::BigUint::from_radix_be(a, 10).unwrap();
    let y = num_bigint::BigUint::from_radix_be(b, 10).unwrap();
    (x + y).to_radix_be(10)
}

/// Relies on `num_bigint::BigUint`: `from_radix_be(_, 10)` reads base-10
/// digits and returns `Some` whenever every digit is below 10, `*` by a `u32`
/// is exact, and `to_radix_be(10)` returns the base-10 digits most
/// significant first, `[0]` for zero and with no leading zeros otherwise.
#[verifier::external_body]
fn scale_digits(a: &Vec<u8>, k: u32) -> (r: Vec<u8>)
    requires
        digits_wf(a@),
    ensures
        digits_wf(r@),
        digits_val(r@) == digits_val(a@) * k,
{
    let x = num_bigint::BigUint::from_radix_be(a, 10).unwrap();
    (x * k).to_radix_be(10)
}

impl BigCounter {
    /// The digits are canonical decimal digits.
    pub open spec fn wf(&self) -> bool {
        digits_wf(self.digits@)
    }

    /// The counter holding a machine integer.
    pub fn from_u64(n: u64) -> (r: BigCounter)
        ensures
            r.wf(),
            r@ == n,
    {
        BigCounter { digits: u64_to_digits(n) }
    }

    /// The counter holding zero.
    pub fn zero() -> (r: BigCounter)
        ensures
            r.wf(),
            r@ == 0,
    {
        BigCounter::from_u64(0)
    }

    /// The counter holding one.
    pub fn one() -> (r: BigCounter)
        ensures
            r.wf(),
            r@ == 1,
    {
        BigCounter::from_u64(1)
    }

    /// An identical copy.
    pub fn dup(&self) -> (r: BigCounter)
        ensures
            r.digits@ == self.digits@,
            r@ == self@,
            r.wf() == self.wf(),
    {
        let mut d: Vec<u8> = Vec::new();
        let mut i: usize = 0;
        while i < self.digits.len()
            invariant
                i <= self.digits@.len(),
                d@ == self.digits@.take(i as int),
            decreases self.digits@.len() - i,
        {
            d.push(self.digits[i]);
            i += 1;
            proof {
                assert(d@ =~= self.digits@.take(i as int));
            }
        }
        proof {
            assert(d@ =~= self.digits@);
        }
        BigCounter { digits: d }
    }

    /// Exact addition.
    pub fn add(&self, other: &BigCounter) -> (r: BigCounter)
        requires
            self.wf(),
            other.wf(),
        ensures
            r.wf(),
            r@ == self@ + other@,
    {
        BigCounter { digits: add_digits(&self.digits, &other.digits) }
    }

    /// Exact multiplication by a small non-negative factor.
    pub fn scale(&self, k: u32) -> (r: BigCounter)
        requires
            self.wf(),
        ensures
            r.wf(),
            r@ == self@ * k,
    {
        BigCounter { digits: scale_digits(&self.digits, k) }
    }

    /// The exact decimal rendering, most significant digit first, no
    /// leading zeros.
    pub fn to_decimal_string(&self) -> (r: String)
        requires
            self.wf(),
        ensures
            r@ == dec_chars(self@),
    {
        proof {
            lemma_digits_canonical(self.digits@);
        }
        let mut out = String::new();
        append_digits(&mut out, &self.digits);
        out
    }

    /// Reads a counter from a decimal string: accepted exactly when the
    /// string is non-empty and all its characters are decimal digits;
    /// leading zeros are allowed and dropped.
    pub fn from_decimal_str(s: &str) -> (r: Result<BigCounter, ParseError>)
        ensures
            r is Ok <==> (s@.len() >= 1 && forall|i: int|
                0 <= i < s@.len() ==> is_digit_char(s@[i])),
            r matches Ok(c) ==> c.wf() && c@ == digits_val(
                s@.map_values(|ch: char| char_digit(ch)),
            ),
    {
        let n = s.unicode_len();
        if n == 0 {
            return Err(ParseError);
        }
        let mut raw: Vec<u8> = Vec::new();
        let mut i: usize = 0;
        while i < n
            invariant
                n == s@.len(),
                i <= n,
                raw@.len() == i,
                forall|k: int| 0 <= k < i ==> is_digit_char(s@[k]),
                forall|k: int| 0 <= k < i ==> raw@[k] == char_digit(s@[k]),
            decreases n - i,
        {
            let c = s.get_char(i);
            match char_to_digit(c) {
                Some(d) => {
                    raw.push(d);
                },
                None => {
                    return Err(ParseError);
                },
            }
            i += 1;
        }
        proof {
            assert(raw@ =~= s@.map_values(|ch: char| char_digit(ch)));
        }
        let mut j: usize = 0;
        while j < raw.len() - 1 && raw[j] == 0
            invariant
                j < raw@.len(),
                forall|k: int| 0 <= k < j ==> raw@[k] == 0,
                raw@.len() >= 1,
            decreases raw@.len() - j,
        {
            j += 1;
        }
        let mut out: Vec<u8> = Vec::new();
        let mut k: usize = j;
        while k < raw.len()
            invariant
                j <= k <= raw@.len(),
                out@ == raw@.subrange(j as int, k as int),
            decreases raw@.len() - k,
        {
            out.push(raw[k]);
            k += 1;
            proof {
                assert(out@ =~= raw@.subrange(j as int, k as int));
            }
        }
        proof {
            assert(out@ =~= raw@.skip(j as int));
            lemma_digits_val_skip_zeros(raw@, j as int);
            assert(forall|t: int| 0 <= t < raw@.len() ==> raw@[t] < 10);
        }
        Ok(BigCounter { digits: out })
    }
}

} // verus!
