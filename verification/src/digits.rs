//! Base-10 digit sequences: the mathematical model behind the big counter and
//! behind every decimal rendering in the crate.

use vstd::prelude::*;
use vstd::string::StringExecFns;

verus! {

/// A well-formed big-endian digit sequence: non-empty, every digit below 10,
/// and no leading zero (except for the single digit `0` itself).
pub open spec fn digits_wf(s: Seq<u8>) -> bool {
    &&& s.len() >= 1
    &&& forall|i: int| 0 <= i < s.len() ==> s[i] < 10
    &&& s.len() > 1 ==> s[0] != 0
}

/// The number denoted by a big-endian digit sequence.
pub open spec fn digits_val(s: Seq<u8>) -> nat
    decreases s.len(),
{
    if s.len() == 0 {
        0
    } else {
        digits_val(s.drop_last()) * 10 + s.last() as nat
    }
}

/// The canonical digit sequence of `n`: no leading zeros, `[0]` for zero.
pub open spec fn dec_digits(n: nat) -> Seq<u8>
    decreases n,
{
    if n < 10 {
        seq![n as u8]
    } else {
        dec_digits(n / 10).push((n % 10) as u8)
    }
}

/// The canonical digit sequence is never empty, and has more than one digit
/// exactly when the number is at least 10.
pub proof fn lemma_dec_digits_len(n: nat)
    ensures
        dec_digits(n).len() >= 1,
        n >= 10 ==> dec_digits(n).len() >= 2,
    decreases n,
{
    if n >= 10 {
        lemma_dec_digits_len(n / 10);
    }
}

/// The canonical digit sequence denotes the number it was built from,
/// and is well formed.
pub proof fn lemma_dec_digits_wf_val(n: nat)
    ensures
        digits_wf(dec_digits(n)),
        digits_val(dec_digits(n)) == n,
    decreases n,
{
    if n < 10 {
        let s = seq![n as u8];
        assert(s.drop_last() =~= Seq::<u8>::empty());
        assert(digits_val(Seq::<u8>::empty()) == 0);
        assert(s.last() == n as u8);
        assert(digits_val(s) == digits_val(s.drop_last()) * 10 + s.last() as nat);
        assert(digits_val(s) == n);
    } else {
        lemma_dec_digits_wf_val(n / 10);
        let p = dec_digits(n / 10);
        let d = (n % 10) as u8;
        assert(p.push(d).drop_last() =~= p);
        assert(p.push(d).last() == d);
        vstd::arithmetic::div_mod::lemma_fundamental_div_mod(n as int, 10);
        assert(digits_val(p.push(d)) == n);
        assert(p.push(d)[0] == p[0]);
        if n / 10 < 10 {
            assert(p =~= seq![(n / 10) as u8]);
            assert(n / 10 >= 1);
            assert(p[0] != 0);
        } else {
            lemma_dec_digits_len(n / 10);
            assert(p.len() > 1);
            assert(p[0] != 0);
        }
    }
}

/// A non-zero leading digit makes the whole number non-zero.
pub proof fn lemma_digits_val_pos(s: Seq<u8>)
    requires
        s.len() >= 1,
        s[0] != 0,
    ensures
        digits_val(s) >= 1,
    decreases s.len(),
{
    if s.len() > 1 {
        lemma_digits_val_pos(s.drop_last());
    }
}

/// A well-formed digit sequence is the canonical rendering of its value.
pub proof fn lemma_digits_canonical(s: Seq<u8>)
    requires
        digits_wf(s),
    ensures
        dec_digits(digits_val(s)) == s,
    decreases s.len(),
{
    if s.len() == 1 {
        assert(s.drop_last() =~= Seq::<u8>::empty());
        assert(digits_val(Seq::<u8>::empty()) == 0);
        assert(s.last() == s[0]);
        assert(digits_val(s) == s[0]);
        assert(dec_digits(digits_val(s)) =~= s);
    } else {
        let p = s.drop_last();
        assert(digits_wf(p)) by {
            assert(forall|i: int| 0 <= i < p.len() ==> p[i] == s[i]);
        }
        lemma_digits_val_pos(p);
        let v = digits_val(s);
        vstd::arithmetic::div_mod::lemma_fundamental_div_mod_converse(
            v as int,
            10,
            digits_val(p) as int,
            s.last() as int,
        );
        lemma_digits_canonical(p);
        assert(dec_digits(v) =~= s);
    }
}

/// A sequence of zero digits denotes zero.
pub proof fn lemma_digits_val_zeros(s: Seq<u8>)
    requires
        forall|i: int| 0 <= i < s.len() ==> s[i] == 0,
    ensures
        digits_val(s) == 0,
    decreases s.len(),
{
    if s.len() > 0 {
        lemma_digits_val_zeros(s.drop_last());
    }
}

/// Dropping a prefix of zero digits does not change the value.
pub proof fn lemma_digits_val_skip_zeros(s: Seq<u8>, j: int)
    requires
        0 <= j <= s.len(),
        forall|i: int| 0 <= i < j ==> s[i] == 0,
    ensures
        digits_val(s.skip(j)) == digits_val(s),
    decreases s.len(),
{
    if j == s.len() {
        assert(s.skip(j) =~= Seq::<u8>::empty());
        lemma_digits_val_zeros(s);
    } else {
        assert(s.skip(j).drop_last() =~= s.drop_last().skip(j));
        assert(s.skip(j).last() == s.last());
        lemma_digits_val_skip_zeros(s.drop_last(), j);
    }
}

/// Extending a prefix by one digit multiplies its value by ten and adds the digit.
pub proof fn lemma_digits_val_take_succ(s: Seq<u8>, i: int)
    requires
        0 <= i < s.len(),
    ensures
        digits_val(s.take(i + 1)) == digits_val(s.take(i)) * 10 + s[i] as nat,
{
    assert(s.take(i + 1).drop_last() =~= s.take(i));
    assert(s.take(i + 1).last() == s[i]);
}

/// A prefix never denotes more than the whole sequence.
pub proof fn lemma_digits_val_take_le(s: Seq<u8>, i: int)
    requires
        0 <= i <= s.len(),
    ensures
        digits_val(s.take(i)) <= digits_val(s),
    decreases s.len() - i,
{
    if i == s.len() {
        assert(s.take(i) =~= s);
    } else {
        lemma_digits_val_take_succ(s, i);
        lemma_digits_val_take_le(s, i + 1);
    }
}

/// The character that renders one digit.
pub open spec fn digit_char(d: u8) -> char {
    if d == 0 {
        '0'
    } else if d == 1 {
        '1'
    } else if d == 2 {
        '2'
    } else if d == 3 {
        '3'
    } else if d == 4 {
        '4'
    } else if d == 5 {
        '5'
    } else if d == 6 {
        '6'
    } else if d == 7 {
        '7'
    } else if d == 8 {
        '8'
    } else {
        '9'
    }
}

/// Whether a character is a decimal digit.
pub open spec fn is_digit_char(c: char) -> bool {
    ||| c == '0'
    ||| c == '1'
    ||| c == '2'
    ||| c == '3'
    ||| c == '4'
    ||| c == '5'
    ||| c == '6'
    ||| c == '7'
    ||| c == '8'
    ||| c == '9'
}

/// The digit a decimal-digit character denotes.
pub open spec fn char_digit(c: char) -> u8 {
    if c == '0' {
        0
    } else if c == '1' {
        1
    } else if c == '2' {
        2
    } else if c == '3' {
        3
    } else if c == '4' {
        4
    } else if c == '5' {
        5
    } else if c == '6' {
        6
    } else if c == '7' {
        7
    } else if c == '8' {
        8
    } else {
        9
    }
}

/// The characters that render a digit sequence.
pub open spec fn chars_of_digits(s: Seq<u8>) -> Seq<char> {
    s.map_values(|d: u8| digit_char(d))
}

/// The canonical decimal rendering of a number.
pub open spec fn dec_chars(n: nat) -> Seq<char> {
    chars_of_digits(dec_digits(n))
}

/// Rendering a digit yields a digit character, reading it back yields the
/// digit, and rendering what a digit character denotes yields it again.
pub proof fn lemma_digit_char_facts()
    ensures
        forall|d: u8| d < 10 ==> is_digit_char(#[trigger] digit_char(d)),
        forall|d: u8| d < 10 ==> char_digit(#[trigger] digit_char(d)) == d,
        forall|c: char| is_digit_char(c) ==> digit_char(#[trigger] char_digit(c)) == c,
{
}

/// A number at least one renders with a non-zero leading digit.
pub proof fn lemma_dec_digits_leading(n: nat)
    requires
        n >= 1,
    ensures
        dec_digits(n)[0] != 0,
{
    lemma_dec_digits_wf_val(n);
    if n < 10 {
        assert(dec_digits(n) =~= seq![n as u8]);
    } else {
        lemma_dec_digits_len(n);
    }
}

/// Reads one character back as a digit.
pub fn char_to_digit(c: char) -> (r: Option<u8>)
    ensures
        r == (if is_digit_char(c) {
            Some(char_digit(c))
        } else {
            None::<u8>
        }),
{
    if c == '0' {
        Some(0)
    } else if c == '1' {
        Some(1)
    } else if c == '2' {
        Some(2)
    } else if c == '3' {
        Some(3)
    } else if c == '4' {
        Some(4)
    } else if c == '5' {
        Some(5)
    } else if c == '6' {
        Some(6)
    } else if c == '7' {
        Some(7)
    } else if c == '8' {
        Some(8)
    } else if c == '9' {
        Some(9)
    } else {
        None
    }
}

/// Appends the character of one digit to a string.
pub fn append_digit_char(out: &mut String, d: u8)
    requires
        d < 10,
    ensures
        final(out)@ == old(out)@.push(digit_char(d)),
{
    if d == 0 {
        out.append("0");
        proof {
            reveal_strlit("0");
            assert(final(out)@ =~= old(out)@.push(digit_char(d)));
        }
    } else if d == 1 {
        out.append("1");
        proof {
            reveal_strlit("1");
            assert(final(out)@ =~= old(out)@.push(digit_char(d)));
        }
    } else if d == 2 {
        out.append("2");
        proof {
            reveal_strlit("2");
            assert(final(out)@ =~= old(out)@.push(digit_char(d)));
        }
    } else if d == 3 {
        out.append("3");
        proof {
            reveal_strlit("3");
            assert(final(out)@ =~= old(out)@.push(digit_char(d)));
        }
    } else if d == 4 {
        out.append("4");
        proof {
            reveal_strlit("4");
            assert(final(out)@ =~= old(out)@.push(digit_char(d)));
        }
    } else if d == 5 {
        out.append("5");
        proof {
            reveal_strlit("5");
            assert(final(out)@ =~= old(out)@.push(digit_char(d)));
        }
    } else if d == 6 {
        out.append("6");
        proof {
            reveal_strlit("6");
            assert(final(out)@ =~= old(out)@.push(digit_char(d)));
        }
    } else if d == 7 {
        out.append("7");
        proof {
            reveal_strlit("7");
            assert(final(out)@ =~= old(out)@.push(digit_char(d)));
        }
    } else if d == 8 {
        out.append("8");
        proof {
            reveal_strlit("8");
            assert(final(out)@ =~= old(out)@.push(digit_char(d)));
        }
    } else {
        out.append("9");
        proof {
            reveal_strlit("9");
            assert(final(out)@ =~= old(out)@.push(digit_char(d)));
        }
    }
}

/// Appends the characters of a digit sequence to a string.
pub fn append_digits(out: &mut String, d: &Vec<u8>)
    requires
        forall|i: int| 0 <= i < d@.len() ==> d@[i] < 10,
    ensures
        final(out)@ == old(out)@ + chars_of_digits(d@),
{
    let mut i: usize = 0;
    while i < d.len()
        invariant
            i <= d@.len(),
            forall|k: int| 0 <= k < d@.len() ==> d@[k] < 10,
            out@ == old(out)@ + chars_of_digits(d@.take(i as int)),
        decreases d@.len() - i,
    {
        append_digit_char(out, d[i]);
        i += 1;
        proof {
            assert(chars_of_digits(d@.take(i as int)) =~= chars_of_digits(
                d@.take(i as int - 1),
            ).push(digit_char(d@[i as int - 1])));
            assert(out@ =~= old(out)@ + chars_of_digits(d@.take(i as int)));
        }
    }
    proof {
        assert(d@.take(d@.len() as int) =~= d@);
    }
}

/// Appends the decimal digits of `n` to `out`, most significant first.
fn push_u64_digits(n: u64, out: &mut Vec<u8>)
    ensures
        final(out)@ == old(out)@ + dec_digits(n as nat),
    decreases n,
{
    if n < 10 {
        out.push(n as u8);
        assert(final(out)@ =~= old(out)@ + dec_digits(n as nat));
    } else {
        push_u64_digits(n / 10, out);
        out.push((n % 10) as u8);
        assert(final(out)@ =~= old(out)@ + dec_digits(n as nat));
    }
}

/// The canonical digit sequence of a machine integer.
pub fn u64_to_digits(n: u64) -> (r: Vec<u8>)
    ensures
        r@ == dec_digits(n as nat),
        digits_wf(r@),
        digits_val(r@) == n,
{
    let mut out: Vec<u8> = Vec::new();
    push_u64_digits(n, &mut out);
    proof {
        assert(out@ =~= dec_digits(n as nat));
        lemma_dec_digits_wf_val(n as nat);
    }
    out
}

/// Reads a digit sequence back as a machine integer, refusing values that
/// do not fit.
pub fn digits_to_u64(d: &Vec<u8>) -> (r: Option<u64>)
    requires
        forall|i: int| 0 <= i < d@.len() ==> d@[i] < 10,
    ensures
        r == (if digits_val(d@) <= u64::MAX {
            Some(digits_val(d@) as u64)
        } else {
            None::<u64>
        }),
{
    let mut acc: u64 = 0;
    let mut i: usize = 0;
    while i < d.len()
        invariant
            0 <= i <= d@.len(),
            acc as nat == digits_val(d@.take(i as int)),
            forall|k: int| 0 <= k < d@.len() ==> d@[k] < 10,
        decreases d@.len() - i,
    {
        let dig = d[i];
        proof {
            lemma_digits_val_take_succ(d@, i as int);
        }
        if acc > u64::MAX / 10 || (acc == u64::MAX / 10 && dig as u64 > u64::MAX % 10) {
            proof {
                lemma_digits_val_take_le(d@, i as int + 1);
            }
            return None;
        }
        acc = acc * 10 + dig as u64;
        i += 1;
    }
    proof {
        assert(d@.take(d@.len() as int) =~= d@);
    }
    Some(acc)
}

} // verus!
