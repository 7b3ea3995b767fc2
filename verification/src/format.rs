//! Compact rendering of large numbers: up to three digits are shown exactly,
//! larger numbers get a power-of-1000 magnitude suffix, and numbers beyond
//! the suffix list fall back to scientific notation.

use crate::counter::BigCounter;
use crate::digits::{
    append_digit_char, chars_of_digits, dec_chars, dec_digits, digit_char, digits_wf,
    lemma_digits_canonical, u64_to_digits,
};
use vstd::prelude::*;
use vstd::string::StringExecFns;

verus! {

/// The magnitude suffix for the `i`-th power of 1000, for `0 <= i <= 9`.
pub open spec fn suffix_chars(i: int) -> Seq<char> {
    if i == 0 {
        Seq::<char>::empty()
    } else if i == 1 {
        seq!['K']
    } else if i == 2 {
        seq!['M']
    } else if i == 3 {
        seq!['B']
    } else if i == 4 {
        seq!['T']
    } else if i == 5 {
        seq!['Q', 'a']
    } else if i == 6 {
        seq!['Q', 'i']
    } else if i == 7 {
        seq!['S', 'x']
    } else if i == 8 {
        seq!['S', 'p']
    } else {
        seq!['O', 'c']
    }
}

/// The compact rendering of a number given by its canonical digits `d`:
/// three or fewer digits are shown as they are; ten or more groups of
/// thousands fall back to scientific notation `D.DDeE`; otherwise one to
/// three leading digits, two decimals unless they are `00`, and the suffix.
pub open spec fn format_chars(d: Seq<u8>) -> Seq<char> {
    let len = d.len() as int;
    if len <= 3 {
        chars_of_digits(d)
    } else if len / 3 >= 10 {
        seq![digit_char(d[0]), '.'] + chars_of_digits(d.subrange(1, 3)) + seq!['e'] + dec_chars(
            (len - 1) as nat,
        )
    } else {
        let si = (len - 1) / 3;
        let offset = len - si * 3;
        let main = chars_of_digits(d.take(offset));
        let dd = d.subrange(offset, offset + 2);
        if dd == seq![0u8, 0u8] {
            main + suffix_chars(si)
        } else {
            main + seq!['.'] + chars_of_digits(dd) + suffix_chars(si)
        }
    }
}

/// Appends the characters of the digits `d[from..to]` to a string.
pub fn append_digit_range(out: &mut String, d: &Vec<u8>, from: usize, to: usize)
    requires
        from <= to <= d@.len(),
        forall|i: int| 0 <= i < d@.len() ==> d@[i] < 10,
    ensures
        final(out)@ == old(out)@ + chars_of_digits(d@.subrange(from as int, to as int)),
{
    let mut i: usize = from;
    while i < to
        invariant
            from <= i <= to <= d@.len(),
            forall|k: int| 0 <= k < d@.len() ==> d@[k] < 10,
            out@ == old(out)@ + chars_of_digits(d@.subrange(from as int, i as int)),
        decreases to - i,
    {
        append_digit_char(out, d[i]);
        i += 1;
        proof {
            assert(chars_of_digits(d@.subrange(from as int, i as int)) =~= chars_of_digits(
                d@.subrange(from as int, i as int - 1),
            ).push(digit_char(d@[i as int - 1])));
            assert(out@ =~= old(out)@ + chars_of_digits(d@.subrange(from as int, i as int)));
        }
    }
}

/// Appends the magnitude suffix with index `i` to a string.
fn append_suffix(out: &mut String, i: usize)
    requires
        i <= 9,
    ensures
        final(out)@ == old(out)@ + suffix_chars(i as int),
{
    if i == 0 {
        proof {
            assert(final(out)@ =~= old(out)@ + suffix_chars(i as int));
        }
    } else if i == 1 {
        out.append("K");
        proof {
            reveal_strlit("K");
            assert(final(out)@ =~= old(out)@ + suffix_chars(i as int));
        }
    } else if i == 2 {
        out.append("M");
        proof {
            reveal_strlit("M");
            assert(final(out)@ =~= old(out)@ + suffix_chars(i as int));
        }
    } else if i == 3 {
        out.append("B");
        proof {
            reveal_strlit("B");
            assert(final(out)@ =~= old(out)@ + suffix_chars(i as int));
        }
    } else if i == 4 {
        out.append("T");
        proof {
            reveal_strlit("T");
            assert(final(out)@ =~= old(out)@ + suffix_chars(i as int));
        }
    } else if i == 5 {
        out.append("Qa");
        proof {
            reveal_strlit("Qa");
            assert(final(out)@ =~= old(out)@ + suffix_chars(i as int));
        }
    } else if i == 6 {
        out.append("Qi");
        proof {
            reveal_strlit("Qi");
            assert(final(out)@ =~= old(out)@ + suffix_chars(i as int));
        }
    } else if i == 7 {
        out.append("Sx");
        proof {
            reveal_strlit("Sx");
            assert(final(out)@ =~= old(out)@ + suffix_chars(i as int));
        }
    } else if i == 8 {
        out.append("Sp");
        proof {
            reveal_strlit("Sp");
            assert(final(out)@ =~= old(out)@ + suffix_chars(i as int));
        }
    } else {
        out.append("Oc");
        proof {
            reveal_strlit("Oc");
            assert(final(out)@ =~= old(out)@ + suffix_chars(i as int));
        }
    }
}

/// Renders a counter compactly, exactly as `format_chars` describes on the
/// counter's canonical decimal digits.
pub fn format_number(n: &BigCounter) -> (r: String)
    requires
        n.wf(),
    ensures
        r@ == format_chars(dec_digits(n@)),
{
    proof {
        lemma_digits_canonical(n.digits@);
    }
    let d = &n.digits;
    let len = d.len();
    let mut out = String::new();
    if len <= 3 {
        append_digit_range(&mut out, d, 0, len);
        proof {
            assert(d@.subrange(0, len as int) =~= d@);
        }
        out
    } else if len / 3 >= 10 {
        append_digit_char(&mut out, d[0]);
        out.append(".");
        append_digit_char(&mut out, d[1]);
        append_digit_char(&mut out, d[2]);
        out.append("e");
        let e = u64_to_digits((len - 1) as u64);
        crate::digits::append_digits(&mut out, &e);
        proof {
            reveal_strlit(".");
            reveal_strlit("e");
            assert(chars_of_digits(d@.subrange(1, 3)) =~= seq![
                digit_char(d@[1]),
                digit_char(d@[2]),
            ]);
            assert(out@ =~= format_chars(d@));
        }
        out
    } else {
        let si = (len - 1) / 3;
        let offset = len - si * 3;
        proof {
            vstd::arithmetic::div_mod::lemma_fundamental_div_mod((len - 1) as int, 3);
            assert(1 <= si <= 9);
            assert(1 <= offset <= 3);
            assert(offset as int + 2 <= len as int);
        }
        append_digit_range(&mut out, d, 0, offset);
        let d0 = d[offset];
        let d1 = d[offset + 1];
        proof {
            assert(d@.subrange(offset as int, offset as int + 2) =~= seq![d0, d1]);
        }
        if d0 == 0 && d1 == 0 {
            append_suffix(&mut out, si);
            proof {
                assert(d@.subrange(offset as int, offset as int + 2) == seq![0u8, 0u8]);
                assert(out@ =~= format_chars(d@));
            }
        } else {
            out.append(".");
            append_digit_char(&mut out, d0);
            append_digit_char(&mut out, d1);
            append_suffix(&mut out, si);
            proof {
                reveal_strlit(".");
                assert(d@.subrange(offset as int, offset as int + 2) != seq![0u8, 0u8]);
                assert(chars_of_digits(d@.subrange(offset as int, offset as int + 2)) =~= seq![
                    digit_char(d0),
                    digit_char(d1),
                ]);
                assert(out@ =~= format_chars(d@));
            }
        }
        out
    }
}

} // verus!
