//! The persistence blob: a fixed-shape textual record holding the counter
//! and the production as exact decimal strings and the two timestamps as
//! decimal numbers. Writing and parsing are verified against one spec-level
//! rendering, `blob_chars`; exactly the canonical blobs of well-formed
//! models parse back.

use crate::counter::BigCounter;
use crate::digits::{
    append_digits, char_digit, char_to_digit, dec_chars, dec_digits, digits_to_u64, digits_val,
    digits_wf, is_digit_char, lemma_dec_digits_wf_val, lemma_digit_char_facts,
    lemma_digits_canonical, u64_to_digits,
};
use crate::state::{catch_up_model, wf_model, GameModel, State};
use vstd::prelude::*;
use vstd::string::StringExecFns;

verus! {

/// The text holding the last-saved timestamp: `null` before any save.
pub open spec fn lsa_chars(lsa: Option<int>) -> Seq<char> {
    match lsa {
        None => "null"@,
        Some(t) => dec_chars(t as nat),
    }
}

/// The canonical blob of a model.
pub open spec fn blob_chars(m: GameModel) -> Seq<char> {
    "{\"counter\":\""@ + dec_chars(m.counter) + "\",\"production\":\""@ + dec_chars(m.production)
        + "\",\"last_save\":"@ + dec_chars(m.last_save as nat) + ",\"last_saved_at\":"@
        + lsa_chars(m.last_saved_at) + "}"@
}

/// The decimal rendering of a number consists of digit characters, and they
/// read back as its canonical digits.
pub proof fn lemma_dec_chars_digits(n: nat)
    ensures
        dec_chars(n).len() == dec_digits(n).len(),
        dec_chars(n).len() >= 1,
        forall|i: int| 0 <= i < dec_chars(n).len() ==> is_digit_char(#[trigger] dec_chars(n)[i]),
        forall|i: int|
            0 <= i < dec_chars(n).len() ==> char_digit(#[trigger] dec_chars(n)[i]) == dec_digits(
                n,
            )[i],
{
    lemma_dec_digits_wf_val(n);
    lemma_digit_char_facts();
}

/// A maximal digit run that starts where a known digit text starts, in a
/// string where a non-digit character follows that text, ends exactly where
/// the text ends.
pub proof fn lemma_run_matches(b: Seq<char>, start: int, ds: Seq<char>, j: int)
    requires
        0 <= start <= j <= b.len(),
        forall|t: int| start <= t < j ==> is_digit_char(#[trigger] b[t]),
        j < b.len() ==> !is_digit_char(b[j]),
        start + ds.len() < b.len(),
        b.subrange(start, start + ds.len()) == ds,
        forall|i: int| 0 <= i < ds.len() ==> is_digit_char(#[trigger] ds[i]),
        !is_digit_char(b[start + ds.len()]),
    ensures
        j == start + ds.len(),
{
    if j < start + ds.len() {
        assert(ds[j - start] == b.subrange(start, start + ds.len())[j - start]);
        assert(is_digit_char(b[j]));
    }
    if j > start + ds.len() {
        assert(is_digit_char(b[start + ds.len()]));
    }
}

/// End position of the opening literal in a canonical blob.
spec fn q1(m: GameModel) -> int {
    "{\"counter\":\""@.len() as int
}

/// End position of the counter digits.
spec fn q2(m: GameModel) -> int {
    q1(m) + dec_chars(m.counter).len()
}

/// End position of the production field's literal.
spec fn q3(m: GameModel) -> int {
    q2(m) + "\",\"production\":\""@.len()
}

/// End position of the production digits.
spec fn q4(m: GameModel) -> int {
    q3(m) + dec_chars(m.production).len()
}

/// End position of the save-baseline field's literal.
spec fn q5(m: GameModel) -> int {
    q4(m) + "\",\"last_save\":"@.len()
}

/// End position of the save-baseline digits.
spec fn q6(m: GameModel) -> int {
    q5(m) + dec_chars(m.last_save as nat).len()
}

/// End position of the last-saved field's literal.
spec fn q7(m: GameModel) -> int {
    q6(m) + ",\"last_saved_at\":"@.len()
}

/// End position of the last-saved text.
spec fn q8(m: GameModel) -> int {
    q7(m) + lsa_chars(m.last_saved_at).len()
}

/// A canonical blob decomposes into its pieces at known positions: each
/// literal and each digit field sits at its own subrange, every digit field
/// consists of digit characters, and each digit field is followed by a
/// non-digit character.
#[verifier::rlimit(100)]
proof fn lemma_blob_structure(m: GameModel, b: Seq<char>)
    requires
        wf_model(m),
        b == blob_chars(m),
    ensures
        0 < q1(m) < q2(m) < q3(m) < q4(m) < q5(m) < q6(m) < q7(m) <= q8(m) < b.len(),
        b.len() == q8(m) + 1,
        b.subrange(0, q1(m)) == "{\"counter\":\""@,
        b.subrange(q1(m), q2(m)) == dec_chars(m.counter),
        forall|t: int| q1(m) <= t < q2(m) ==> is_digit_char(#[trigger] b[t]),
        !is_digit_char(b[q2(m)]),
        b.subrange(q2(m), q3(m)) == "\",\"production\":\""@,
        b.subrange(q3(m), q4(m)) == dec_chars(m.production),
        forall|t: int| q3(m) <= t < q4(m) ==> is_digit_char(#[trigger] b[t]),
        !is_digit_char(b[q4(m)]),
        b.subrange(q4(m), q5(m)) == "\",\"last_save\":"@,
        b.subrange(q5(m), q6(m)) == dec_chars(m.last_save as nat),
        forall|t: int| q5(m) <= t < q6(m) ==> is_digit_char(#[trigger] b[t]),
        !is_digit_char(b[q6(m)]),
        b.subrange(q6(m), q7(m)) == ",\"last_saved_at\":"@,
        b.subrange(q7(m), q8(m)) == lsa_chars(m.last_saved_at),
        m.last_saved_at is None ==> b.subrange(q7(m), q7(m) + 4) == "null"@ && !is_digit_char(
            b[q7(m)],
        ),
        m.last_saved_at is Some ==> (forall|t: int|
            q7(m) <= t < q8(m) ==> is_digit_char(#[trigger] b[t])) && !is_digit_char(b[q8(m)]),
        b.subrange(q8(m), q8(m) + 1) == "}"@,
{
    reveal_strlit("{\"counter\":\"");
    reveal_strlit("\",\"production\":\"");
    reveal_strlit("\",\"last_save\":");
    reveal_strlit(",\"last_saved_at\":");
    reveal_strlit("null");
    reveal_strlit("}");
    lemma_dec_chars_digits(m.counter);
    lemma_dec_chars_digits(m.production);
    lemma_dec_chars_digits(m.last_save as nat);
    if let Some(t) = m.last_saved_at {
        lemma_dec_chars_digits(t as nat);
    }
    assert(b.subrange(0, q1(m)) =~= "{\"counter\":\""@);
    assert(b.subrange(q1(m), q2(m)) =~= dec_chars(m.counter));
    assert(b.subrange(q2(m), q3(m)) =~= "\",\"production\":\""@);
    assert(b.subrange(q3(m), q4(m)) =~= dec_chars(m.production));
    assert(b.subrange(q4(m), q5(m)) =~= "\",\"last_save\":"@);
    assert(b.subrange(q5(m), q6(m)) =~= dec_chars(m.last_save as nat));
    assert(b.subrange(q6(m), q7(m)) =~= ",\"last_saved_at\":"@);
    assert(b.subrange(q7(m), q8(m)) =~= lsa_chars(m.last_saved_at));
    assert(b.subrange(q8(m), q8(m) + 1) =~= "}"@);
    assert(b[q2(m)] == '"');
    assert(b[q4(m)] == '"');
    assert(b[q6(m)] == ',');
    assert(b[q8(m)] == '}');
    match m.last_saved_at {
        None => {
            assert(b.subrange(q7(m), q7(m) + 4) =~= "null"@);
            assert(b[q7(m)] == 'n');
        },
        Some(t) => {
        },
    }
}

/// The model read off parsed digit fields.
pub open spec fn parts_model(cd: Seq<u8>, pd: Seq<u8>, sd: Seq<u8>, lsa_v: Option<int>) -> GameModel {
    GameModel {
        counter: digits_val(cd),
        production: digits_val(pd),
        last_save: digits_val(sd) as int,
        last_saved_at: lsa_v,
    }
}

/// Digit fields and literal pieces found at consecutive positions of a text
/// assemble into the canonical blob of the model they spell out.
#[verifier::rlimit(100)]
proof fn lemma_blob_assemble(
    b: Seq<char>,
    j1: int,
    j2: int,
    j3: int,
    j4: int,
    j5: int,
    j6: int,
    j7: int,
    j8: int,
    j9: int,
    cd: Seq<u8>,
    pd: Seq<u8>,
    sd: Seq<u8>,
    lsa_v: Option<int>,
)
    requires
        0 <= j1 <= j2 <= j3 <= j4 <= j5 <= j6 <= j7 <= j8 <= j9,
        j9 == b.len(),
        b.subrange(0, j1) == "{\"counter\":\""@,
        digits_wf(cd),
        cd.len() == j2 - j1,
        forall|t: int| 0 <= t < cd.len() ==> #[trigger] cd[t] == char_digit(b[j1 + t]),
        forall|t: int| j1 <= t < j2 ==> is_digit_char(#[trigger] b[t]),
        b.subrange(j2, j3) == "\",\"production\":\""@,
        digits_wf(pd),
        digits_val(pd) >= 1,
        pd.len() == j4 - j3,
        forall|t: int| 0 <= t < pd.len() ==> #[trigger] pd[t] == char_digit(b[j3 + t]),
        forall|t: int| j3 <= t < j4 ==> is_digit_char(#[trigger] b[t]),
        b.subrange(j4, j5) == "\",\"last_save\":"@,
        digits_wf(sd),
        digits_val(sd) <= u64::MAX,
        sd.len() == j6 - j5,
        forall|t: int| 0 <= t < sd.len() ==> #[trigger] sd[t] == char_digit(b[j5 + t]),
        forall|t: int| j5 <= t < j6 ==> is_digit_char(#[trigger] b[t]),
        b.subrange(j6, j7) == ",\"last_saved_at\":"@,
        match lsa_v {
            None => b.subrange(j7, j8) == "null"@,
            Some(v) => {
                let ad = b.subrange(j7, j8).map_values(|c: char| char_digit(c));
                &&& 0 <= v <= u64::MAX
                &&& digits_wf(ad)
                &&& digits_val(ad) == v
                &&& forall|t: int| j7 <= t < j8 ==> is_digit_char(#[trigger] b[t])
            },
        },
        b.subrange(j8, j9) == "}"@,
    ensures
        wf_model(parts_model(cd, pd, sd, lsa_v)),
        b == blob_chars(parts_model(cd, pd, sd, lsa_v)),
{
    lemma_digit_char_facts();
    lemma_digits_canonical(cd);
    lemma_digits_canonical(pd);
    lemma_digits_canonical(sd);
    let m0 = parts_model(cd, pd, sd, lsa_v);
    assert(dec_chars(m0.counter) =~= b.subrange(j1, j2));
    assert(dec_chars(m0.production) =~= b.subrange(j3, j4));
    assert(dec_chars(m0.last_save as nat) =~= b.subrange(j5, j6));
    match lsa_v {
        None => {
            assert(lsa_chars(m0.last_saved_at) == b.subrange(j7, j8));
        },
        Some(v) => {
            let ad = b.subrange(j7, j8).map_values(|c: char| char_digit(c));
            lemma_digits_canonical(ad);
            assert(dec_chars(v as nat) =~= b.subrange(j7, j8));
            assert(lsa_chars(m0.last_saved_at) == b.subrange(j7, j8));
        },
    }
    assert(b =~= b.subrange(0, j1) + b.subrange(j1, j2) + b.subrange(j2, j3) + b.subrange(j3, j4)
        + b.subrange(j4, j5) + b.subrange(j5, j6) + b.subrange(j6, j7) + b.subrange(j7, j8)
        + b.subrange(j8, j9));
    assert(b == blob_chars(m0));
}

/// Renders a well-formed state as the canonical blob of its model.
pub fn write_blob(s: &State) -> (r: String)
    requires
        s.wf(),
    ensures
        r@ == blob_chars(s@),
{
    proof {
        lemma_digits_canonical(s.counter.digits@);
        lemma_digits_canonical(s.production.digits@);
    }
    let mut out = String::new();
    out.append("{\"counter\":\"");
    append_digits(&mut out, &s.counter.digits);
    out.append("\",\"production\":\"");
    append_digits(&mut out, &s.production.digits);
    out.append("\",\"last_save\":");
    let lsd = u64_to_digits(s.last_save);
    append_digits(&mut out, &lsd);
    out.append(",\"last_saved_at\":");
    match s.last_saved_at {
        None => {
            out.append("null");
        },
        Some(t) => {
            let td = u64_to_digits(t);
            append_digits(&mut out, &td);
        },
    }
    out.append("}");
    proof {
        assert(out@ =~= blob_chars(s@));
    }
    out
}

/// Compares the text at position `i` with a literal: `Some` exactly when
/// the literal occurs there, landing just past it.
fn expect_lit(s: &str, i: usize, lit: &str) -> (r: Option<usize>)
    requires
        i <= s@.len(),
    ensures
        r matches Some(j) ==> j == i + lit@.len() && i + lit@.len() <= s@.len() && s@.subrange(
            i as int,
            j as int,
        ) == lit@,
        r is None ==> !(i + lit@.len() <= s@.len() && s@.subrange(
            i as int,
            i as int + lit@.len() as int,
        ) == lit@),
{
    let n = lit.unicode_len();
    let sn = s.unicode_len();
    if n > sn - i {
        proof {
            if i + lit@.len() <= s@.len() {
                assert(false);
            }
        }
        return None;
    }
    let mut k: usize = 0;
    while k < n
        invariant
            k <= n,
            n == lit@.len(),
            sn == s@.len(),
            i + n <= sn,
            forall|t: int| 0 <= t < k ==> s@[i + t] == lit@[t],
        decreases n - k,
    {
        if s.get_char(i + k) != lit.get_char(k) {
            proof {
                if s@.subrange(i as int, i as int + lit@.len() as int) == lit@ {
                    assert(s@.subrange(i as int, i as int + lit@.len() as int)[k as int] == s@[i
                        + k]);
                    assert(false);
                }
            }
            return None;
        }
        k += 1;
    }
    proof {
        assert(s@.subrange(i as int, i as int + lit@.len() as int) =~= lit@);
    }
    Some(i + n)
}

/// Reads the maximal run of digit characters starting at `i`, as digits.
fn read_digit_run(s: &str, i: usize) -> (r: (Vec<u8>, usize))
    requires
        i <= s@.len(),
    ensures
        i <= r.1 <= s@.len(),
        r.0@.len() == r.1 - i,
        forall|t: int| i <= t < r.1 ==> is_digit_char(#[trigger] s@[t]),
        forall|t: int| 0 <= t < r.0@.len() ==> r.0@[t] == char_digit(s@[i + t]),
        forall|t: int| 0 <= t < r.0@.len() ==> r.0@[t] < 10,
        r.1 < s@.len() ==> !is_digit_char(s@[r.1 as int]),
{
    let sn = s.unicode_len();
    let mut j: usize = i;
    let mut out: Vec<u8> = Vec::new();
    while j < sn
        invariant
            i <= j <= sn,
            sn == s@.len(),
            out@.len() == j - i,
            forall|t: int| i <= t < j ==> is_digit_char(#[trigger] s@[t]),
            forall|t: int| 0 <= t < out@.len() ==> out@[t] == char_digit(s@[i + t]),
            forall|t: int| 0 <= t < out@.len() ==> out@[t] < 10,
        decreases sn - j,
    {
        let c = s.get_char(j);
        match char_to_digit(c) {
            Some(d) => {
                out.push(d);
                j += 1;
            },
            None => {
                return (out, j);
            },
        }
    }
    (out, j)
}

/// The fields parsed out of a blob: counter, production, save baseline,
/// last-saved display timestamp.
#[verifier::rlimit(100)]
fn parse_fields(b: &str) -> (r: Option<(BigCounter, BigCounter, u64, Option<u64>)>)
    ensures
        (r is Some) <==> (exists|m: GameModel| wf_model(m) && b@ == blob_chars(m)),
        forall|m: GameModel|
            wf_model(m) && b@ == blob_chars(m) ==> (r matches Some(p) && p.0.wf() && p.0@
                == m.counter && p.1.wf() && p.1@ == m.production && p.2 as int == m.last_save
                && (match (p.3, m.last_saved_at) {
                (None, None) => true,
                (Some(a), Some(t)) => a as int == t,
                _ => false,
            })),
{
    proof {
        lemma_digit_char_facts();
    }
    let j1 = match expect_lit(b, 0, "{\"counter\":\"") {
        Some(j) => j,
        None => {
            proof {
                assert forall|m: GameModel| wf_model(m) && b@ == blob_chars(m) implies false by {
                    lemma_blob_structure(m, b@);
                }
            }
            return None;
        },
    };
    let (cd, j2) = read_digit_run(b, j1);
    proof {
        assert forall|m: GameModel| wf_model(m) && b@ == blob_chars(m) implies j2 as int == q2(m)
            && cd@ == dec_digits(m.counter) by {
            lemma_blob_structure(m, b@);
            lemma_dec_chars_digits(m.counter);
            lemma_run_matches(b@, j1 as int, dec_chars(m.counter), j2 as int);
            assert(cd@ =~= dec_digits(m.counter));
        }
    }
    if cd.len() == 0 || (cd.len() > 1 && cd[0] == 0) {
        proof {
            assert forall|m: GameModel| wf_model(m) && b@ == blob_chars(m) implies false by {
                lemma_dec_digits_wf_val(m.counter);
            }
        }
        return None;
    }
    let j3 = match expect_lit(b, j2, "\",\"production\":\"") {
        Some(j) => j,
        None => {
            proof {
                assert forall|m: GameModel| wf_model(m) && b@ == blob_chars(m) implies false by {
                    lemma_blob_structure(m, b@);
                }
            }
            return None;
        },
    };
    let (pd, j4) = read_digit_run(b, j3);
    proof {
        assert forall|m: GameModel| wf_model(m) && b@ == blob_chars(m) implies j4 as int == q4(m)
            && pd@ == dec_digits(m.production) by {
            lemma_blob_structure(m, b@);
            lemma_dec_chars_digits(m.production);
            lemma_run_matches(b@, j3 as int, dec_chars(m.production), j4 as int);
            assert(pd@ =~= dec_digits(m.production));
        }
    }
    if pd.len() == 0 || (pd.len() > 1 && pd[0] == 0) || (pd.len() == 1 && pd[0] == 0) {
        proof {
            assert forall|m: GameModel| wf_model(m) && b@ == blob_chars(m) implies false by {
                lemma_dec_digits_wf_val(m.production);
                crate::digits::lemma_dec_digits_leading(m.production);
            }
        }
        return None;
    }
    let j5 = match expect_lit(b, j4, "\",\"last_save\":") {
        Some(j) => j,
        None => {
            proof {
                assert forall|m: GameModel| wf_model(m) && b@ == blob_chars(m) implies false by {
                    lemma_blob_structure(m, b@);
                }
            }
            return None;
        },
    };
    let (sd, j6) = read_digit_run(b, j5);
    proof {
        assert forall|m: GameModel| wf_model(m) && b@ == blob_chars(m) implies j6 as int == q6(m)
            && sd@ == dec_digits(m.last_save as nat) by {
            lemma_blob_structure(m, b@);
            lemma_dec_chars_digits(m.last_save as nat);
            lemma_run_matches(b@, j5 as int, dec_chars(m.last_save as nat), j6 as int);
            assert(sd@ =~= dec_digits(m.last_save as nat));
        }
    }
    if sd.len() == 0 || (sd.len() > 1 && sd[0] == 0) {
        proof {
            assert forall|m: GameModel| wf_model(m) && b@ == blob_chars(m) implies false by {
                lemma_dec_digits_wf_val(m.last_save as nat);
            }
        }
        return None;
    }
    let ls = match digits_to_u64(&sd) {
        Some(v) => v,
        None => {
            proof {
                assert forall|m: GameModel| wf_model(m) && b@ == blob_chars(m) implies false by {
                    lemma_dec_digits_wf_val(m.last_save as nat);
                }
            }
            return None;
        },
    };
    let j7 = match expect_lit(b, j6, ",\"last_saved_at\":") {
        Some(j) => j,
        None => {
            proof {
                assert forall|m: GameModel| wf_model(m) && b@ == blob_chars(m) implies false by {
                    lemma_blob_structure(m, b@);
                }
            }
            return None;
        },
    };
    let (lsa, j8): (Option<u64>, usize) = match expect_lit(b, j7, "null") {
        Some(j) => {
            proof {
                assert forall|m: GameModel| wf_model(m) && b@ == blob_chars(m) implies
                    m.last_saved_at is None && j as int == q8(m) by {
                    lemma_blob_structure(m, b@);
                    reveal_strlit("null");
                    if let Some(t) = m.last_saved_at {
                        lemma_dec_chars_digits(t as nat);
                        assert(is_digit_char(b@[j7 as int]));
                        assert(b@.subrange(j7 as int, j7 as int + 4)[0] == b@[j7 as int]);
                        assert(b@[j7 as int] == 'n');
                        assert(false);
                    }
                }
            }
            (None, j)
        },
        None => {
            let (ad, ja) = read_digit_run(b, j7);
            proof {
                assert forall|m: GameModel| wf_model(m) && b@ == blob_chars(m) implies (match m
                    .last_saved_at {
                    Some(t) => ja as int == q8(m) && ad@ == dec_digits(t as nat),
                    None => false,
                }) by {
                    lemma_blob_structure(m, b@);
                    reveal_strlit("null");
                    match m.last_saved_at {
                        None => {
                            assert(b@.subrange(j7 as int, j7 as int + 4) == "null"@);
                            assert(false);
                        },
                        Some(t) => {
                            lemma_dec_chars_digits(t as nat);
                            lemma_run_matches(b@, j7 as int, dec_chars(t as nat), ja as int);
                            assert(ad@ =~= dec_digits(t as nat));
                        },
                    }
                }
            }
            if ad.len() == 0 || (ad.len() > 1 && ad[0] == 0) {
                proof {
                    assert forall|m: GameModel| wf_model(m) && b@ == blob_chars(m) implies false by {
                        if let Some(t) = m.last_saved_at {
                            lemma_dec_digits_wf_val(t as nat);
                        }
                    }
                }
                return None;
            }
            match digits_to_u64(&ad) {
                Some(v) => {
                    proof {
                        assert(ad@ =~= b@.subrange(j7 as int, ja as int).map_values(
                            |c: char| char_digit(c),
                        ));
                    }
                    (Some(v), ja)
                },
                None => {
                    proof {
                        assert forall|m: GameModel|
                            wf_model(m) && b@ == blob_chars(m) implies false by {
                            if let Some(t) = m.last_saved_at {
                                lemma_dec_digits_wf_val(t as nat);
                            }
                        }
                    }
                    return None;
                },
            }
        },
    };
    let j9 = match expect_lit(b, j8, "}") {
        Some(j) => j,
        None => {
            proof {
                assert forall|m: GameModel| wf_model(m) && b@ == blob_chars(m) implies false by {
                    lemma_blob_structure(m, b@);
                    reveal_strlit("}");
                }
            }
            return None;
        },
    };
    if j9 != b.unicode_len() {
        proof {
            assert forall|m: GameModel| wf_model(m) && b@ == blob_chars(m) implies false by {
                lemma_blob_structure(m, b@);
                reveal_strlit("}");
                assert(b@.len() == j9 as int);
            }
        }
        return None;
    }
    proof {
        // The parsed pieces assemble back into the canonical blob of the
        // model they spell out: that model is the witness.
        let lsa_v: Option<int> = match lsa {
            Some(v) => Some(v as int),
            None => None,
        };
        crate::digits::lemma_digits_val_pos(pd@);
        lemma_blob_assemble(
            b@,
            j1 as int,
            j2 as int,
            j3 as int,
            j4 as int,
            j5 as int,
            j6 as int,
            j7 as int,
            j8 as int,
            j9 as int,
            cd@,
            pd@,
            sd@,
            lsa_v,
        );
        let m0 = parts_model(cd@, pd@, sd@, lsa_v);
        assert(wf_model(m0) && b@ == blob_chars(m0));
        assert forall|m: GameModel| wf_model(m) && b@ == blob_chars(m) implies digits_val(cd@)
            == m.counter && digits_val(pd@) == m.production && ls as int == m.last_save && (match (
            lsa,
            m.last_saved_at,
        ) {
            (None, None) => true,
            (Some(a), Some(t)) => a as int == t,
            _ => false,
        }) by {
            lemma_dec_digits_wf_val(m.counter);
            lemma_dec_digits_wf_val(m.production);
            lemma_dec_digits_wf_val(m.last_save as nat);
            if let Some(t) = m.last_saved_at {
                lemma_dec_digits_wf_val(t as nat);
            }
        }
    }
    let counter = BigCounter { digits: cd };
    let production = BigCounter { digits: pd };
    Some((counter, production, ls, lsa))
}

/// Reads a state back from a blob at time `now`: exactly the canonical
/// blobs of well-formed models are accepted; the stored model comes back
/// with offline catch-up applied and `now` as the new baseline.
pub fn read_blob(b: &str, now: u64) -> (r: Option<State>)
    ensures
        (r is Some) <==> (exists|m: GameModel| wf_model(m) && b@ == blob_chars(m)),
        forall|m: GameModel|
            wf_model(m) && b@ == blob_chars(m) ==> (r matches Some(s) && s.wf() && s@
                == catch_up_model(m, now as int)),
{
    let (counter, production, ls, lsa) = match parse_fields(b) {
        Some(p) => p,
        None => {
            return None;
        },
    };
    proof {
        let gm = choose|m: GameModel| wf_model(m) && b@ == blob_chars(m);
        assert(wf_model(gm) && b@ == blob_chars(gm));
        assert(counter.wf() && production.wf() && production@ >= 1);
    }
    let elapsed_ms: u64 = if now >= ls {
        now - ls
    } else {
        0
    };
    let secs64: u64 = elapsed_ms / 1000;
    let secs: u32 = if secs64 > 0xffff_ffff {
        0xffff_ffff
    } else {
        secs64 as u32
    };
    let new_counter = if secs > 0 {
        counter.add(&production.scale(secs))
    } else {
        counter
    };
    let st = State { counter: new_counter, production, last_save: now, last_saved_at: lsa };
    proof {
        assert forall|m: GameModel| wf_model(m) && b@ == blob_chars(m) implies st.wf() && st@
            == catch_up_model(m, now as int) by {
            assert(ls as int == m.last_save);
            assert(secs as int == crate::state::elapsed_seconds(m.last_save, now as int));
            if secs == 0 {
                assert(m.production * 0 == 0);
            }
            assert(st@ == catch_up_model(m, now as int));
        }
    }
    Some(st)
}

} // verus!
