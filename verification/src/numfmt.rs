//! Decimal text for the log codec: formatting and parsing of the integer
//! fields of a record, with proofs that the two are inverse to each other.

use vstd::prelude::*;

use crate::strutil::push_char;

verus! {

/// The decimal digit character for `d` (meaningful for `0 <= d <= 9`).
pub open spec fn digit_char(d: int) -> char {
    ((('0' as u8) + d) as u8) as char
}

/// Whether `c` is a decimal digit character.
pub open spec fn is_digit(c: char) -> bool {
    '0' <= c && c <= '9'
}

/// The numeric value of a digit character.
pub open spec fn digit_val(c: char) -> int {
    c as int - '0' as int
}

/// The canonical decimal text of a natural number: no sign, no leading zero
/// except for the single digit of zero itself.
pub open spec fn dec_chars(n: nat) -> Seq<char>
    decreases n,
{
    if n < 10 {
        seq![digit_char(n as int)]
    } else {
        dec_chars(n / 10).push(digit_char((n % 10) as int))
    }
}

/// The canonical decimal text of an integer: a leading minus for a negative
/// value, then the digits of its magnitude.
pub open spec fn dec_chars_int(n: int) -> Seq<char> {
    if n < 0 {
        seq!['-'].add(dec_chars((-n) as nat))
    } else {
        dec_chars(n as nat)
    }
}

/// Whether `s` consists of one or more decimal digits.
pub open spec fn all_digits(s: Seq<char>) -> bool {
    s.len() >= 1 && forall|i: int| 0 <= i < s.len() ==> is_digit(#[trigger] s[i])
}

/// The value of a digit string, most significant digit first.
pub open spec fn dec_val(s: Seq<char>) -> int
    decreases s.len(),
{
    if s.len() == 0 {
        0
    } else {
        dec_val(s.drop_last()) * 10 + digit_val(s.last())
    }
}

/// `s` reversed.
pub open spec fn rev_seq<A>(s: Seq<A>) -> Seq<A> {
    Seq::new(s.len(), |k: int| s[s.len() - 1 - k])
}

/// The canonical decimal text of `n` is made of digits.
pub proof fn lemma_dec_chars_digits(n: nat)
    ensures
        all_digits(dec_chars(n)),
        dec_chars(n).len() >= 1,
    decreases n,
{
    if n >= 10 {
        lemma_dec_chars_digits(n / 10);
    }
}

/// Parsing inverts formatting: the value of the canonical decimal text of `n`
/// is `n` itself.
pub proof fn lemma_dec_val_of_dec_chars(n: nat)
    ensures
        dec_val(dec_chars(n)) == n,
    decreases n,
{
    if n < 10 {
        assert(dec_chars(n).len() == 1);
        assert(dec_chars(n).last() == digit_char(n as int));
        assert(dec_chars(n).drop_last() =~= Seq::<char>::empty());
        assert(dec_val(dec_chars(n)) == dec_val(dec_chars(n).drop_last()) * 10 + digit_val(
            dec_chars(n).last(),
        ));
        assert(dec_val(Seq::<char>::empty()) == 0);
        assert(digit_val(digit_char(n as int)) == n);
    } else {
        lemma_dec_val_of_dec_chars(n / 10);
        assert(dec_chars(n).drop_last() =~= dec_chars(n / 10));
    }
}

/// A longer digit string never has a smaller value: appending digits can only
/// grow the value of a non-negative prefix.
pub proof fn lemma_dec_val_grows(s: Seq<char>, k: int)
    requires
        0 <= k <= s.len(),
        forall|i: int| 0 <= i < s.len() ==> is_digit(#[trigger] s[i]),
        dec_val(s.subrange(0, k)) >= 0,
    ensures
        dec_val(s) >= dec_val(s.subrange(0, k)),
        dec_val(s) >= 0,
    decreases s.len() - k,
{
    if k == s.len() {
        assert(s.subrange(0, k) =~= s);
    } else {
        let t = s.subrange(0, k + 1);
        assert(t.drop_last() =~= s.subrange(0, k));
        assert(is_digit(s[k]));
        assert(dec_val(t) == dec_val(s.subrange(0, k)) * 10 + digit_val(s[k]));
        lemma_dec_val_grows(s, k + 1);
    }
}

/// Formats a natural number as canonical decimal text.
pub fn fmt_u64(n: u64) -> (r: String)
    ensures
        r@ == dec_chars(n as nat),
{
    let mut digits: Vec<char> = Vec::new();
    let mut m: u64 = n;
    loop
        invariant_except_break
            dec_chars(n as nat) =~= dec_chars(m as nat).add(rev_seq(digits@)),
            forall|i: int| 0 <= i < digits@.len() ==> is_digit(#[trigger] digits@[i]),
        ensures
            dec_chars(n as nat) =~= rev_seq(digits@),
            forall|i: int| 0 <= i < digits@.len() ==> is_digit(#[trigger] digits@[i]),
        decreases m,
    {
        let d = (m % 10) as u8;
        let c = (('0' as u8) + d) as char;
        let ghost pre = digits@;
        digits.push(c);
        proof {
            if m >= 10 {
                assert(rev_seq(digits@) =~= seq![c].add(rev_seq(pre)));
                assert(dec_chars((m / 10) as nat).add(rev_seq(digits@)) =~= dec_chars(
                    m as nat,
                ).add(rev_seq(pre)));
            } else {
                assert(dec_chars(m as nat) =~= seq![c]);
                assert(dec_chars(m as nat).add(rev_seq(pre)) =~= rev_seq(digits@));
            }
        }
        m = m / 10;
        if m == 0 {
            break ;
        }
    }
    let mut out = String::new();
    let k = digits.len();
    let mut j: usize = 0;
    while j < k
        invariant
            j <= k,
            k == digits@.len(),
            out@ =~= rev_seq(digits@).subrange(0, j as int),
        decreases k - j,
    {
        push_char(&mut out, digits[k - 1 - j]);
        j = j + 1;
        proof {
            assert(out@ =~= rev_seq(digits@).subrange(0, j as int));
        }
    }
    proof {
        assert(rev_seq(digits@).subrange(0, k as int) =~= rev_seq(digits@));
    }
    out
}

/// Formats a signed integer as canonical decimal text.
pub fn fmt_i64(n: i64) -> (r: String)
    ensures
        r@ == dec_chars_int(n as int),
{
    if n >= 0 {
        fmt_u64(n as u64)
    } else {
        let mag: u64 = if n == i64::MIN {
            0x8000_0000_0000_0000u64
        } else {
            (-n) as u64
        };
        let mut out = String::new();
        push_char(&mut out, '-');
        let digits = fmt_u64(mag);
        let out2 = out.concat(digits.as_str());
        proof {
            assert(out2@ =~= dec_chars_int(n as int));
        }
        out2
    }
}

/// Parses canonical (or any plain) decimal digit text as a `u64`.
///
/// Returns the value exactly when the text is one or more digits whose value
/// fits in 64 bits; anything else yields `None`.
pub fn parse_u64(s: &str) -> (r: Option<u64>)
    ensures
        r matches Some(v) ==> all_digits(s@) && dec_val(s@) == v,
        r is None ==> !(all_digits(s@) && dec_val(s@) <= u64::MAX),
    {
    let n = s.unicode_len();
    if n == 0 {
        return None;
    }
    let mut acc: u64 = 0;
    let mut i: usize = 0;
    while i < n
        invariant
            i <= n,
            n == s@.len(),
            n >= 1,
            acc == dec_val(s@.subrange(0, i as int)),
            forall|k: int| 0 <= k < i ==> is_digit(#[trigger] s@[k]),
        decreases n - i,
    {
        let c = s.get_char(i);
        if c < '0' || c > '9' {
            return None;
        }
        let d = (c as u32 - 48) as u64;
        if acc > (u64::MAX - d) / 10 {
            proof {
                assert(s@.subrange(0, i + 1).drop_last() =~= s@.subrange(0, i as int));
                assert(dec_val(s@.subrange(0, i + 1)) > u64::MAX);
                if all_digits(s@) {
                    lemma_dec_val_grows(s@, i + 1);
                }
            }
            return None;
        }
        acc = acc * 10 + d;
        i = i + 1;
        proof {
            assert(s@.subrange(0, i as int).drop_last() =~= s@.subrange(0, i - 1));
        }
    }
    proof {
        assert(s@.subrange(0, n as int) =~= s@);
    }
    Some(acc)
}

/// Parses decimal text with an optional leading minus as an `i64`.
///
/// Returns the value exactly when the text is well-formed and the value fits;
/// anything else yields `None`.
/// Whether `s` is decimal text whose value fits in a signed 64-bit integer:
/// plain digits up to `i64::MAX`, or a minus sign and digits down to
/// `i64::MIN`.
pub open spec fn fits_i64(s: Seq<char>) -> bool {
    ||| (all_digits(s) && dec_val(s) <= i64::MAX)
    ||| (s.len() >= 1 && s[0] == '-' && all_digits(s.subrange(1, s.len() as int)) && dec_val(
        s.subrange(1, s.len() as int),
    ) <= 0x8000_0000_0000_0000)
}

pub fn parse_i64(s: &str) -> (r: Option<i64>)
    ensures
        r matches Some(v) ==> s@.len() >= 1 && (if s@[0] == '-' {
            all_digits(s@.subrange(1, s@.len() as int)) && v == -dec_val(
                s@.subrange(1, s@.len() as int),
            )
        } else {
            all_digits(s@) && v == dec_val(s@)
        }),
        r is Some <==> fits_i64(s@),
    {
    let n = s.unicode_len();
    if n == 0 {
        return None;
    }
    if s.get_char(0) == '-' {
        let mag_str = s.substring_char(1, n);
        proof {
            if all_digits(s@) {
                assert(is_digit(s@[0]));
                assert(false);
            }
        }
        match parse_u64(mag_str) {
            Some(mag) => {
                if mag > 0x8000_0000_0000_0000u64 {
                    None
                } else if mag == 0x8000_0000_0000_0000u64 {
                    Some(i64::MIN)
                } else {
                    Some(-(mag as i64))
                }
            },
            None => {
                proof {
                    if fits_i64(s@) {
                        assert(false);
                    }
                }
                None
            },
        }
    } else {
        match parse_u64(s) {
            Some(v) => {
                if v > i64::MAX as u64 {
                    None
                } else {
                    Some(v as i64)
                }
            },
            None => {
                proof {
                    if fits_i64(s@) {
                        assert(false);
                    }
                }
                None
            },
        }
    }
}

/// Round trip for natural numbers: parsing the canonical decimal text of any
/// value yields that value.
pub proof fn lemma_u64_round_trip(n: u64)
    ensures
        all_digits(dec_chars(n as nat)),
        dec_val(dec_chars(n as nat)) == n,
{
    lemma_dec_chars_digits(n as nat);
    lemma_dec_val_of_dec_chars(n as nat);
}

/// Round trip for signed integers: the canonical decimal text of any value
/// is well-formed, fits, and carries exactly that value.
pub proof fn lemma_i64_text(x: i64)
    ensures
        fits_i64(dec_chars_int(x as int)),
        dec_chars_int(x as int).len() >= 1,
        x >= 0 ==> (dec_chars_int(x as int)[0] != '-' && all_digits(dec_chars_int(x as int))
            && dec_val(dec_chars_int(x as int)) == x),
        x < 0 ==> (dec_chars_int(x as int)[0] == '-' && all_digits(
            dec_chars_int(x as int).subrange(1, dec_chars_int(x as int).len() as int),
        ) && dec_val(
            dec_chars_int(x as int).subrange(1, dec_chars_int(x as int).len() as int),
        ) == -(x as int)),
{
    if x >= 0 {
        lemma_u64_round_trip(x as u64);
        assert(dec_chars_int(x as int) == dec_chars(x as nat));
        assert(is_digit(dec_chars(x as nat)[0]));
    } else {
        let mag = (-(x as int)) as nat;
        lemma_dec_chars_digits(mag);
        lemma_dec_val_of_dec_chars(mag);
        let s = dec_chars_int(x as int);
        assert(s == seq!['-'].add(dec_chars(mag)));
        assert(s[0] == '-');
        assert(s.subrange(1, s.len() as int) =~= dec_chars(mag));
        assert(mag <= 0x8000_0000_0000_0000);
    }
}

} // verus!
