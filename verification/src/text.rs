//! Verified text helpers: string equality, and parsing of the decimal
//! integers and booleans that the wire representation carries.

use vstd::prelude::*;

verus! {

/// `c` is a decimal digit.
pub open spec fn is_dec_digit(c: char) -> bool {
    48 <= c as u32 <= 57
}

/// Every character of `s` is a decimal digit.
pub open spec fn all_digits(s: Seq<char>) -> bool {
    forall|i: int| 0 <= i < s.len() ==> is_dec_digit(#[trigger] s[i])
}

/// The value of a digit string, most significant digit first.
pub open spec fn digits_val(s: Seq<char>) -> int
    decreases s.len(),
{
    if s.len() == 0 {
        0
    } else {
        digits_val(s.drop_last()) * 10 + (s.last() as u32 - 48)
    }
}

/// The value of an unsigned decimal string, when it is one and fits.
pub open spec fn parse_u32_spec(s: Seq<char>) -> Option<u32> {
    if s.len() > 0 && all_digits(s) && digits_val(s) <= u32::MAX {
        Some(digits_val(s) as u32)
    } else {
        None
    }
}

/// The value of a signed decimal string (optional leading minus), when
/// it is one and fits.
pub open spec fn parse_i32_spec(s: Seq<char>) -> Option<i32> {
    if s.len() > 0 && s[0] == '-' {
        let t = s.subrange(1, s.len() as int);
        if t.len() > 0 && all_digits(t) && digits_val(t) <= 0x8000_0000 {
            Some((-digits_val(t)) as i32)
        } else {
            None
        }
    } else {
        if s.len() > 0 && all_digits(s) && digits_val(s) <= i32::MAX {
            Some(digits_val(s) as i32)
        } else {
            None
        }
    }
}

/// A digit string denotes a nonnegative value.
pub proof fn lemma_digits_nonneg(s: Seq<char>)
    requires
        all_digits(s),
    ensures
        digits_val(s) >= 0,
    decreases s.len(),
{
    if s.len() > 0 {
        assert(all_digits(s.drop_last())) by {
            assert(forall|i: int|
                0 <= i < s.len() - 1 ==> is_dec_digit(#[trigger] s.drop_last()[i]));
        }
        lemma_digits_nonneg(s.drop_last());
        assert(is_dec_digit(s.last()));
    }
}

/// Extending a digit string at the end multiplies its value by ten and
/// adds the new digit; in particular the value never shrinks.
pub proof fn lemma_digits_extend(t: Seq<char>, s: Seq<char>)
    requires
        all_digits(s),
        t.len() <= s.len(),
        t == s.subrange(0, t.len() as int),
    ensures
        digits_val(s) >= digits_val(t),
    decreases s.len() - t.len(),
{
    assert(all_digits(t)) by {
        assert(forall|i: int| 0 <= i < t.len() ==> is_dec_digit(#[trigger] s.subrange(0, t.len() as int)[i]));
    }
    if t.len() == s.len() {
        assert(t =~= s);
    } else {
        let t2 = s.subrange(0, t.len() as int + 1);
        assert(t2.drop_last() =~= t);
        assert(is_dec_digit(t2.last()));
        lemma_digits_nonneg(t);
        assert(digits_val(t2) == digits_val(t) * 10 + (t2.last() as u32 - 48));
        assert(digits_val(t) * 10 >= digits_val(t)) by (nonlinear_arith)
            requires
                digits_val(t) >= 0,
        ;
        lemma_digits_extend(t2, s);
    }
}

/// Compares two strings character by character.
pub fn str_eq(a: &str, b: &str) -> (r: bool)
    ensures
        r == (a@ == b@),
{
    let la = a.unicode_len();
    let lb = b.unicode_len();
    if la != lb {
        proof {
            if a@ == b@ {
                assert(a@.len() == b@.len());
            }
        }
        return false;
    }
    let mut i: usize = 0;
    while i < la
        invariant
            la == a@.len(),
            lb == b@.len(),
            la == lb,
            i <= la,
            forall|j: int| 0 <= j < i ==> a@[j] == b@[j],
        decreases la - i,
    {
        if a.get_char(i) != b.get_char(i) {
            proof {
                if a@ == b@ {
                    assert(a@[i as int] == b@[i as int]);
                }
            }
            return false;
        }
        i += 1;
    }
    proof {
        assert(a@ =~= b@);
    }
    true
}

/// Parses an unsigned decimal string into a 32-bit value.
pub fn parse_u32(s: &str) -> (r: Option<u32>)
    ensures
        r == parse_u32_spec(s@),
{
    parse_u32_small(s, 0xffff_ffff)
}

/// Parses a signed decimal string (optional leading minus) into a
/// 32-bit value.
pub fn parse_i32(s: &str) -> (r: Option<i32>)
    ensures
        r == parse_i32_spec(s@),
{
    let n = s.unicode_len();
    if n == 0 {
        return None;
    }
    if s.get_char(0) == '-' {
        let rest = s.substring_char(1, n);
        let ghost t = s@.subrange(1, s@.len() as int);
        let mag = parse_u32_small(rest, 0x8000_0000);
        match mag {
            Some(v) => {
                proof {
                    lemma_digits_nonneg(t);
                }
                let neg: i32 = if v == 0x8000_0000 {
                    i32::MIN
                } else {
                    -(v as i32)
                };
                proof {
                    assert(digits_val(t) == v as int);
                    assert(neg as int == -digits_val(t));
                    assert(((-digits_val(t)) as i32) as int == -digits_val(t));
                }
                Some(neg)
            },
            None => None,
        }
    } else {
        match parse_u32_small(s, 0x7fff_ffff) {
            Some(v) => {
                proof {
                    lemma_digits_nonneg(s@);
                }
                Some(v as i32)
            },
            None => None,
        }
    }
}

/// Parses an unsigned decimal string, rejecting values above `limit`.
fn parse_u32_small(s: &str, limit: u32) -> (r: Option<u32>)
    ensures
        r == (if s@.len() > 0 && all_digits(s@) && digits_val(s@) <= limit {
            Some(digits_val(s@) as u32)
        } else {
            None::<u32>
        }),
{
    let n = s.unicode_len();
    if n == 0 {
        return None;
    }
    let mut acc: u64 = 0;
    let mut i: usize = 0;
    while i < n
        invariant
            n == s@.len(),
            0 < n,
            i <= n,
            all_digits(s@.subrange(0, i as int)),
            acc == digits_val(s@.subrange(0, i as int)),
            acc <= limit,
        decreases n - i,
    {
        let c = s.get_char(i);
        let cv = c as u32;
        if !(48 <= cv && cv <= 57) {
            proof {
                assert(!is_dec_digit(s@[i as int]));
            }
            return None;
        }
        let d: u64 = (cv - 48) as u64;
        let ghost pre = s@.subrange(0, i as int);
        acc = acc * 10 + d;
        i += 1;
        proof {
            let cur = s@.subrange(0, i as int);
            assert(cur.drop_last() =~= pre);
            assert(acc == digits_val(cur));
            assert(all_digits(cur));
            if acc > limit && all_digits(s@) {
                lemma_digits_extend(cur, s@);
                assert(digits_val(s@) > limit);
            }
        }
        if acc > limit as u64 {
            return None;
        }
    }
    proof {
        assert(s@.subrange(0, s@.len() as int) =~= s@);
    }
    Some(acc as u32)
}

/// The one-character string of a decimal digit.
fn digit_str(d: u32) -> (r: &'static str)
    requires
        d < 10,
    ensures
        r@.len() == 1,
        r@[0] as u32 == 48 + d,
{
    proof {
        reveal_strlit("0");
        reveal_strlit("1");
        reveal_strlit("2");
        reveal_strlit("3");
        reveal_strlit("4");
        reveal_strlit("5");
        reveal_strlit("6");
        reveal_strlit("7");
        reveal_strlit("8");
        reveal_strlit("9");
    }
    match d {
        0 => "0",
        1 => "1",
        2 => "2",
        3 => "3",
        4 => "4",
        5 => "5",
        6 => "6",
        7 => "7",
        8 => "8",
        _ => "9",
    }
}

/// Writes the decimal digits of an unsigned value, most significant
/// first.
fn format_u32(v: u32) -> (r: String)
    ensures
        r@.len() >= 1,
        all_digits(r@),
        digits_val(r@) == v,
    decreases v,
{
    if v < 10 {
        let mut s = String::new();
        s.append(digit_str(v));
        proof {
            assert(s@.len() == 1);
            assert(s@.drop_last() =~= Seq::<char>::empty());
            assert(digits_val(Seq::<char>::empty()) == 0);
            assert(s@.last() == s@[0]);
            assert(digits_val(s@) == v);
        }
        s
    } else {
        let mut s = format_u32(v / 10);
        let ghost high = s@;
        s.append(digit_str(v % 10));
        proof {
            assert(s@.drop_last() =~= high);
            assert(s@.last() as u32 == 48 + v % 10);
            assert(digits_val(s@) == digits_val(high) * 10 + v % 10);
            assert(v / 10 * 10 + v % 10 == v);
            assert forall|i: int| 0 <= i < s@.len() implies is_dec_digit(#[trigger] s@[i]) by {
                if i < high.len() {
                    assert(s@[i] == high[i]);
                    assert(is_dec_digit(high[i]));
                }
            }
        }
        s
    }
}

/// Writes a signed value in decimal: a minus sign for negative values,
/// then the digits; parsing the result gives the value back.
pub fn i32_to_string(v: i32) -> (r: String)
    ensures
        parse_i32_spec(r@) == Some(v),
{
    if v >= 0 {
        let s = format_u32(v as u32);
        proof {
            assert(is_dec_digit(s@[0]));
            assert(s@[0] != '-');
        }
        s
    } else {
        let mag: u32 = (-(v as i64)) as u32;
        let digits = format_u32(mag);
        let mut s = String::new();
        s.append("-");
        let ghost dash = s@;
        s.append(digits.as_str());
        proof {
            reveal_strlit("-");
            assert(dash.len() == 1 && dash[0] == '-');
            assert(s@[0] == '-');
            let t = s@.subrange(1, s@.len() as int);
            assert(t =~= digits@);
            assert(digits_val(t) == mag);
            assert((-digits_val(t)) as i32 == v);
        }
        s
    }
}

/// Parses `"true"` or `"false"`.
pub fn parse_bool(s: &str) -> (r: Option<bool>)
    ensures
        r == (if s@ == "true"@ {
            Some(true)
        } else if s@ == "false"@ {
            Some(false)
        } else {
            None::<bool>
        }),
{
    if str_eq(s, "true") {
        Some(true)
    } else if str_eq(s, "false") {
        Some(false)
    } else {
        None
    }
}

} // verus!
