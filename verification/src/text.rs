//! Small verified text helpers: decimal rendering of numbers (for the
//! MM:SS display and the stored records) and substring search (for the
//! mode-label counts).

use vstd::prelude::*;
use vstd::string::*;

verus! {

pub open spec fn is_digit_char(c: char) -> bool {
    '0' <= c && c <= '9'
}

/// The decimal digit character for a value in 0..=9.
pub open spec fn digit_char_of(d: int) -> char {
    if d == 0 { '0' }
    else if d == 1 { '1' }
    else if d == 2 { '2' }
    else if d == 3 { '3' }
    else if d == 4 { '4' }
    else if d == 5 { '5' }
    else if d == 6 { '6' }
    else if d == 7 { '7' }
    else if d == 8 { '8' }
    else { '9' }
}

/// The numeric value of a decimal digit character.
pub open spec fn digit_val(c: char) -> int {
    if c == '0' { 0 }
    else if c == '1' { 1 }
    else if c == '2' { 2 }
    else if c == '3' { 3 }
    else if c == '4' { 4 }
    else if c == '5' { 5 }
    else if c == '6' { 6 }
    else if c == '7' { 7 }
    else if c == '8' { 8 }
    else if c == '9' { 9 }
    else { 10 }
}

/// The usual decimal rendering of `n`, without leading zeros (just "0" for 0).
pub open spec fn dec_digits(n: nat) -> Seq<char>
    decreases n,
{
    if n < 10 {
        seq![digit_char_of(n as int)]
    } else {
        dec_digits(n / 10) + seq![digit_char_of((n % 10) as int)]
    }
}

/// Decimal rendering of `n` padded with zeros on the left to at least two
/// characters, as the `{:02}` format does.
pub open spec fn padded2(n: nat) -> Seq<char> {
    if n < 10 {
        seq!['0'] + dec_digits(n)
    } else {
        dec_digits(n)
    }
}

pub proof fn lemma_dec_digits_are_digits(n: nat)
    ensures
        dec_digits(n).len() >= 1,
        forall|i: int| 0 <= i < dec_digits(n).len() ==> is_digit_char(#[trigger] dec_digits(n)[i]),
    decreases n,
{
    if n >= 10 {
        lemma_dec_digits_are_digits(n / 10);
    }
}

/// A one-character string for a decimal digit.
fn digit_str(d: u64) -> (r: &'static str)
    requires
        d < 10,
    ensures
        r@ == seq![digit_char_of(d as int)],
{
    let r: &'static str = match d {
        0 => "0",
        1 => "1",
        2 => "2",
        3 => "3",
        4 => "4",
        5 => "5",
        6 => "6",
        7 => "7",
        8 => "8",
        _ => "9",
    };
    proof {
        reveal_strlit("0");
        reveal_strlit("1");
        reveal_strlit("2");
        reveal_strlit("3");
        reveal_strlit("4");
        reveal_strlit("5");
        reveal_strlit("6");
        reveal_strlit("7");
        reveal_strlit("8");
        reveal_strlit("9");
        assert(r@ =~= seq![digit_char_of(d as int)]);
    }
    r
}

/// Renders `n` in decimal.
pub fn u64_to_dec(n: u64) -> (r: String)
    ensures
        r@ == dec_digits(n as nat),
    decreases n,
{
    if n < 10 {
        digit_str(n).to_owned()
    } else {
        let mut r = u64_to_dec(n / 10);
        r.append(digit_str(n % 10));
        proof {
            assert(r@ =~= dec_digits(n as nat));
        }
        r
    }
}

/// Renders `n` in decimal, zero-padded on the left to at least two digits.
pub fn u64_to_dec2(n: u64) -> (r: String)
    ensures
        r@ == padded2(n as nat),
{
    if n < 10 {
        let mut r = digit_str(0).to_owned();
        r.append(digit_str(n));
        proof {
            assert(r@ =~= padded2(n as nat));
        }
        r
    } else {
        u64_to_dec(n)
    }
}

/// The numeric value of a digit character, executably.
pub fn digit_value(c: char) -> (d: u64)
    requires
        is_digit_char(c),
    ensures
        d == digit_val(c),
        d < 10,
{
    (c as u32 as u64) - 48
}

/// `needle` occurs in `hay` starting at position `i`.
pub open spec fn matches_at(hay: Seq<char>, needle: Seq<char>, i: int) -> bool {
    0 <= i && i + needle.len() <= hay.len()
        && hay.subrange(i, i + needle.len() as int) == needle
}

/// `needle` occurs somewhere in `hay`.
pub open spec fn has_substring(hay: Seq<char>, needle: Seq<char>) -> bool {
    exists|i: int| matches_at(hay, needle, i)
}

/// Whether `lit` stands in `hay` at position `i`, by character.
pub fn lit_at(hay: &str, i: usize, lit: &str) -> (r: bool)
    ensures
        r == matches_at(hay@, lit@, i as int),
{
    let hay_len = hay.unicode_len();
    let lit_len = lit.unicode_len();
    if i > hay_len || lit_len > hay_len - i {
        return false;
    }
    let mut j: usize = 0;
    while j < lit_len
        invariant
            i + lit_len <= hay_len,
            hay_len == hay@.len(),
            lit_len == lit@.len(),
            0 <= j <= lit_len,
            forall|m: int| 0 <= m < j ==> hay@[i + m] == lit@[m],
        decreases lit_len - j,
    {
        let hc = hay.get_char(i + j);
        let lc = lit.get_char(j);
        if hc != lc {
            proof {
                if matches_at(hay@, lit@, i as int) {
                    assert(hay@.subrange(i as int, i + lit@.len() as int)[j as int]
                        == hay@[i + j as int]);
                }
            }
            return false;
        }
        j = j + 1;
    }
    proof {
        assert(hay@.subrange(i as int, i + lit@.len() as int) =~= lit@);
    }
    true
}

/// Whether `needle` occurs in `hay`, by character.
pub fn str_contains(hay: &str, needle: &str) -> (r: bool)
    ensures
        r == has_substring(hay@, needle@),
{
    let hay_len = hay.unicode_len();
    let needle_len = needle.unicode_len();
    if needle_len > hay_len {
        proof {
            assert(forall|i: int| !matches_at(hay@, needle@, i));
        }
        return false;
    }
    let mut i: usize = 0;
    while i <= hay_len - needle_len
        invariant
            needle_len <= hay_len,
            hay_len == hay@.len(),
            needle_len == needle@.len(),
            0 <= i <= hay_len - needle_len + 1,
            forall|k: int| 0 <= k < i ==> !matches_at(hay@, needle@, k),
        decreases hay_len - needle_len - i + 1,
    {
        let mut j: usize = 0;
        let mut hit = true;
        while j < needle_len
            invariant
                needle_len <= hay_len,
                hay_len == hay@.len(),
                needle_len == needle@.len(),
                0 <= i <= hay_len - needle_len,
                0 <= j <= needle_len,
                hit == (forall|m: int| 0 <= m < j ==> hay@[i + m] == needle@[m]),
            decreases needle_len - j,
        {
            let hc = hay.get_char(i + j);
            let nc = needle.get_char(j);
            if hc != nc {
                hit = false;
                proof {
                    assert(hay@[i + j as int] != needle@[j as int]);
                }
                j = needle_len;
            } else {
                j = j + 1;
            }
        }
        if hit {
            proof {
                assert(hay@.subrange(i as int, i + needle@.len() as int) =~= needle@);
                assert(matches_at(hay@, needle@, i as int));
            }
            return true;
        }
        proof {
            if matches_at(hay@, needle@, i as int) {
                let m0 = choose|m: int| 0 <= m < needle@.len() && hay@[i + m] != needle@[m];
                assert(hay@.subrange(i as int, i + needle@.len() as int)[m0] == hay@[i + m0]);
                assert(false);
            }
        }
        i = i + 1;
    }
    proof {
        assert(forall|k: int| matches_at(hay@, needle@, k) ==> 0 <= k < i);
    }
    false
}

} // verus!
