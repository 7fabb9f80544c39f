//! Character-level helpers shared by the parsers and the serialisers:
//! digit runs, decimal numbers, prefixes and suffixes.

use vstd::prelude::*;
use vstd::string::*;

verus! {

/// An ASCII decimal digit.
pub open spec fn is_digit(c: char) -> bool {
    '0' <= c && c <= '9'
}

/// The value of an ASCII decimal digit.
pub open spec fn digit_of(c: char) -> nat {
    (c as nat - 48) as nat
}

/// The ASCII digit that stands for `d`, for `d < 10`.
pub open spec fn digit_char(d: nat) -> char {
    if d == 0 {
        '0'
    } else if d == 1 {
        '1'
    } else if d == 2 {
        '2'
    } else if d == 3 {
        '3'
    } else if d == 4 {
        '4'
    } else if d == 5 {
        '5'
    } else if d == 6 {
        '6'
    } else if d == 7 {
        '7'
    } else if d == 8 {
        '8'
    } else {
        '9'
    }
}

/// The first position at or after `i` that holds no digit.
pub open spec fn digits_end(s: Seq<char>, i: int) -> int
    decreases s.len() - i,
{
    if 0 <= i < s.len() && is_digit(s[i]) {
        digits_end(s, i + 1)
    } else {
        i
    }
}

/// The number that a run of decimal digits denotes; leading zeros are allowed.
pub open spec fn decimal_value(s: Seq<char>) -> nat
    decreases s.len(),
{
    if s.len() == 0 {
        0
    } else {
        decimal_value(s.drop_last()) * 10 + digit_of(s.last())
    }
}

/// The canonical decimal spelling of `n`: no leading zeros, `"0"` for zero.
pub open spec fn decimal_digits(n: nat) -> Seq<char>
    decreases n,
{
    if n < 10 {
        seq![digit_char(n)]
    } else {
        decimal_digits(n / 10).push(digit_char(n % 10))
    }
}

/// `s` holds `pat` at position `i`.
pub open spec fn has_at(s: Seq<char>, i: int, pat: Seq<char>) -> bool {
    0 <= i && i + pat.len() <= s.len() && s.subrange(i, i + pat.len()) == pat
}

/// `s` ends with `pat`.
pub open spec fn ends_with(s: Seq<char>, pat: Seq<char>) -> bool {
    has_at(s, s.len() - pat.len(), pat)
}

/// The characters of a string slice, in order.
pub fn to_chars(s: &str) -> (v: Vec<char>)
    ensures
        v@ == s@,
{
    let n = s.unicode_len();
    let mut v: Vec<char> = Vec::new();
    let mut i: usize = 0;
    while i < n
        invariant
            n == s@.len(),
            i <= n,
            v@ == s@.subrange(0, i as int),
        decreases n - i,
    {
        v.push(s.get_char(i));
        i += 1;
        assert(v@ == s@.subrange(0, i as int));
    }
    assert(s@.subrange(0, n as int) == s@);
    v
}

/// The end of the digit run that starts at `i`.
pub fn scan_digits(s: &Vec<char>, i: usize) -> (j: usize)
    requires
        i <= s@.len(),
    ensures
        j == digits_end(s@, i as int),
        i <= j <= s@.len(),
        forall|k: int| i <= k < j ==> is_digit(#[trigger] s@[k]),
{
    let mut j: usize = i;
    while j < s.len() && s[j] >= '0' && s[j] <= '9'
        invariant
            i <= j <= s@.len(),
            digits_end(s@, i as int) == digits_end(s@, j as int),
            forall|k: int| i <= k < j ==> is_digit(#[trigger] s@[k]),
        decreases s@.len() - j,
    {
        j += 1;
    }
    j
}

/// A prefix of a digit run denotes no more than the whole run.
pub proof fn lemma_decimal_prefix(s: Seq<char>, from: int, mid: int, to: int)
    requires
        0 <= from <= mid <= to <= s.len(),
    ensures
        decimal_value(s.subrange(from, mid)) <= decimal_value(s.subrange(from, to)),
    decreases to - mid,
{
    if mid < to {
        lemma_decimal_prefix(s, from, mid, to - 1);
        assert(s.subrange(from, to).drop_last() == s.subrange(from, to - 1));
    }
}

/// Reads the digits of `s` in `from..to` as a number, if it fits 32 bits.
pub fn parse_decimal(s: &Vec<char>, from: usize, to: usize) -> (r: Option<u32>)
    requires
        from <= to <= s@.len(),
        forall|k: int| from <= k < to ==> is_digit(#[trigger] s@[k]),
    ensures
        r == if decimal_value(s@.subrange(from as int, to as int)) <= u32::MAX {
            Some(decimal_value(s@.subrange(from as int, to as int)) as u32)
        } else {
            None
        },
{
    let mut acc: u32 = 0;
    let mut k: usize = from;
    assert(s@.subrange(from as int, from as int).len() == 0);
    while k < to
        invariant
            from <= k <= to <= s@.len(),
            forall|m: int| from <= m < to ==> is_digit(#[trigger] s@[m]),
            acc == decimal_value(s@.subrange(from as int, k as int)),
        decreases to - k,
    {
        let c = s[k];
        assert(is_digit(s@[k as int]));
        let d: u64 = (c as u64) - 48;
        let next: u64 = (acc as u64) * 10 + d;
        proof {
            assert(s@.subrange(from as int, k + 1).drop_last() == s@.subrange(
                from as int,
                k as int,
            ));
            assert(next == decimal_value(s@.subrange(from as int, k + 1)));
            lemma_decimal_prefix(s@, from as int, k + 1, to as int);
        }
        if next > 0xffff_ffff {
            return None;
        }
        acc = next as u32;
        k += 1;
    }
    Some(acc)
}

/// The one-character string of a digit.
pub fn digit_str(d: u32) -> (r: &'static str)
    requires
        d < 10,
    ensures
        r@ == seq![digit_char(d as nat)],
{
    proof {
        reveal_strlit("0");
        reveal_strlit("1");
        reveal_strlit("2");
        reveal_strlit("3");
        reveal_strlit("4");
        reveal_strlit("5");
        reveal_strlit("6");
        reveal_strlit("7");
        reveal_strlit("8");
        reveal_strlit("9");
    }
    let r = if d == 0 {
        "0"
    } else if d == 1 {
        "1"
    } else if d == 2 {
        "2"
    } else if d == 3 {
        "3"
    } else if d == 4 {
        "4"
    } else if d == 5 {
        "5"
    } else if d == 6 {
        "6"
    } else if d == 7 {
        "7"
    } else if d == 8 {
        "8"
    } else {
        "9"
    };
    assert(r@ =~= seq![digit_char(d as nat)]);
    r
}

/// Appends the canonical decimal spelling of `n` to `out`.
pub fn push_decimal(out: &mut String, n: u32)
    ensures
        final(out)@ == old(out)@ + decimal_digits(n as nat),
    decreases n,
{
    if n >= 10 {
        push_decimal(out, n / 10);
    }
    out.append(digit_str(n % 10));
    assert(final(out)@ =~= old(out)@ + decimal_digits(n as nat));
}

/// Whether `s` holds `pat` at position `i`.
pub fn starts_at(s: &Vec<char>, i: usize, pat: &str) -> (r: bool)
    requires
        i <= s@.len(),
    ensures
        r == has_at(s@, i as int, pat@),
{
    let n = pat.unicode_len();
    if n > s.len() - i {
        return false;
    }
    let mut k: usize = 0;
    while k < n
        invariant
            n == pat@.len(),
            i + n <= s@.len() <= usize::MAX,
            k <= n,
            s@.subrange(i as int, i + k) == pat@.subrange(0, k as int),
        decreases n - k,
    {
        if s[i + k] != pat.get_char(k) {
            assert(s@.subrange(i as int, i + n)[k as int] != pat@[k as int]);
            return false;
        }
        k += 1;
        assert(s@.subrange(i as int, i + k) =~= pat@.subrange(0, k as int)) by {
            assert(s@.subrange(i as int, i + k - 1) == pat@.subrange(0, k - 1));
            assert forall|m: int| 0 <= m < k implies s@.subrange(i as int, i + k)[m]
                == pat@.subrange(0, k as int)[m] by {
                if m < k - 1 {
                    assert(s@.subrange(i as int, i + k - 1)[m] == pat@.subrange(0, k - 1)[m]);
                }
            }
        }
    }
    assert(pat@.subrange(0, n as int) == pat@);
    true
}

/// Whether `s` ends with `pat`.
pub fn has_suffix(s: &Vec<char>, pat: &str) -> (r: bool)
    ensures
        r == ends_with(s@, pat@),
{
    let n = pat.unicode_len();
    if n > s.len() {
        return false;
    }
    starts_at(s, s.len() - n, pat)
}

} // verus!
