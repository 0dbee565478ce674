//! Small text routines the stages share: bytes of a string, decimal numbers
//! read from and written to text, and removal of a character.

use vstd::prelude::*;
use vstd::string::StringExecFns;
use vstd::utf8::{encode_utf8, is_char_boundary};

verus! {

/// The bytes of a string: its UTF-8 encoding. Lengths and spans of a
/// paragraph's text count these bytes.
pub open spec fn bytes_of(s: Seq<char>) -> Seq<u8> {
    encode_utf8(s)
}

/// Whether the span from `start` to `end` can be cut out of a text of
/// `bytes`: it lies within them and both its ends stand between characters.
pub open spec fn cuttable(bytes: Seq<u8>, start: usize, end: usize) -> bool {
    &&& start <= end <= bytes.len()
    &&& is_char_boundary(bytes, start as int)
    &&& is_char_boundary(bytes, end as int)
}

/// `s` with every occurrence of `c` taken out.
pub open spec fn without(s: Seq<char>, c: char) -> Seq<char>
    decreases s.len(),
{
    if s.len() == 0 {
        s
    } else if s.last() == c {
        without(s.drop_last(), c)
    } else {
        without(s.drop_last(), c).push(s.last())
    }
}

/// Whether `b` is one of the bytes `'0'` to `'9'`.
pub open spec fn is_digit(b: u8) -> bool {
    48 <= b <= 57
}

/// Whether every byte of `s` is a decimal digit.
pub open spec fn all_digits(s: Seq<u8>) -> bool {
    forall|i: int| 0 <= i < s.len() ==> is_digit(#[trigger] s[i])
}

/// The number that the digits `s` write in base ten.
pub open spec fn digits_value(s: Seq<u8>) -> int
    decreases s.len(),
{
    if s.len() == 0 {
        0
    } else {
        digits_value(s.drop_last()) * 10 + (s.last() - 48)
    }
}

/// The number read from `s`: present where `s` is a non-empty run of decimal
/// digits whose value fits in an `i32`.
pub open spec fn parsed_number(s: Seq<u8>) -> Option<i32> {
    if s.len() > 0 && all_digits(s) && digits_value(s) <= i32::MAX {
        Some(digits_value(s) as i32)
    } else {
        None
    }
}

/// The decimal digits of `n`, most significant first; `"0"` for zero.
pub open spec fn decimal(n: nat) -> Seq<char>
    decreases n,
{
    if n < 10 {
        seq![digit_char(n)]
    } else {
        decimal(n / 10).push(digit_char(n % 10))
    }
}

/// The character that writes the digit `d`.
pub open spec fn digit_char(d: nat) -> char {
    if d == 0 {
        '0'
    } else if d == 1 {
        '1'
    } else if d == 2 {
        '2'
    } else if d == 3 {
        '3'
    } else if d == 4 {
        '4'
    } else if d == 5 {
        '5'
    } else if d == 6 {
        '6'
    } else if d == 7 {
        '7'
    } else if d == 8 {
        '8'
    } else {
        '9'
    }
}

/// A signed number in decimal: a minus sign before the digits of a negative one.
pub open spec fn signed_decimal(n: int) -> Seq<char> {
    if n < 0 {
        seq!['-'] + decimal((-n) as nat)
    } else {
        decimal(n as nat)
    }
}

/// A signed number in decimal, at least two characters wide: a single digit
/// gets a zero in front.
pub open spec fn two_wide(n: int) -> Seq<char> {
    if 0 <= n < 10 {
        seq!['0'] + decimal(n as nat)
    } else {
        signed_decimal(n)
    }
}

/// `std::string::String::push`. Trusted: the character is appended and the
/// rest of the string is unchanged.
#[verifier::external_body]
pub(crate) fn push_char(s: &mut String, c: char)
    ensures
        final(s)@ == old(s)@.push(c),
{
    s.push(c)
}

/// The last character of `s`, if it has one.
pub fn last_char(s: &str) -> (last: Option<char>)
    ensures
        s@.len() == 0 ==> last is None,
        s@.len() > 0 ==> last == Some(s@.last()),
{
    let mut last: Option<char> = None;
    for c in iter: s.chars()
        invariant
            iter.seq() == s@,
            iter.index() == 0 ==> last is None,
            iter.index() > 0 ==> last == Some(s@[iter.index() - 1]),
    {
        last = Some(c);
    }
    last
}

/// A copy of `s` without the character `c`.
pub fn remove_char(s: &str, c: char) -> (out: String)
    ensures
        out@ == without(s@, c),
{
    let mut out = String::new();
    for x in iter: s.chars()
        invariant
            iter.seq() == s@,
            out@ == without(s@.take(iter.index()), c),
    {
        proof {
            let before = s@.take(iter.index());
            let after = s@.take(iter.index() + 1);
            assert(after.drop_last() =~= before);
            assert(after.last() == x);
        }
        if x != c {
            push_char(&mut out, x);
        }
    }
    proof {
        assert(s@.take(s@.len() as int) =~= s@);
    }
    out
}

/// Reads the decimal number written by `bytes[start..end]`.
pub fn parse_number(bytes: &[u8], start: usize, end: usize) -> (value: Option<i32>)
    requires
        start <= end <= bytes@.len(),
    ensures
        value == parsed_number(bytes@.subrange(start as int, end as int)),
        value matches Some(v) ==> 0 <= v,
{
    let ghost digits = bytes@.subrange(start as int, end as int);
    if start == end {
        return None;
    }
    let mut acc: i64 = 0;
    let mut i: usize = start;
    while i < end
        invariant
            start <= i <= end <= bytes@.len(),
            digits == bytes@.subrange(start as int, end as int),
            all_digits(digits.take(i - start)),
            acc == digits_value(digits.take(i - start)),
            0 <= acc <= i32::MAX,
        decreases end - i,
    {
        let b: u8 = bytes[i];
        proof {
            let before = digits.take(i - start);
            let after = digits.take(i - start + 1);
            assert(after.drop_last() =~= before);
            assert(after.last() == b);
            assert(digits[i - start] == b);
        }
        if b < 48 || b > 57 {
            assert(!all_digits(digits));
            return None;
        }
        let next: i64 = acc * 10 + (b - 48) as i64;
        proof {
            assert(next == digits_value(digits.take(i - start + 1)));
            assert(all_digits(digits.take(i - start + 1))) by {
                assert forall|k: int| 0 <= k < i - start + 1 implies is_digit(
                    #[trigger] digits.take(i - start + 1)[k],
                ) by {
                    if k < i - start {
                        assert(digits.take(i - start)[k] == digits.take(i - start + 1)[k]);
                    }
                }
            }
        }
        if next > i32::MAX as i64 {
            proof {
                if all_digits(digits) {
                    lemma_digits_value_grows(digits, i - start + 1);
                }
            }
            return None;
        }
        acc = next;
        i = i + 1;
    }
    proof {
        assert(digits.take(end - start) =~= digits);
    }
    Some(acc as i32)
}

/// A longer run of digits never writes a smaller number than one of its
/// prefixes.
pub proof fn lemma_digits_value_grows(s: Seq<u8>, n: int)
    requires
        0 <= n <= s.len(),
        all_digits(s),
    ensures
        digits_value(s.take(n)) <= digits_value(s),
        0 <= digits_value(s),
    decreases s.len(),
{
    if s.len() == 0 {
        assert(s.take(n) =~= s);
    } else if n == s.len() {
        assert(s.take(n) =~= s);
        lemma_digits_value_grows(s.drop_last(), 0);
    } else {
        assert(s.drop_last().take(n) =~= s.take(n));
        assert(all_digits(s.drop_last())) by {
            assert forall|i: int| 0 <= i < s.drop_last().len() implies is_digit(
                #[trigger] s.drop_last()[i],
            ) by {
                assert(s.drop_last()[i] == s[i]);
            }
        }
        lemma_digits_value_grows(s.drop_last(), n);
        assert(is_digit(s[s.len() - 1]));
    }
}

/// A number read from text is never negative.
pub proof fn lemma_parsed_number_nonnegative(s: Seq<u8>)
    ensures
        parsed_number(s) matches Some(v) ==> 0 <= v,
{
    if all_digits(s) {
        lemma_digits_value_grows(s, 0);
    }
}

/// The text that writes one decimal digit.
fn digit_str(d: u8) -> (s: &'static str)
    requires
        d < 10,
    ensures
        s@ == seq![digit_char(d as nat)],
{
    proof {
        reveal_strlit("0");
        reveal_strlit("1");
        reveal_strlit("2");
        reveal_strlit("3");
        reveal_strlit("4");
        reveal_strlit("5");
        reveal_strlit("6");
        reveal_strlit("7");
        reveal_strlit("8");
        reveal_strlit("9");
    }
    let s = if d == 0 {
        "0"
    } else if d == 1 {
        "1"
    } else if d == 2 {
        "2"
    } else if d == 3 {
        "3"
    } else if d == 4 {
        "4"
    } else if d == 5 {
        "5"
    } else if d == 6 {
        "6"
    } else if d == 7 {
        "7"
    } else if d == 8 {
        "8"
    } else {
        "9"
    };
    assert(s@ =~= seq![digit_char(d as nat)]);
    s
}

/// Appends the decimal digits of `n` to `out`.
pub fn append_decimal(out: &mut String, n: u64)
    ensures
        final(out)@ == old(out)@ + decimal(n as nat),
    decreases n,
{
    if n >= 10 {
        append_decimal(out, n / 10);
    }
    let d: u8 = (n % 10) as u8;
    out.append(digit_str(d));
    proof {
        let head = old(out)@;
        if n >= 10 {
            assert(head + decimal((n / 10) as nat) + seq![digit_char((n % 10) as nat)] =~= head
                + decimal(n as nat));
        } else {
            assert(head + seq![digit_char((n % 10) as nat)] =~= head + decimal(n as nat));
        }
    }
}

/// Appends `n` in decimal to `out`, with a minus sign where it is negative.
pub fn append_signed(out: &mut String, n: i32)
    ensures
        final(out)@ == old(out)@ + signed_decimal(n as int),
{
    if n < 0 {
        proof {
            reveal_strlit("-");
        }
        out.append("-");
        let magnitude: u64 = (-(n as i64)) as u64;
        append_decimal(out, magnitude);
        assert(old(out)@ + "-"@ + decimal(magnitude as nat) =~= old(out)@ + signed_decimal(
            n as int,
        ));
    } else {
        append_decimal(out, n as u64);
    }
}

/// Appends `n` to `out` at least two characters wide, as a clock writes its
/// minutes.
pub fn append_two_wide(out: &mut String, n: i32)
    ensures
        final(out)@ == old(out)@ + two_wide(n as int),
{
    if 0 <= n && n < 10 {
        proof {
            reveal_strlit("0");
        }
        out.append("0");
        append_decimal(out, n as u64);
        assert(old(out)@ + "0"@ + decimal(n as nat) =~= old(out)@ + two_wide(n as int));
    } else {
        append_signed(out, n);
    }
}

} // verus!
