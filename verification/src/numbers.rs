//! Numbers as decimal text, and texts padded to a width.
use crate::text::chars_of;
use vstd::prelude::*;
use vstd::string::{StrSliceExecFns, StringExecFns};

verus! {

/// The character of a decimal digit.
pub open spec fn digit(d: nat) -> char {
    ('0' as u32 + d) as char
}

/// `n` in decimal, without leading zeros.
pub open spec fn decimal(n: nat) -> Seq<char>
    decreases n,
{
    if n < 10 {
        seq![digit(n)]
    } else {
        decimal(n / 10).push(digit(n % 10))
    }
}

/// `i` in decimal, with a minus sign where it is negative.
pub open spec fn signed_decimal(i: int) -> Seq<char> {
    if i < 0 {
        seq!['-'] + decimal((-i) as nat)
    } else {
        decimal(i as nat)
    }
}

/// Appends one decimal digit.
fn push_digit(out: &mut String, d: u128)
    requires
        d < 10,
    ensures
        final(out)@ == old(out)@.push(digit(d as nat)),
{
    let text: &str = match d {
        0 => "0",
        1 => "1",
        2 => "2",
        3 => "3",
        4 => "4",
        5 => "5",
        6 => "6",
        7 => "7",
        8 => "8",
        _ => "9",
    };
    proof {
        reveal_strlit("0");
        reveal_strlit("1");
        reveal_strlit("2");
        reveal_strlit("3");
        reveal_strlit("4");
        reveal_strlit("5");
        reveal_strlit("6");
        reveal_strlit("7");
        reveal_strlit("8");
        reveal_strlit("9");
        assert(text@ =~= seq![digit(d as nat)]);
        assert(out@ + text@ =~= out@.push(digit(d as nat)));
    }
    out.append(text);
}

/// Appends `n` in decimal.
pub fn push_decimal(out: &mut String, n: u128)
    ensures
        final(out)@ == old(out)@ + decimal(n as nat),
    decreases n,
{
    if n < 10 {
        push_digit(out, n);
        proof {
            assert(old(out)@.push(digit(n as nat)) =~= old(out)@ + decimal(n as nat));
        }
    } else {
        push_decimal(out, n / 10);
        push_digit(out, n % 10);
        proof {
            assert((old(out)@ + decimal((n / 10) as nat)).push(digit((n % 10) as nat)) =~= old(out)@
                + decimal(n as nat));
        }
    }
}

/// `n` in decimal.
pub fn to_decimal(n: u128) -> (text: String)
    ensures
        text@ == decimal(n as nat),
{
    let mut text = String::new();
    push_decimal(&mut text, n);
    proof {
        assert(Seq::<char>::empty() + decimal(n as nat) =~= decimal(n as nat));
    }
    text
}

/// `i` in decimal, with a minus sign where it is negative.
pub fn to_signed_decimal(i: i32) -> (text: String)
    ensures
        text@ == signed_decimal(i as int),
{
    let mut text = String::new();
    if i < 0 {
        proof {
            reveal_strlit("-");
            assert(Seq::<char>::empty() + "-"@ =~= seq!['-']);
        }
        text.append("-");
        push_decimal(&mut text, (-(i as i64)) as u128);
    } else {
        push_decimal(&mut text, i as u128);
        proof {
            assert(Seq::<char>::empty() + decimal(i as nat) =~= decimal(i as nat));
        }
    }
    text
}

/// The smallest number of copies of a fill that brings a text of length `len` up to `width`.
pub open spec fn fill_count(len: nat, width: nat) -> nat {
    if len < width {
        (width - len) as nat
    } else {
        0
    }
}

/// A sequence of `count` copies of `fill`.
pub open spec fn repeated(fill: char, count: nat) -> Seq<char> {
    Seq::new(count, |i: int| fill)
}

/// `s`, flush right in a field of at least `width` characters filled with `fill`.
pub open spec fn flush_right(s: Seq<char>, width: nat, fill: char) -> Seq<char> {
    repeated(fill, fill_count(s.len(), width)) + s
}

/// `s`, flush left in a field of at least `width` characters filled with spaces.
pub open spec fn flush_left(s: Seq<char>, width: nat) -> Seq<char> {
    s + repeated(' ', fill_count(s.len(), width))
}

/// Appends `count` copies of the one-character text `fill`.
pub fn push_repeated(out: &mut String, fill: &str, count: usize)
    requires
        fill@.len() == 1,
    ensures
        final(out)@ == old(out)@ + repeated(fill@[0], count as nat),
{
    let ghost start = out@;
    proof {
        assert(start + repeated(fill@[0], 0) =~= start);
    }
    for i in 0..count
        invariant
            fill@.len() == 1,
            out@ == start + repeated(fill@[0], i as nat),
    {
        out.append(fill);
        proof {
            assert(start + repeated(fill@[0], i as nat) + fill@ =~= start + repeated(
                fill@[0],
                (i + 1) as nat,
            ));
        }
    }
}

/// Appends `text`, flush right in a field of `width` characters filled with the
/// one-character text `fill`.
pub fn push_flush_right(out: &mut String, text: &str, width: usize, fill: &str)
    requires
        fill@.len() == 1,
    ensures
        final(out)@ == old(out)@ + flush_right(text@, width as nat, fill@[0]),
{
    let len = text.unicode_len();
    if len < width {
        push_repeated(out, fill, width - len);
    }
    out.append(text);
    proof {
        let gap = repeated(fill@[0], fill_count(text@.len(), width as nat));
        if len >= width {
            assert(gap =~= Seq::<char>::empty());
            assert(gap + text@ =~= text@);
        }
        assert(old(out)@ + gap + text@ =~= old(out)@ + (gap + text@));
    }
}

/// Appends `text`, flush left in a field of `width` characters filled with spaces.
pub fn push_flush_left(out: &mut String, text: &str, width: usize)
    ensures
        final(out)@ == old(out)@ + flush_left(text@, width as nat),
{
    let len = text.unicode_len();
    out.append(text);
    proof {
        reveal_strlit(" ");
        let gap = repeated(' ', fill_count(text@.len(), width as nat));
        if len >= width {
            assert(gap =~= Seq::<char>::empty());
            assert(text@ + gap =~= text@);
        }
        assert(old(out)@ + text@ + gap =~= old(out)@ + (text@ + gap));
    }
    if len < width {
        push_repeated(out, " ", width - len);
    }
}

/// Whether `c` is a decimal digit.
pub open spec fn is_digit(c: char) -> bool {
    '0' <= c <= '9'
}

/// The number that a sequence of decimal digits stands for.
pub open spec fn digits_value(s: Seq<char>) -> int
    decreases s.len(),
{
    if s.len() == 0 {
        0
    } else {
        digits_value(s.drop_last()) * 10 + (s.last() as int - '0' as int)
    }
}

/// Whether `s` is one or more decimal digits.
pub open spec fn all_digits(s: Seq<char>) -> bool {
    &&& s.len() > 0
    &&& forall|i: int| 0 <= i < s.len() ==> is_digit(#[trigger] s[i])
}

/// `s` without the sign that it may start with.
pub open spec fn without_sign(s: Seq<char>) -> Seq<char> {
    if s.len() > 0 && (s[0] == '-' || s[0] == '+') {
        s.drop_first()
    } else {
        s
    }
}

/// The number that `s` stands for: an optional sign and one or more decimal
/// digits, within the range of `i32`.
pub open spec fn parsed_i32(s: Seq<char>) -> Option<int> {
    let size = digits_value(without_sign(s));
    let value = if s.len() > 0 && s[0] == '-' {
        -size
    } else {
        size
    };
    if all_digits(without_sign(s)) && i32::MIN <= value <= i32::MAX {
        Some(value)
    } else {
        None
    }
}

/// Reads decimal digits as a number, as long as it is not far beyond 32 bits.
fn parse_digits(chars: &Vec<char>, start: usize) -> (number: Option<i64>)
    requires
        start <= chars@.len(),
    ensures
        match number {
            Some(n) => {
                &&& all_digits(chars@.skip(start as int))
                &&& n == digits_value(chars@.skip(start as int))
                &&& 0 <= n <= 0x1_0000_0000
            },
            None => {
                ||| !all_digits(chars@.skip(start as int))
                ||| digits_value(chars@.skip(start as int)) > 0x1_0000_0000
            },
        },
{
    if start == chars.len() {
        return None;
    }
    let ghost digits = chars@.skip(start as int);
    let mut value: i64 = 0;
    let mut large: bool = false;
    proof {
        assert(digits.take(0) =~= Seq::<char>::empty());
    }
    for i in start..chars.len()
        invariant
            digits == chars@.skip(start as int),
            forall|j: int| 0 <= j < i - start ==> is_digit(#[trigger] digits[j]),
            0 <= value <= 0x1_0000_0000,
            !large ==> value == digits_value(digits.take(i - start)),
            large ==> digits_value(digits.take(i - start)) > 0x1_0000_0000,
    {
        let c = chars[i];
        if !('0' <= c && c <= '9') {
            assert(!is_digit(digits[i - start]));
            return None;
        }
        proof {
            assert(digits.take(i - start + 1).drop_last() =~= digits.take(i - start));
            assert(digits.take(i - start + 1).last() == c);
        }
        let d: i64 = (c as u8 - '0' as u8) as i64;
        if !large {
            let next: i64 = value * 10 + d;
            if next > 0x1_0000_0000 {
                large = true;
            } else {
                value = next;
            }
        }
    }
    proof {
        assert(digits.take(digits.len() as int) =~= digits);
    }
    if large {
        None
    } else {
        Some(value)
    }
}

/// Reads an optional sign and decimal digits as an `i32`.
pub fn parse_i32(s: &str) -> (number: Option<i32>)
    ensures
        match number {
            Some(n) => parsed_i32(s@) == Some(n as int),
            None => parsed_i32(s@) is None,
        },
{
    let chars = chars_of(s);
    let signed = chars.len() > 0 && (chars[0] == '-' || chars[0] == '+');
    let negative = chars.len() > 0 && chars[0] == '-';
    let start: usize = if signed {
        1
    } else {
        0
    };
    proof {
        assert(chars@.skip(start as int) =~= without_sign(s@));
    }
    match parse_digits(&chars, start) {
        Some(size) => {
            let value: i64 = if negative {
                -size
            } else {
                size
            };
            if -2147483648 <= value && value <= 2147483647 {
                Some(value as i32)
            } else {
                None
            }
        },
        None => None,
    }
}

} // verus!
