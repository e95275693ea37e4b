//! Laws of time and of numbers as texts.
use crate::instance::{elapsed_nanos, has_lasted};
use crate::numbers::{
    all_digits, decimal, digits_value, flush_left, flush_right, parsed_i32, repeated,
    signed_decimal,
};
use vstd::prelude::*;

verus! {

/// Time is counted in nanoseconds, of which a second has a thousand million: so many
/// seconds have passed since a moment once the clock shows that much more, and no time at
/// all has always passed.
pub proof fn time_is_counted_in_nanoseconds(started: u128, now: u128, secs: u64)
    ensures
        has_lasted(started, now, secs) <==> (secs == 0 || now >= started + secs * 1_000_000_000),
        now >= started ==> started + elapsed_nanos(started, now) == now,
        now <= started ==> elapsed_nanos(started, now) == 0,
{
}

/// What has lasted keeps lasting, and what has lasted long has lasted less long.
pub proof fn time_goes_on(started: u128, now: u128, later: u128, secs: u64, fewer: u64)
    requires
        has_lasted(started, now, secs),
        now <= later,
        fewer <= secs,
    ensures
        has_lasted(started, later, secs),
        has_lasted(started, now, fewer),
{
    assert(fewer * 1_000_000_000 <= secs * 1_000_000_000);
}

/// A number in decimal is digits without a leading zero, which read back as the number.
pub proof fn decimals_read_back(n: nat)
    ensures
        all_digits(decimal(n)),
        digits_value(decimal(n)) == n,
        decimal(n)[0] == '0' ==> n == 0 && decimal(n).len() == 1,
    decreases n,
{
    if n < 10 {
        reveal_with_fuel(digits_value, 2);
        assert(decimal(n).drop_last() =~= Seq::<char>::empty());
    } else {
        let head = decimal(n / 10);
        decimals_read_back(n / 10);
        assert(decimal(n).drop_last() =~= head);
        assert(decimal(n)[0] == head[0]);
        assert forall|i: int| 0 <= i < decimal(n).len() implies crate::numbers::is_digit(
            #[trigger] decimal(n)[i],
        ) by {
            if i < head.len() {
                assert(crate::numbers::is_digit(head[i]));
            }
        }
    }
}

/// Each place of a decimal number counts ten times the one behind it, and its digits are
/// those from 0 to 9.
pub proof fn digits_stand_in_places(n: nat, d: nat)
    requires
        d < 10,
    ensures
        n > 0 ==> decimal(n * 10 + d) == decimal(n) + decimal(d),
        decimal(0) == "0"@ && decimal(1) == "1"@ && decimal(2) == "2"@ && decimal(3) == "3"@,
        decimal(4) == "4"@ && decimal(5) == "5"@ && decimal(6) == "6"@ && decimal(7) == "7"@,
        decimal(8) == "8"@ && decimal(9) == "9"@,
{
    reveal_strlit("0");
    reveal_strlit("1");
    reveal_strlit("2");
    reveal_strlit("3");
    reveal_strlit("4");
    reveal_strlit("5");
    reveal_strlit("6");
    reveal_strlit("7");
    reveal_strlit("8");
    reveal_strlit("9");
    if n > 0 {
        assert((n * 10 + d) / 10 == n);
        assert((n * 10 + d) % 10 == d);
        assert(decimal(n * 10 + d) =~= decimal(n) + decimal(d));
    }
}

/// Different numbers are different texts.
pub proof fn decimals_differ(a: nat, b: nat)
    requires
        decimal(a) == decimal(b),
    ensures
        a == b,
{
    decimals_read_back(a);
    decimals_read_back(b);
}

/// A number that is written down is read as the same number: with a minus sign where it
/// is negative, and with or without a plus sign where it is not.
pub proof fn written_numbers_are_read(n: int)
    requires
        i32::MIN <= n <= i32::MAX,
    ensures
        parsed_i32(signed_decimal(n)) == Some(n),
        n >= 0 ==> parsed_i32(seq!['+'] + decimal(n as nat)) == Some(n),
        n >= 0 ==> signed_decimal(n) == decimal(n as nat),
        n < 0 ==> signed_decimal(n) == seq!['-'] + decimal((-n) as nat),
{
    if n < 0 {
        decimals_read_back((-n) as nat);
        assert((seq!['-'] + decimal((-n) as nat)).drop_first() =~= decimal((-n) as nat));
    } else {
        decimals_read_back(n as nat);
        assert((seq!['+'] + decimal(n as nat)).drop_first() =~= decimal(n as nat));
        assert(crate::numbers::is_digit(decimal(n as nat)[0]));
    }
}

/// A text is read as a number only if it is digits behind at most one sign, and then as
/// the number of those digits, if that fits.
pub proof fn only_numbers_are_read(s: Seq<char>, i: int)
    ensures
        s.len() == 0 ==> parsed_i32(s) is None,
        s.len() == 1 && !('0' <= s[0] <= '9') ==> parsed_i32(s) is None,
        0 <= i < s.len() && !('0' <= s[i] <= '9') && !(i == 0 && (s[0] == '-' || s[0] == '+'))
            ==> parsed_i32(s) is None,
        parsed_i32(s) is Some ==> i32::MIN <= parsed_i32(s)->0 <= i32::MAX,
        all_digits(s) && digits_value(s) <= i32::MAX ==> parsed_i32(s) == Some(digits_value(s)),
        all_digits(s) && digits_value(s) > i32::MAX ==> parsed_i32(s) is None,
        all_digits(s) && digits_value(s) <= -i32::MIN ==> parsed_i32(seq!['-'] + s) == Some(
            -digits_value(s),
        ),
{
    assert((seq!['-'] + s).drop_first() =~= s);
    if all_digits(s) {
        digits_count_up(s);
        assert(crate::numbers::is_digit(s[0]));
    }
    if 0 <= i < s.len() && !('0' <= s[i] <= '9') && !(i == 0 && (s[0] == '-' || s[0] == '+')) {
        if s[0] == '-' || s[0] == '+' {
            assert(s.drop_first()[i - 1] == s[i]);
        }
    }
}

/// Zeros before a number make no difference to it, nor does a plus sign.
pub proof fn leading_zeros_count_nothing(s: Seq<char>)
    requires
        s.len() > 0,
        forall|i: int| 0 <= i < s.len() ==> '0' <= #[trigger] s[i] <= '9',
    ensures
        parsed_i32(seq!['0'] + s) == parsed_i32(s),
        parsed_i32(seq!['+'] + s) == parsed_i32(s),
        parsed_i32(seq!['-', '0'] + s) == parsed_i32(seq!['-'] + s),
{
    let longer = seq!['0'] + s;
    zero_first(s);
    assert(longer[0] == '0');
    assert forall|i: int| 0 <= i < longer.len() implies crate::numbers::is_digit(
        #[trigger] longer[i],
    ) by {
        if i > 0 {
            assert(longer[i] == s[i - 1]);
        }
    }
    assert(all_digits(longer));
    assert(all_digits(s));
    assert(s[0] != '-' && s[0] != '+');
    assert((seq!['+'] + s).drop_first() =~= s);
    assert((seq!['-'] + s).drop_first() =~= s);
    assert((seq!['-', '0'] + s).drop_first() =~= longer);
}

proof fn zero_first(s: Seq<char>)
    ensures
        digits_value(seq!['0'] + s) == digits_value(s),
    decreases s.len(),
{
    let longer = seq!['0'] + s;
    if s.len() > 0 {
        zero_first(s.drop_last());
        assert(longer.drop_last() =~= seq!['0'] + s.drop_last());
        assert(longer.last() == s.last());
    } else {
        assert(longer.drop_last() =~= s);
        assert(longer.last() == '0');
    }
}

proof fn digits_count_up(s: Seq<char>)
    requires
        forall|i: int| 0 <= i < s.len() ==> '0' <= #[trigger] s[i] <= '9',
    ensures
        digits_value(s) >= 0,
    decreases s.len(),
{
    if s.len() > 0 {
        assert(s[s.len() - 1] == s.last());
        assert forall|i: int| 0 <= i < s.drop_last().len() implies '0'
            <= #[trigger] s.drop_last()[i] <= '9' by {
            assert(s.drop_last()[i] == s[i]);
        }
        digits_count_up(s.drop_last());
    }
}

/// A text in a field keeps all its characters, at the right or at the left end, and the
/// rest of the width is filled.
pub proof fn fields_hold_their_texts(s: Seq<char>, width: nat, fill: char, i: int)
    ensures
        flush_right(s, width, fill).len() == if s.len() < width {
            width
        } else {
            s.len()
        },
        flush_left(s, width).len() == flush_right(s, width, fill).len(),
        flush_right(s, width, fill).skip(flush_right(s, width, fill).len() - s.len()) == s,
        flush_left(s, width).take(s.len() as int) == s,
        0 <= i < flush_right(s, width, fill).len() - s.len() ==> flush_right(s, width, fill)[i]
            == fill,
        s.len() <= i < flush_left(s, width).len() ==> flush_left(s, width)[i] == ' ',
        repeated(fill, width).len() == width,
        0 <= i < width ==> repeated(fill, width)[i] == fill,
{
    assert(flush_right(s, width, fill).skip(flush_right(s, width, fill).len() - s.len()) =~= s);
    assert(flush_left(s, width).take(s.len() as int) =~= s);
}

} // verus!
