//! Laws of texts: trimming, words, case and order.
use crate::order::text_le;
use crate::text::{same_ignoring_case, trimmed, white_space, words};
use vstd::prelude::*;

verus! {

/// To trim a text takes away white space at both ends, all of it, and nothing else: what
/// is left stands between the two places that are found.
pub proof fn trimming_takes_the_space_at_the_ends(s: Seq<char>) -> (ends: (int, int))
    ensures
        0 <= ends.0 <= ends.1 <= s.len(),
        trimmed(s) == s.subrange(ends.0, ends.1),
        forall|i: int| 0 <= i < ends.0 ==> white_space(#[trigger] s[i]),
        forall|i: int| ends.1 <= i < s.len() ==> white_space(#[trigger] s[i]),
        ends.0 < ends.1 ==> !white_space(s[ends.0]) && !white_space(s[ends.1 - 1]),
    decreases s.len(),
{
    if s.len() == 0 {
        assert(s =~= s.subrange(0, 0));
        (0, 0)
    } else if white_space(s.first()) {
        let rest = s.drop_first();
        let (from, to) = trimming_takes_the_space_at_the_ends(rest);
        assert(rest.subrange(from, to) =~= s.subrange(from + 1, to + 1));
        assert forall|i: int| 0 <= i < from + 1 implies white_space(#[trigger] s[i]) by {
            if i > 0 {
                assert(rest[i - 1] == s[i]);
            }
        }
        assert forall|i: int| to + 1 <= i < s.len() implies white_space(#[trigger] s[i]) by {
            assert(rest[i - 1] == s[i]);
        }
        (from + 1, to + 1)
    } else if white_space(s.last()) {
        let rest = s.drop_last();
        let (from, to) = trimming_takes_the_space_at_the_ends(rest);
        assert(rest.subrange(from, to) =~= s.subrange(from, to));
        assert forall|i: int| 0 <= i < from implies white_space(#[trigger] s[i]) by {
            assert(rest[i] == s[i]);
        }
        assert forall|i: int| to <= i < s.len() implies white_space(#[trigger] s[i]) by {
            if i < rest.len() {
                assert(rest[i] == s[i]);
            }
        }
        (from, to)
    } else {
        assert(s =~= s.subrange(0, s.len() as int));
        (0, s.len() as int)
    }
}

/// White space is the space, the controls from tab to carriage return and the next-line
/// control, and the other spaces and separators that Unicode counts to it.
pub proof fn white_space_is_that_of_unicode(c: char)
    ensures
        white_space(c) <==> {
            let n = c as int;
            ||| n == 32
            ||| 9 <= n <= 13
            ||| n == 133
            ||| n == 160
            ||| n == 5760
            ||| 8192 <= n <= 8202
            ||| n == 8232 || n == 8233
            ||| n == 8239
            ||| n == 8287
            ||| n == 12288
        },
{
}

/// A text without white space is one word.
pub proof fn a_text_without_space_is_a_word(s: Seq<char>)
    requires
        s.len() > 0,
        forall|i: int| 0 <= i < s.len() ==> !white_space(#[trigger] s[i]),
    ensures
        words(s) == seq![s],
    decreases s.len(),
{
    let rest = s.drop_last();
    assert(s =~= rest.push(s.last()));
    assert(s[s.len() - 1] == s.last());
    if s.len() == 1 {
        reveal_with_fuel(words, 2);
        assert(words(rest) =~= Seq::<Seq<char>>::empty());
        assert(s =~= seq![s.last()]);
        assert(words(s) =~= seq![s]);
    } else {
        assert forall|i: int| 0 <= i < rest.len() implies !white_space(#[trigger] rest[i]) by {
            assert(rest[i] == s[i]);
        }
        a_text_without_space_is_a_word(rest);
        assert(!white_space(s[s.len() - 2]));
        assert(words(s) =~= seq![s]);
    }
}

/// White space parts words: those before it, then those behind it.
pub proof fn space_parts_words(a: Seq<char>, space: char, b: Seq<char>)
    requires
        white_space(space),
    ensures
        words(a + seq![space] + b) == words(a) + words(b),
    decreases b.len(),
{
    let s = a + seq![space] + b;
    if b.len() == 0 {
        assert(s.drop_last() =~= a);
        assert(s.last() == space);
        assert(words(s) =~= words(a) + words(b));
    } else {
        let rest = b.drop_last();
        space_parts_words(a, space, rest);
        assert(s.drop_last() =~= a + seq![space] + rest);
        assert(s.last() == b.last());
        if !white_space(b.last()) {
            if b.len() == 1 {
                assert(s[s.len() - 2] == space);
                assert(words(s) =~= words(a) + words(b));
            } else {
                assert(s[s.len() - 2] == b[b.len() - 2]);
                if !white_space(b[b.len() - 2]) {
                    a_text_that_ends_in_a_word(rest);
                }
                assert(words(s) =~= words(a) + words(b));
            }
        }
    }
}

proof fn a_text_that_ends_in_a_word(s: Seq<char>)
    requires
        s.len() > 0,
        !white_space(s.last()),
    ensures
        words(s).len() > 0,
{
}

/// Texts are the same but for case if they are of one length and differ at most between
/// `A` and `a`, `B` and `b`, and so on.
pub proof fn case_is_that_of_ascii_letters(a: Seq<char>, b: Seq<char>)
    ensures
        same_ignoring_case(a, b) <==> (a.len() == b.len() && forall|i: int|
            0 <= i < a.len() ==> {
                let (x, y) = (#[trigger] a[i], b[i]);
                ||| x == y
                ||| 'A' <= x <= 'Z' && y as u32 == x as u32 + 32
                ||| 'A' <= y <= 'Z' && x as u32 == y as u32 + 32
            }),
{
}

/// The first difference decides the order of two texts, and a text stands before any
/// longer one that begins with it.
pub proof fn the_first_difference_decides(
    head: Seq<char>,
    x: char,
    y: char,
    a: Seq<char>,
    b: Seq<char>,
)
    ensures
        x != y ==> (text_le(head + seq![x] + a, head + seq![y] + b) <==> x < y),
        text_le(head, head + a),
        a.len() > 0 ==> !text_le(head + a, head),
    decreases head.len(),
{
    let left = head + seq![x] + a;
    let right = head + seq![y] + b;
    if head.len() == 0 {
        assert(left[0] == x && right[0] == y);
    } else {
        let rest = head.drop_first();
        the_first_difference_decides(rest, x, y, a, b);
        assert(left.drop_first() =~= rest + seq![x] + a);
        assert(right.drop_first() =~= rest + seq![y] + b);
        assert((head + a).drop_first() =~= rest + a);
        assert(left[0] == head[0] && right[0] == head[0] && (head + a)[0] == head[0]);
    }
}

} // verus!
