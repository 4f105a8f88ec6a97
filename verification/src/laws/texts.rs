//! Texts, their order and numerals.

use crate::text;
use vstd::prelude::*;
use vstd::utf8::encode_utf8;

verus! {

/// The order of two byte strings is that of the first bytes in which they differ, and a string stands
/// behind those that begin it.
pub proof fn bytes_are_ordered_by_the_first_difference(a: Seq<u8>, b: Seq<u8>, n: int)
    requires
        0 <= n <= a.len(),
        n <= b.len(),
        a.take(n) == b.take(n),
        n < a.len() && n < b.len() ==> a[n] != b[n],
    ensures
        n == a.len() && n == b.len() ==> text::rank_bytes(a, b) == 0,
        n == a.len() && n < b.len() ==> text::rank_bytes(a, b) == -1,
        n < a.len() && n == b.len() ==> text::rank_bytes(a, b) == 1,
        n < a.len() && n < b.len() ==> text::rank_bytes(a, b) == if a[n] < b[n] {
            -1int
        } else {
            1int
        },
    decreases n,
{
    if n > 0 {
        let c = a.drop_first();
        let d = b.drop_first();
        assert(a[0] == a.take(n)[0]);
        assert(b[0] == b.take(n)[0]);
        assert forall|i: int| 0 <= i < n - 1 implies #[trigger] c.take(n - 1)[i] == d.take(n - 1)[i] by {
            assert(c.take(n - 1)[i] == a.take(n)[i + 1]);
            assert(d.take(n - 1)[i] == b.take(n)[i + 1]);
        }
        assert(c.take(n - 1) =~= d.take(n - 1));
        bytes_are_ordered_by_the_first_difference(c, d, n - 1);
    }
}

/// Texts are ordered as their UTF-8 bytes are.
pub proof fn texts_are_ordered_by_the_first_difference(a: Seq<char>, b: Seq<char>, n: int)
    requires
        0 <= n <= encode_utf8(a).len(),
        n <= encode_utf8(b).len(),
        encode_utf8(a).take(n) == encode_utf8(b).take(n),
        n < encode_utf8(a).len() && n < encode_utf8(b).len() ==> encode_utf8(a)[n] != encode_utf8(b)[n],
    ensures
        text::rank_text(a, b) == if n < encode_utf8(a).len() && n < encode_utf8(b).len() {
            if encode_utf8(a)[n] < encode_utf8(b)[n] {
                -1int
            } else {
                1int
            }
        } else if encode_utf8(a).len() < encode_utf8(b).len() {
            -1int
        } else if encode_utf8(a).len() > encode_utf8(b).len() {
            1int
        } else {
            0int
        },
{
    bytes_are_ordered_by_the_first_difference(encode_utf8(a), encode_utf8(b), n);
}

/// A text begins with another where it is that one and something behind it, and finishes with another
/// where it is something and that one behind it.
pub proof fn texts_begin_and_finish(head: Seq<char>, tail: Seq<char>, text: Seq<char>, part: Seq<char>)
    ensures
        text::begins_with(head + tail, head),
        text::finishes_with(head + tail, tail),
        text::begins_with(text, part) ==> exists|rest: Seq<char>| text == #[trigger] (part + rest),
        text::finishes_with(text, part) ==> exists|rest: Seq<char>| text == #[trigger] (rest + part),
{
    assert((head + tail).take(head.len() as int) =~= head);
    assert((head + tail).skip((head + tail).len() - tail.len()) =~= tail);
    if text::begins_with(text, part) {
        assert(text =~= part + text.skip(part.len() as int));
    }
    if text::finishes_with(text, part) {
        assert(text =~= text.take(text.len() - part.len()) + part);
    }
}

/// What a row of decimal digits stands for.
pub open spec fn numeral_value(digits: Seq<char>) -> int
    decreases digits.len(),
{
    if digits.len() == 0 {
        0
    } else {
        10 * numeral_value(digits.drop_last()) + (digits.last() as int - '0' as int)
    }
}

/// Whether a text is made of decimal digits alone.
pub open spec fn is_numeral(digits: Seq<char>) -> bool {
    forall|i: int| 0 <= i < digits.len() ==> '0' <= #[trigger] digits[i] <= '9'
}

/// The numeral of a number is made of digits, has none to spare in front, and stands for the number.
pub proof fn numerals_stand_for_their_number(n: nat)
    ensures
        is_numeral(text::decimal(n)),
        text::decimal(n).len() >= 1,
        text::decimal(n).len() > 1 ==> text::decimal(n)[0] != '0',
        numeral_value(text::decimal(n)) == n,
    decreases n,
{
    let numeral = text::decimal(n);
    if n < 10 {
        assert(numeral.drop_last() =~= Seq::<char>::empty());
        assert(numeral_value(numeral.drop_last()) == 0);
    } else {
        let before = text::decimal(n / 10);
        numerals_stand_for_their_number(n / 10);
        assert(numeral.drop_last() =~= before);
        if before.len() == 1 {
            assert(before.drop_last() =~= Seq::<char>::empty());
            assert(numeral_value(before) == 10 * numeral_value(before.drop_last()) + (before.last() as int - 48));
            assert(n / 10 >= 1);
            assert(numeral[0] == before[0]);
        } else {
            assert(numeral[0] == before[0]);
        }
    }
}

/// The numeral of an integer is that of its size, behind a minus sign where the integer is negative.
pub proof fn signed_numerals_stand_for_their_number(n: int)
    ensures
        n < 0 ==> text::decimal_int(n).len() >= 2 && text::decimal_int(n)[0] == '-' && is_numeral(
            text::decimal_int(n).skip(1),
        ) && numeral_value(text::decimal_int(n).skip(1)) == -n,
        n >= 0 ==> is_numeral(text::decimal_int(n)) && numeral_value(text::decimal_int(n)) == n,
{
    if n < 0 {
        numerals_stand_for_their_number((-n) as nat);
        assert(text::decimal_int(n).skip(1) =~= text::decimal((-n) as nat));
    } else {
        numerals_stand_for_their_number(n as nat);
    }
}

} // verus!
