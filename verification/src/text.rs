//! Text: the byte order of strings, decimal numerals, and the quoted form of a string.

use vstd::prelude::*;
use vstd::string::*;
use vstd::utf8::*;

verus! {

/// `String::push` appends one character.
pub assume_specification[ std::string::String::push ](s: &mut std::string::String, c: char)
    ensures
        final(s)@ == old(s)@.push(c),
;

/// The lexicographic order of byte strings: negative, zero or positive as `a` stands before, with
/// or after `b`.
pub open spec fn rank_bytes(a: Seq<u8>, b: Seq<u8>) -> int
    decreases a.len(),
{
    if a.len() == 0 {
        if b.len() == 0 { 0 } else { -1 }
    } else if b.len() == 0 {
        1
    } else if a[0] < b[0] {
        -1
    } else if b[0] < a[0] {
        1
    } else {
        rank_bytes(a.drop_first(), b.drop_first())
    }
}

/// The order of texts: that of their UTF-8 bytes.
pub open spec fn rank_text(a: Seq<char>, b: Seq<char>) -> int {
    rank_bytes(encode_utf8(a), encode_utf8(b))
}

pub proof fn lemma_rank_bytes_flip(a: Seq<u8>, b: Seq<u8>)
    ensures
        rank_bytes(a, b) == -rank_bytes(b, a),
        -1 <= rank_bytes(a, b) <= 1,
        rank_bytes(a, b) == 0 <==> a == b,
    decreases a.len(),
{
    if a.len() > 0 && b.len() > 0 {
        lemma_rank_bytes_flip(a.drop_first(), b.drop_first());
        if a[0] == b[0] && a.drop_first() == b.drop_first() {
            assert(a =~= seq![a[0]] + a.drop_first());
            assert(b =~= seq![b[0]] + b.drop_first());
        }
    } else if a.len() == 0 && b.len() == 0 {
        assert(a =~= b);
    }
}

pub proof fn lemma_rank_bytes_transitive(a: Seq<u8>, b: Seq<u8>, c: Seq<u8>)
    requires
        rank_bytes(a, b) <= 0,
        rank_bytes(b, c) <= 0,
    ensures
        rank_bytes(a, c) <= 0,
        rank_bytes(a, b) < 0 || rank_bytes(b, c) < 0 <==> rank_bytes(a, c) < 0,
    decreases a.len(),
{
    if a.len() > 0 && b.len() > 0 && c.len() > 0 {
        if a[0] == b[0] && b[0] == c[0] {
            lemma_rank_bytes_transitive(a.drop_first(), b.drop_first(), c.drop_first());
        }
    }
}

/// Text order is antisymmetric, and two texts stand together exactly when they are equal.
pub proof fn lemma_rank_text_flip(a: Seq<char>, b: Seq<char>)
    ensures
        rank_text(a, b) == -rank_text(b, a),
        -1 <= rank_text(a, b) <= 1,
        rank_text(a, b) == 0 <==> a == b,
{
    lemma_rank_bytes_flip(encode_utf8(a), encode_utf8(b));
    encode_utf8_decode_utf8(a);
    encode_utf8_decode_utf8(b);
}

/// Text order is transitive, strictly so where one of the two steps is strict.
pub proof fn lemma_rank_text_transitive(a: Seq<char>, b: Seq<char>, c: Seq<char>)
    requires
        rank_text(a, b) <= 0,
        rank_text(b, c) <= 0,
    ensures
        rank_text(a, c) <= 0,
        rank_text(a, b) < 0 || rank_text(b, c) < 0 <==> rank_text(a, c) < 0,
{
    lemma_rank_bytes_transitive(encode_utf8(a), encode_utf8(b), encode_utf8(c));
}

/// Compares two byte strings.
pub fn compare_bytes(a: &[u8], b: &[u8]) -> (r: i8)
    ensures
        r as int == rank_bytes(a@, b@),
{
    let mut i: usize = 0;
    proof {
        assert(a@.skip(0) =~= a@);
        assert(b@.skip(0) =~= b@);
    }
    while i < a.len() && i < b.len()
        invariant
            i <= a@.len(),
            i <= b@.len(),
            rank_bytes(a@, b@) == rank_bytes(a@.skip(i as int), b@.skip(i as int)),
        decreases a@.len() - i,
    {
        if a[i] < b[i] {
            return -1;
        }
        if b[i] < a[i] {
            return 1;
        }
        proof {
            assert(a@.skip(i as int).drop_first() =~= a@.skip(i + 1));
            assert(b@.skip(i as int).drop_first() =~= b@.skip(i + 1));
        }
        i = i + 1;
    }
    if i < b.len() {
        -1
    } else if i < a.len() {
        1
    } else {
        0
    }
}

/// Compares two texts in the order of their bytes.
pub fn compare_text(a: &str, b: &str) -> (r: i8)
    ensures
        r as int == rank_text(a@, b@),
{
    compare_bytes(a.as_bytes(), b.as_bytes())
}

/// Whether two texts are equal.
pub fn same_text(a: &str, b: &str) -> (r: bool)
    ensures
        r == (a@ == b@),
{
    proof {
        lemma_rank_text_flip(a@, b@);
    }
    compare_text(a, b) == 0
}

/// The characters of a text.
pub fn chars_of(text: &str) -> (r: Vec<char>)
    ensures
        r@ == text@,
{
    broadcast use {axiom_spec_iter, next_postcondition};

    let mut rest = text.chars();
    let mut out: Vec<char> = Vec::new();
    assert(text@.skip(0) =~= text@);
    loop
        invariant
            vstd::std_specs::iter::IteratorSpec::obeys_prophetic_iter_laws(&rest),
            out@.len() <= text@.len(),
            out@ == text@.take(out@.len() as int),
            vstd::std_specs::iter::IteratorSpec::remaining(&rest) == text@.skip(out@.len() as int),
        ensures
            out@ == text@,
        decreases text@.len() - out@.len(),
    {
        match rest.next() {
            Some(c) => {
                let ghost done = out@.len() as int;
                out.push(c);
                assert(text@.skip(done).drop_first() =~= text@.skip(done + 1));
                assert(out@ =~= text@.take(done + 1));
            },
            None => {
                assert(text@.take(text@.len() as int) =~= text@);
                break;
            },
        }
    }
    out
}

/// Whether a text begins with another.
pub open spec fn begins_with(text: Seq<char>, prefix: Seq<char>) -> bool {
    text.len() >= prefix.len() && text.take(prefix.len() as int) == prefix
}

/// Whether a text ends with another.
pub open spec fn finishes_with(text: Seq<char>, suffix: Seq<char>) -> bool {
    text.len() >= suffix.len() && text.skip(text.len() - suffix.len()) == suffix
}

/// Whether the characters of `part` stand in `text` from `at` on.
fn matches_at(text: &Vec<char>, part: &Vec<char>, at: usize) -> (r: bool)
    requires
        at + part@.len() <= text@.len(),
    ensures
        r == (text@.subrange(at as int, at + part@.len()) == part@),
{
    let ghost found = text@.subrange(at as int, at + part@.len());
    let total: usize = text.len();
    let mut i: usize = 0;
    while i < part.len()
        invariant
            i <= part@.len(),
            total == text@.len(),
            at + part@.len() <= text@.len(),
            found == text@.subrange(at as int, at + part@.len()),
            forall|j: int| 0 <= j < i ==> found[j] == #[trigger] part@[j],
        decreases part@.len() - i,
    {
        if text[at + i] != part[i] {
            assert(found[i as int] != part@[i as int]);
            return false;
        }
        i = i + 1;
    }
    assert(found =~= part@);
    true
}

/// Whether a text begins with another.
pub fn has_prefix(text: &str, prefix: &str) -> (r: bool)
    ensures
        r == begins_with(text@, prefix@),
{
    let text_chars = chars_of(text);
    let prefix_chars = chars_of(prefix);
    if text_chars.len() < prefix_chars.len() {
        return false;
    }
    assert(text@.subrange(0, prefix@.len() as int) =~= text@.take(prefix@.len() as int));
    matches_at(&text_chars, &prefix_chars, 0)
}

/// Whether a text ends with another.
pub fn has_suffix(text: &str, suffix: &str) -> (r: bool)
    ensures
        r == finishes_with(text@, suffix@),
{
    let text_chars = chars_of(text);
    let suffix_chars = chars_of(suffix);
    if text_chars.len() < suffix_chars.len() {
        return false;
    }
    let at: usize = text_chars.len() - suffix_chars.len();
    assert(text@.subrange(at as int, at + suffix@.len()) =~= text@.skip(at as int));
    matches_at(&text_chars, &suffix_chars, at)
}

/// The decimal digit of value `d`.
pub open spec fn digit(d: int) -> char {
    (48 + d) as char
}

/// The decimal numeral of `n`, without leading zeros.
pub open spec fn decimal(n: nat) -> Seq<char>
    decreases n,
{
    if n < 10 {
        seq![digit(n as int)]
    } else {
        decimal(n / 10).push(digit((n % 10) as int))
    }
}

/// The decimal numeral of `n`, with a leading minus sign where it is negative.
pub open spec fn decimal_int(n: int) -> Seq<char> {
    if n < 0 {
        seq!['-'] + decimal((-n) as nat)
    } else {
        decimal(n as nat)
    }
}

/// The decimal digit of value `d`.
pub fn digit_char(d: u8) -> (r: char)
    requires
        d < 10,
    ensures
        r == digit(d as int),
{
    (48 + d) as char
}

/// Appends the decimal numeral of `n`.
pub fn push_decimal(out: &mut String, n: u64)
    ensures
        final(out)@ == old(out)@ + decimal(n as nat),
    decreases n,
{
    if n >= 10 {
        push_decimal(out, n / 10);
    }
    out.push(digit_char((n % 10) as u8));
    assert(final(out)@ =~= old(out)@ + decimal(n as nat));
}

/// Appends the decimal numeral of `n`.
pub fn push_decimal_int(out: &mut String, n: i64)
    ensures
        final(out)@ == old(out)@ + decimal_int(n as int),
{
    if n < 0 {
        out.push('-');
        let magnitude: i128 = -(n as i128);
        push_decimal(out, magnitude as u64);
        assert(out@ =~= old(out)@ + decimal_int(n as int));
    } else {
        push_decimal(out, n as u64);
    }
}

/// What `Debug` writes for a text: the text in double quotes with its special characters escaped.
pub uninterp spec fn debug_text(text: Seq<char>) -> Seq<char>;

/// The `Debug` form of a `str`, through `format!`. The contract names that form; which characters
/// it escapes, and how, is not stated.
#[verifier::external_body]
pub(crate) fn debug_str(text: &str) -> (r: String)
    ensures
        r@ == debug_text(text@),
{
    format!("{:?}", text)
}

/// The text that bytes stand for, with a replacement for what is not UTF-8.
pub uninterp spec fn lossy_text(bytes: Seq<u8>) -> Seq<char>;

/// `String::from_utf8_lossy`: the text of bytes. Bytes that are UTF-8 are those of the text; what stands
/// for others is named, not stated.
#[verifier::external_body]
pub(crate) fn text_lossy(bytes: &[u8]) -> (r: String)
    ensures
        r@ == lossy_text(bytes@),
        valid_utf8(bytes@) ==> encode_utf8(r@) == bytes@,
{
    String::from_utf8_lossy(bytes).into_owned()
}

} // verus!
