//! Byte offsets in UTF-8 text.
//!
//! The scanner reads its text character by character, but its cursor is a
//! byte offset into the text as UTF-8 holds it. This module says how many
//! bytes lie before a character.

use vstd::prelude::*;
use vstd::utf8::{encode_scalar, encode_utf8};

verus! {

/// The number of bytes that `c` takes in UTF-8.
pub open spec fn utf8_len(c: char) -> nat {
    if c <= '\u{7F}' {
        1
    } else if c <= '\u{7FF}' {
        2
    } else if c <= '\u{FFFF}' {
        3
    } else {
        4
    }
}

/// The byte offset of the character with index `i`: the number of bytes that
/// the first `i` characters of `s` take in UTF-8.
pub open spec fn byte_offset(s: Seq<char>, i: int) -> nat
    decreases i,
{
    if 0 < i <= s.len() {
        byte_offset(s, i - 1) + utf8_len(s[i - 1])
    } else {
        0
    }
}

/// The number of bytes that `s` takes in UTF-8.
pub open spec fn byte_len(s: Seq<char>) -> nat {
    byte_offset(s, s.len() as int)
}

/// `char::len_utf8` returns the number of bytes that a character needs when
/// it is encoded in UTF-8. Trusted, not proved.
pub assume_specification[ char::len_utf8 ](c: char) -> (n: usize)
    ensures
        n == encode_utf8(seq![c]).len(),
;

/// A character takes in UTF-8 as many bytes as its encoding has.
pub proof fn lemma_utf8_len(c: char)
    ensures
        utf8_len(c) == encode_scalar(c as u32).len(),
        utf8_len(c) == encode_utf8(seq![c]).len(),
        1 <= utf8_len(c) <= 4,
{
    let one = seq![c];
    assert(one.drop_first() =~= Seq::<char>::empty());
    assert(encode_utf8(one.drop_first()) =~= Seq::<u8>::empty()) by {
        reveal_with_fuel(encode_utf8, 2);
    }
    assert(encode_utf8(one) =~= encode_scalar(c as u32)) by {
        reveal_with_fuel(encode_utf8, 2);
    }
}

/// The number of bytes that `c` takes in UTF-8.
pub fn width_of(c: char) -> (n: usize)
    ensures
        n == utf8_len(c),
{
    proof {
        lemma_utf8_len(c);
    }
    c.len_utf8()
}

/// Byte offsets grow with the index, by at least one byte for each
/// character.
pub proof fn lemma_byte_offset_grows(s: Seq<char>, i: int, j: int)
    requires
        0 <= i <= j <= s.len(),
    ensures
        byte_offset(s, i) + (j - i) <= byte_offset(s, j),
        byte_offset(s, j) <= byte_offset(s, i) + 4 * (j - i),
    decreases j - i,
{
    if i < j {
        lemma_byte_offset_grows(s, i, j - 1);
    }
}

/// In a stretch of ASCII text, byte offsets grow by one byte for each
/// character.
pub proof fn lemma_byte_offset_ascii(s: Seq<char>, i: int, j: int)
    requires
        0 <= i <= j <= s.len(),
        forall|k: int| i <= k < j ==> #[trigger] s[k] <= '\u{7F}',
    ensures
        byte_offset(s, j) == byte_offset(s, i) + (j - i),
    decreases j - i,
{
    if i < j {
        lemma_byte_offset_ascii(s, i, j - 1);
    }
}

/// The encoding of a text grows by the bytes of a character added behind
/// it.
proof fn lemma_encode_push(s: Seq<char>, c: char)
    ensures
        encode_utf8(s.push(c)).len() == encode_utf8(s).len() + utf8_len(c),
    decreases s.len(),
{
    lemma_utf8_len(c);
    if s.len() == 0 {
        assert(s.push(c) =~= seq![c]);
    } else {
        assert(s.push(c).drop_first() =~= s.drop_first().push(c));
        lemma_encode_push(s.drop_first(), c);
    }
}

/// The first `i` characters of a text are encoded in `byte_offset(s, i)`
/// bytes.
proof fn lemma_encode_take(s: Seq<char>, i: int)
    requires
        0 <= i <= s.len(),
    ensures
        byte_offset(s, i) == encode_utf8(s.take(i)).len(),
    decreases i,
{
    if 0 < i {
        lemma_encode_take(s, i - 1);
        assert(s.take(i) =~= s.take(i - 1).push(s[i - 1]));
        lemma_encode_push(s.take(i - 1), s[i - 1]);
    } else {
        assert(s.take(i) =~= Seq::<char>::empty());
    }
}

/// Byte offsets are offsets into the UTF-8 encoding: the first `i`
/// characters of a text are encoded in `byte_offset(s, i)` bytes, and the
/// whole text in `byte_len(s)`.
pub proof fn byte_offset_is_encoded_length(s: Seq<char>, i: int)
    requires
        0 <= i <= s.len(),
    ensures
        byte_offset(s, i) == encode_utf8(s.take(i)).len(),
        byte_len(s) == encode_utf8(s).len(),
{
    lemma_encode_take(s, i);
    lemma_encode_take(s, s.len() as int);
    assert(s.take(s.len() as int) =~= s);
}

} // verus!
