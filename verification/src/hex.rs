//! Lower-case hexadecimal text for bytes, two digits per byte and no separators.
use vstd::prelude::*;

verus! {

/// `String::push` appends one character to the end of the string.
pub assume_specification[ String::push ](text: &mut String, c: char)
    ensures
        final(text)@ == old(text)@.push(c),
;

/// The lower-case hexadecimal digit for a value below sixteen.
pub open spec fn hex_digit(nibble: int) -> char {
    if nibble < 10 {
        ('0' as int + nibble) as char
    } else {
        ('a' as int + nibble - 10) as char
    }
}

/// The two digits of a byte, the high half first.
pub open spec fn hex_pair(byte: u8) -> Seq<char> {
    seq![hex_digit(byte as int / 16), hex_digit(byte as int % 16)]
}

/// The digits of a sequence of bytes, byte after byte.
pub open spec fn hex_text(bytes: Seq<u8>) -> Seq<char>
    decreases bytes.len(),
{
    if bytes.len() == 0 {
        Seq::empty()
    } else {
        hex_text(bytes.drop_last()) + hex_pair(bytes.last())
    }
}

/// The text of a byte sequence has two characters for each byte.
pub proof fn lemma_hex_text_len(bytes: Seq<u8>)
    ensures
        hex_text(bytes).len() == 2 * bytes.len(),
    decreases bytes.len(),
{
    if bytes.len() > 0 {
        lemma_hex_text_len(bytes.drop_last());
    }
}

/// The text of a concatenation is the concatenation of the texts.
pub proof fn lemma_hex_text_concat(front: Seq<u8>, back: Seq<u8>)
    ensures
        hex_text(front + back) == hex_text(front) + hex_text(back),
    decreases back.len(),
{
    if back.len() == 0 {
        assert(front + back =~= front);
        assert(hex_text(front) + hex_text(back) =~= hex_text(front));
    } else {
        lemma_hex_text_concat(front, back.drop_last());
        assert((front + back).drop_last() =~= front + back.drop_last());
        assert(hex_text(front + back) =~= hex_text(front) + hex_text(back));
    }
}

/// Whether a character is a decimal digit or one of the letters `a` to `f`.
pub open spec fn is_lower_hex_digit(c: char) -> bool {
    '0' <= c <= '9' || 'a' <= c <= 'f'
}

/// The two characters that the text holds for byte `k` are the digits of
/// that byte.
pub proof fn lemma_hex_text_index(bytes: Seq<u8>, k: int)
    requires
        0 <= k < bytes.len(),
    ensures
        hex_text(bytes).len() == 2 * bytes.len(),
        hex_text(bytes)[2 * k] == hex_digit(bytes[k] as int / 16),
        hex_text(bytes)[2 * k + 1] == hex_digit(bytes[k] as int % 16),
    decreases bytes.len(),
{
    lemma_hex_text_len(bytes);
    lemma_hex_text_len(bytes.drop_last());
    if k < bytes.len() - 1 {
        lemma_hex_text_index(bytes.drop_last(), k);
    }
}

/// The text holds lower-case hexadecimal digits and nothing else.
pub proof fn lemma_hex_text_digits(bytes: Seq<u8>)
    ensures
        forall|i: int|
            0 <= i < hex_text(bytes).len() ==> is_lower_hex_digit(#[trigger] hex_text(bytes)[i]),
{
    lemma_hex_text_len(bytes);
    assert forall|i: int| 0 <= i < hex_text(bytes).len() implies is_lower_hex_digit(
        #[trigger] hex_text(bytes)[i],
    ) by {
        let k = i / 2;
        lemma_hex_text_index(bytes, k);
        assert(i == 2 * k || i == 2 * k + 1);
    }
}

/// The digit for a value below sixteen.
pub fn hex_digit_char(nibble: u8) -> (c: char)
    requires
        nibble < 16,
    ensures
        c == hex_digit(nibble as int),
{
    if nibble < 10 {
        (0x30u8 + nibble) as char
    } else {
        (0x61u8 + (nibble - 10)) as char
    }
}

/// Appends the two digits of `byte` to `text`.
pub fn push_hex(text: &mut String, byte: u8)
    ensures
        final(text)@ == old(text)@ + hex_pair(byte),
{
    text.push(hex_digit_char(byte / 16));
    text.push(hex_digit_char(byte % 16));
}

} // verus!
