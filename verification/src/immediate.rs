//! Immediate operands read as unsigned integers, most significant byte first.
use vstd::prelude::*;

verus! {

/// The unsigned integer that `bytes` spell, most significant byte first. The
/// empty sequence spells zero, and leading zero bytes do not change the value.
pub open spec fn be_value(bytes: Seq<u8>) -> nat
    decreases bytes.len(),
{
    if bytes.len() == 0 {
        0
    } else {
        be_value(bytes.drop_last()) * 256 + bytes.last() as nat
    }
}

/// The `width` least significant bytes of `value`, most significant byte first.
pub open spec fn be_bytes(value: nat, width: nat) -> Seq<u8>
    decreases width,
{
    if width == 0 {
        Seq::empty()
    } else {
        be_bytes(value / 256, (width - 1) as nat).push((value % 256) as u8)
    }
}

/// The number of values that `width` bytes can spell: 256 to the power `width`.
pub open spec fn be_limit(width: nat) -> nat
    decreases width,
{
    if width == 0 {
        1
    } else {
        256 * be_limit((width - 1) as nat)
    }
}

/// The limits of the widths that fit a 32-bit value.
pub proof fn lemma_be_limit_values()
    ensures
        be_limit(0) == 1,
        be_limit(1) == 0x100,
        be_limit(2) == 0x1_0000,
        be_limit(3) == 0x100_0000,
        be_limit(4) == 0x1_0000_0000,
{
    reveal_with_fuel(be_limit, 5);
}

/// A sequence of bytes spells a value below the limit of its length.
pub proof fn lemma_be_value_bound(bytes: Seq<u8>)
    ensures
        be_value(bytes) < be_limit(bytes.len()),
    decreases bytes.len(),
{
    if bytes.len() > 0 {
        lemma_be_value_bound(bytes.drop_last());
    }
}

/// Encoding yields exactly `width` bytes.
pub proof fn lemma_be_bytes_len(value: nat, width: nat)
    ensures
        be_bytes(value, width).len() == width,
    decreases width,
{
    if width > 0 {
        lemma_be_bytes_len(value / 256, (width - 1) as nat);
    }
}

/// A value below the limit of `width` is read back from its `width` bytes.
pub proof fn lemma_be_value_of_bytes(value: nat, width: nat)
    requires
        value < be_limit(width),
    ensures
        be_value(be_bytes(value, width)) == value,
    decreases width,
{
    if width > 0 {
        let head = be_bytes(value / 256, (width - 1) as nat);
        lemma_be_value_of_bytes(value / 256, (width - 1) as nat);
        assert(be_bytes(value, width).drop_last() =~= head);
    }
}

/// Bytes are recovered from the value they spell and their number, so two
/// sequences of one length that spell one value are equal.
pub proof fn lemma_be_bytes_of_value(bytes: Seq<u8>)
    ensures
        be_bytes(be_value(bytes), bytes.len()) == bytes,
    decreases bytes.len(),
{
    if bytes.len() > 0 {
        lemma_be_bytes_of_value(bytes.drop_last());
        assert(be_bytes(be_value(bytes), bytes.len()) =~= bytes);
    }
}

/// Dropping a leading zero byte keeps the value.
pub proof fn lemma_be_value_drop_leading_zero(bytes: Seq<u8>)
    requires
        bytes.len() >= 1,
        bytes[0] == 0,
    ensures
        be_value(bytes.drop_first()) == be_value(bytes),
    decreases bytes.len(),
{
    if bytes.len() == 1 {
        assert(bytes.drop_last().len() == 0);
        assert(bytes.drop_first().len() == 0);
    } else {
        let front = bytes.drop_last();
        lemma_be_value_drop_leading_zero(front);
        assert(bytes.drop_first().drop_last() =~= front.drop_first());
    }
}

} // verus!
