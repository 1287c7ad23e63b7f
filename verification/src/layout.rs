//! Where the instructions of a list lie in the code stream that encodes it, and
//! which recorded offsets a list may carry.
use crate::op::{Op, OpView};
use crate::opcode::{immediate_len, immediate_width};
use evm_disassembler::Opcode;
use vstd::prelude::*;

verus! {

/// The number of bytes that encode a list: one for each mnemonic and one for
/// each immediate byte.
pub open spec fn encoded_len(ops: Seq<OpView>) -> nat
    decreases ops.len(),
{
    if ops.len() == 0 {
        0
    } else {
        encoded_len(ops.drop_last()) + 1 + ops.last().input.len()
    }
}

/// The bytes that encode a list: the encodings of its instructions in order.
pub open spec fn encoding(ops: Seq<OpView>) -> Seq<u8>
    decreases ops.len(),
{
    if ops.len() == 0 {
        Seq::empty()
    } else {
        encoding(ops.drop_last()) + ops.last().encoding()
    }
}

/// The position in the encoding at which instruction `i` begins: the number of
/// bytes that encode the instructions before it. This is the offset that
/// decoding the encoding from its first byte gives the instruction.
pub open spec fn start_offset(ops: Seq<OpView>, i: int) -> nat {
    encoded_len(ops.take(i))
}

/// Every immediate has the length that its mnemonic calls for.
pub open spec fn widths_fit(ops: Seq<OpView>) -> bool {
    forall|i: int|
        0 <= i < ops.len() ==> (#[trigger] ops[i]).input.len() == immediate_width(ops[i].opcode)
}

/// Instruction `i` is recorded where it begins.
pub open spec fn on_time(ops: Seq<OpView>, i: int) -> bool {
    ops[i].offset == start_offset(ops, i)
}

/// Instruction `i` is a jump behind a one-byte push and is recorded one byte
/// after the place where it begins. A jump is left so when the push before it
/// is narrowed: its offset is not lowered with those of the instructions behind it.
pub open spec fn lags(ops: Seq<OpView>, i: int) -> bool {
    &&& i >= 1
    &&& ops[i - 1].opcode is PUSH1
    &&& ops[i].is_jump()
    &&& ops[i].offset == start_offset(ops, i) + 1
}

/// The list as a decoder hands it out: the widths fit and every instruction is
/// recorded where it begins.
pub open spec fn laid_out(ops: Seq<OpView>) -> bool {
    &&& widths_fit(ops)
    &&& forall|i: int| 0 <= i < ops.len() ==> #[trigger] on_time(ops, i)
}

/// The lists that the engine works on: the widths fit, and every instruction
/// is recorded where it begins, but for jumps that lag.
pub open spec fn well_formed(ops: Seq<OpView>) -> bool {
    &&& widths_fit(ops)
    &&& forall|i: int| 0 <= i < ops.len() ==> #[trigger] on_time(ops, i) || lags(ops, i)
}

/// A list laid out by a decoder is one that the engine works on.
pub proof fn lemma_laid_out_is_well_formed(ops: Seq<OpView>)
    requires
        laid_out(ops),
    ensures
        well_formed(ops),
{
    assert forall|i: int| 0 <= i < ops.len() implies #[trigger] on_time(ops, i) || lags(ops, i) by {
        assert(on_time(ops, i));
    }
}

/// The encoding has as many bytes as `encoded_len` counts.
pub proof fn lemma_encoding_len(ops: Seq<OpView>)
    ensures
        encoding(ops).len() == encoded_len(ops),
    decreases ops.len(),
{
    if ops.len() > 0 {
        lemma_encoding_len(ops.drop_last());
    }
}

/// An instruction begins where the one before it ends.
pub proof fn lemma_start_offset_next(ops: Seq<OpView>, i: int)
    requires
        0 <= i < ops.len(),
    ensures
        start_offset(ops, i + 1) == start_offset(ops, i) + 1 + ops[i].input.len(),
{
    assert(ops.take(i + 1).drop_last() =~= ops.take(i));
}

/// The first instruction begins at offset zero.
pub proof fn lemma_start_offset_first(ops: Seq<OpView>)
    ensures
        start_offset(ops, 0) == 0,
{
    assert(ops.take(0).len() == 0);
}

/// Every instruction takes at least one byte, so instruction `i` begins at
/// byte `i` or later.
pub proof fn lemma_start_offset_at_least_index(ops: Seq<OpView>, i: int)
    requires
        0 <= i <= ops.len(),
    ensures
        start_offset(ops, i) >= i,
    decreases i,
{
    if i > 0 {
        lemma_start_offset_at_least_index(ops, i - 1);
        lemma_start_offset_next(ops, i - 1);
    } else {
        lemma_start_offset_first(ops);
    }
}

/// Later instructions begin later.
pub proof fn lemma_start_offset_increases(ops: Seq<OpView>, i: int, j: int)
    requires
        0 <= i < j <= ops.len(),
    ensures
        start_offset(ops, i) < start_offset(ops, j),
    decreases j,
{
    lemma_start_offset_next(ops, j - 1);
    if i < j - 1 {
        lemma_start_offset_increases(ops, i, j - 1);
    }
}

/// When one immediate of a list loses a byte and all others keep their
/// lengths, the instructions up to that one begin where they did and the
/// instructions behind it begin one byte earlier.
pub proof fn lemma_start_offset_after_narrowing(
    before: Seq<OpView>,
    after: Seq<OpView>,
    p: int,
    i: int,
)
    requires
        before.len() == after.len(),
        0 <= p < before.len(),
        0 <= i <= before.len(),
        after[p].input.len() + 1 == before[p].input.len(),
        forall|j: int|
            0 <= j < before.len() && j != p ==> (#[trigger] after[j]).input.len()
                == before[j].input.len(),
    ensures
        start_offset(after, i) == if i <= p {
            start_offset(before, i)
        } else {
            (start_offset(before, i) - 1) as nat
        },
        i > p ==> start_offset(before, i) >= 1,
    decreases i,
{
    if i > 0 {
        lemma_start_offset_after_narrowing(before, after, p, i - 1);
        lemma_start_offset_next(before, i - 1);
        lemma_start_offset_next(after, i - 1);
        assert(after[i - 1].input.len() == if i - 1 == p {
            before[i - 1].input.len() - 1
        } else {
            before[i - 1].input.len() as int
        });
    } else {
        lemma_start_offset_first(before);
        lemma_start_offset_first(after);
    }
}

/// Whether a list is one that the engine works on.
pub fn is_well_formed(ops: &Vec<Op>) -> (ok: bool)
    ensures
        ok == well_formed(ops.deep_view()),
{
    let ghost list = ops.deep_view();
    let mut start: u64 = 0;
    let mut behind_narrow_push = false;
    let mut i: usize = 0;
    proof {
        lemma_start_offset_first(list);
    }
    while i < ops.len()
        invariant
            i <= ops.len(),
            list == ops.deep_view(),
            start == start_offset(list, i as int),
            start <= u32::MAX + 33,
            behind_narrow_push == (i >= 1 && list[i - 1].opcode is PUSH1),
            forall|j: int|
                0 <= j < i ==> (#[trigger] list[j]).input.len() == immediate_width(list[j].opcode),
            forall|j: int| 0 <= j < i ==> #[trigger] on_time(list, j) || lags(list, j),
        decreases ops.len() - i,
    {
        let op = &ops[i];
        assert(list[i as int] == op@);
        let width = immediate_len(op.opcode);
        if op.input.len() != width {
            return false;
        }
        let recorded = op.offset as u64;
        let placed = recorded == start || (behind_narrow_push && op.is_jump() && recorded
            == start + 1);
        if !placed {
            assert(!(on_time(list, i as int) || lags(list, i as int)));
            return false;
        }
        proof {
            lemma_start_offset_next(list, i as int);
        }
        start = start + 1 + width as u64;
        behind_narrow_push = matches!(op.opcode, Opcode::PUSH1);
        i += 1;
    }
    true
}

/// The whole list is encoded in the bytes before its end.
pub proof fn lemma_start_offset_end(ops: Seq<OpView>)
    ensures
        start_offset(ops, ops.len() as int) == encoded_len(ops),
{
    assert(ops.take(ops.len() as int) =~= ops);
}

} // verus!
