//! What holds of the transform as a whole.
use crate::bytecode::rewritten;
use crate::engine::{
    demotable_at, first_candidate, has_candidate, lemma_first_candidate, lemma_round_encoded_len,
    lemma_round_shape, lemma_round_well_formed, moved_at, needs_repair, round, rounds,
    transformed,
};
use crate::hex::{hex_text, lemma_hex_text_concat, lemma_hex_text_len};
use crate::immediate::{
    lemma_be_limit_values, lemma_be_value_bound, lemma_be_value_drop_leading_zero,
    lemma_be_value_of_bytes,
};
use crate::layout::{
    encoded_len, encoding, lags, laid_out, lemma_encoding_len, lemma_laid_out_is_well_formed,
    lemma_start_offset_after_narrowing, lemma_start_offset_at_least_index,
    lemma_start_offset_increases, on_time, start_offset, well_formed,
};
use crate::op::OpView;
use crate::opcode::{immediate_width, lemma_immediate_widths};
use vstd::prelude::*;

verus! {

/// The number of two-byte pushes in a list.
pub open spec fn wide_pushes(ops: Seq<OpView>) -> nat
    decreases ops.len(),
{
    if ops.len() == 0 {
        0
    } else {
        wide_pushes(ops.drop_last()) + if ops.last().opcode is PUSH2 {
            1nat
        } else {
            0nat
        }
    }
}

/// Instruction `i` was a two-byte push in `before` and is a one-byte push in
/// `after`.
pub open spec fn narrowed_at(before: Seq<OpView>, after: Seq<OpView>, i: int) -> bool {
    before[i].opcode is PUSH2 && after[i].opcode is PUSH1
}

/// Instruction `j` pushes, directly before a jump, the offset recorded for the
/// `JUMPDEST` that is instruction `k`.
pub open spec fn targets(ops: Seq<OpView>, j: int, k: int) -> bool {
    &&& 0 <= j
    &&& j + 1 < ops.len()
    &&& ops[j].is_short_push()
    &&& ops[j + 1].is_jump()
    &&& 0 <= k < ops.len()
    &&& ops[k].opcode is JUMPDEST
    &&& ops[j].value() == ops[k].offset
}

/// The transform ends on a list without a candidate.
pub proof fn lemma_transformed_settles(ops: Seq<OpView>)
    ensures
        !has_candidate(transformed(ops)),
        transformed(ops).len() == ops.len(),
    decreases encoded_len(ops),
{
    if has_candidate(ops) {
        lemma_first_candidate(ops);
        lemma_round_encoded_len(ops, first_candidate(ops));
        lemma_transformed_settles(round(ops, first_candidate(ops)));
    }
}

/// Idempotence: the transform of a transformed list is that list, and it is
/// rendered as the same text.
pub proof fn lemma_transformed_idempotent(ops: Seq<OpView>)
    ensures
        transformed(transformed(ops)) == transformed(ops),
        rewritten(transformed(ops)) == rewritten(ops),
{
    lemma_transformed_settles(ops);
}

/// No-op: a list without a candidate is left as it is, in no round, and its
/// text is that of its own encoding.
pub proof fn lemma_transformed_without_candidate(ops: Seq<OpView>)
    requires
        !has_candidate(ops),
    ensures
        transformed(ops) == ops,
        rounds(ops) == 0,
        rewritten(ops) == hex_text(encoding(ops)),
{
}

/// The transform keeps a well-formed list well-formed.
pub proof fn lemma_transformed_well_formed(ops: Seq<OpView>)
    requires
        well_formed(ops),
    ensures
        well_formed(transformed(ops)),
    decreases encoded_len(ops),
{
    if has_candidate(ops) {
        let p = first_candidate(ops);
        lemma_first_candidate(ops);
        lemma_round_encoded_len(ops, p);
        lemma_round_well_formed(ops, p);
        lemma_transformed_well_formed(round(ops, p));
    }
}

proof fn lemma_wide_pushes_after_narrowing(
    before: Seq<OpView>,
    after: Seq<OpView>,
    p: int,
    i: int,
)
    requires
        before.len() == after.len(),
        0 <= p < before.len(),
        0 <= i <= before.len(),
        narrowed_at(before, after, p),
        forall|j: int|
            0 <= j < before.len() && j != p ==> (#[trigger] after[j]).opcode == before[j].opcode,
    ensures
        wide_pushes(after.take(i)) + (if i > p {
            1nat
        } else {
            0nat
        }) == wide_pushes(before.take(i)),
    decreases i,
{
    if i > 0 {
        lemma_wide_pushes_after_narrowing(before, after, p, i - 1);
        assert(before.take(i).drop_last() =~= before.take(i - 1));
        assert(after.take(i).drop_last() =~= after.take(i - 1));
        assert(after[i - 1].opcode == before[i - 1].opcode || i - 1 == p);
    }
}

/// A round turns exactly one two-byte push into a one-byte push.
pub proof fn lemma_round_wide_pushes(ops: Seq<OpView>, p: int)
    requires
        demotable_at(ops, p),
    ensures
        wide_pushes(round(ops, p)) + 1 == wide_pushes(ops),
{
    let after = round(ops, p);
    lemma_round_shape(ops, p);
    lemma_wide_pushes_after_narrowing(ops, after, p, ops.len() as int);
    assert(ops.take(ops.len() as int) =~= ops);
    assert(after.take(ops.len() as int) =~= after);
}

/// Length: the transform never lengthens the encoding. It shortens it by one
/// byte for each round, which is one byte for each two-byte push that it
/// narrows, and the text loses two digits for each of those bytes.
pub proof fn lemma_transformed_encoded_len(ops: Seq<OpView>)
    ensures
        encoded_len(transformed(ops)) <= encoded_len(ops),
        encoded_len(transformed(ops)) + rounds(ops) == encoded_len(ops),
        wide_pushes(transformed(ops)) + rounds(ops) == wide_pushes(ops),
        encoding(transformed(ops)).len() + rounds(ops) == encoding(ops).len(),
        rewritten(ops).len() + 2 * rounds(ops) == hex_text(encoding(ops)).len(),
    decreases encoded_len(ops),
{
    if has_candidate(ops) {
        let p = first_candidate(ops);
        lemma_first_candidate(ops);
        lemma_round_encoded_len(ops, p);
        lemma_round_wide_pushes(ops, p);
        lemma_transformed_encoded_len(round(ops, p));
    }
    lemma_hex_text_len(encoding(transformed(ops)));
    lemma_hex_text_len(encoding(ops));
    lemma_encoding_len(transformed(ops));
    lemma_encoding_len(ops);
}

/// The text of a list is the text of the list without its last instruction
/// followed by the text of that instruction.
pub proof fn lemma_text_of_list(ops: Seq<OpView>)
    requires
        ops.len() > 0,
    ensures
        hex_text(encoding(ops)) == hex_text(encoding(ops.drop_last())) + hex_text(
            ops.last().encoding(),
        ),
{
    lemma_hex_text_concat(encoding(ops.drop_last()), ops.last().encoding());
}

/// How a list in the course of the transform stands to the laid-out list that
/// the transform began with: the mnemonics are those of the origin but for the
/// narrowed pushes, and every instruction is recorded where it begins, but the
/// instruction behind a narrowed push, which is recorded one byte later.
pub open spec fn in_step(origin: Seq<OpView>, current: Seq<OpView>) -> bool {
    &&& current.len() == origin.len()
    &&& forall|i: int|
        0 <= i < current.len() ==> (#[trigger] current[i]).opcode == origin[i].opcode
            || narrowed_at(origin, current, i)
    &&& forall|i: int|
        0 <= i < current.len() ==> (#[trigger] current[i]).offset == start_offset(current, i) + (
        if i >= 1 && narrowed_at(origin, current, i - 1) {
            1int
        } else {
            0int
        })
}

proof fn lemma_round_in_step(origin: Seq<OpView>, current: Seq<OpView>, p: int)
    requires
        in_step(origin, current),
        demotable_at(current, p),
    ensures
        in_step(origin, round(current, p)),
{
    let after = round(current, p);
    lemma_round_shape(current, p);
    assert(current[p].opcode == origin[p].opcode || narrowed_at(origin, current, p));
    assert forall|i: int| 0 <= i < after.len() implies (#[trigger] after[i]).opcode
        == origin[i].opcode || narrowed_at(origin, after, i) by {
        assert(current[i].opcode == origin[i].opcode || narrowed_at(origin, current, i));
    }
    assert forall|i: int| 0 <= i < after.len() implies (#[trigger] after[i]).offset
        == start_offset(after, i) + (if i >= 1 && narrowed_at(origin, after, i - 1) {
        1int
    } else {
        0int
    }) by {
        lemma_start_offset_after_narrowing(current, after, p, i);
        assert(after[i].offset == moved_at(current, p, i).offset);
        assert(current[i].offset == start_offset(current, i) + (if i >= 1 && narrowed_at(
            origin,
            current,
            i - 1,
        ) {
            1int
        } else {
            0int
        }));
        if i >= 1 {
            assert(after[i - 1].opcode == current[i - 1].opcode || i - 1 == p);
        }
    }
}

proof fn lemma_transformed_in_step(origin: Seq<OpView>, current: Seq<OpView>)
    requires
        in_step(origin, current),
    ensures
        in_step(origin, transformed(current)),
    decreases encoded_len(current),
{
    if has_candidate(current) {
        let p = first_candidate(current);
        lemma_first_candidate(current);
        lemma_round_encoded_len(current, p);
        lemma_round_in_step(origin, current, p);
        lemma_transformed_in_step(origin, round(current, p));
    }
}

/// Offsets: after the transform of a laid-out list, every instruction is
/// recorded at the offset at which it begins in the new encoding, with one
/// exception: the instruction behind a push that was narrowed (a jump) is
/// recorded one byte after the place where it begins.
pub proof fn lemma_transformed_offsets(ops: Seq<OpView>)
    requires
        laid_out(ops),
    ensures
        in_step(ops, transformed(ops)),
        forall|i: int|
            0 <= i < ops.len() && !(i >= 1 && narrowed_at(ops, transformed(ops), i - 1))
                ==> #[trigger] on_time(transformed(ops), i),
        forall|i: int|
            1 <= i < ops.len() && narrowed_at(ops, transformed(ops), i - 1) ==> #[trigger] lags(
                transformed(ops),
                i,
            ),
{
    assert forall|i: int| 0 <= i < ops.len() implies (#[trigger] ops[i]).offset == start_offset(
        ops,
        i,
    ) by {
        assert(on_time(ops, i));
    }
    assert(in_step(ops, ops));
    lemma_transformed_in_step(ops, ops);
    lemma_transformed_settles(ops);
    let after = transformed(ops);
    lemma_laid_out_is_well_formed(ops);
    lemma_transformed_well_formed(ops);
    assert forall|i: int| 1 <= i < ops.len() && narrowed_at(ops, after, i - 1) implies #[trigger] lags(
        after,
        i,
    ) by {
        assert(on_time(after, i) || lags(after, i));
        assert(after[i].offset == start_offset(after, i) + 1);
    }
    assert forall|i: int|
        0 <= i < ops.len() && !(i >= 1 && narrowed_at(ops, after, i - 1)) implies #[trigger] on_time(
        after,
        i,
    ) by {
        assert(after[i].offset == start_offset(after, i));
    }
}

/// A round keeps every jump target that it can see on its destination: a push
/// directly before a jump that pushed the offset recorded for a `JUMPDEST`
/// pushes the offset recorded for that `JUMPDEST` after the round.
pub proof fn lemma_round_keeps_targets(ops: Seq<OpView>, p: int, j: int, k: int)
    requires
        well_formed(ops),
        demotable_at(ops, p),
        targets(ops, j, k),
    ensures
        targets(round(ops, p), j, k),
{
    let after = round(ops, p);
    let moved = moved_at(ops, p, j);
    lemma_round_shape(ops, p);
    lemma_immediate_widths(ops[j].opcode);
    lemma_immediate_widths(ops[k].opcode);
    lemma_immediate_widths(ops[p].opcode);
    assert(ops[j].input.len() == immediate_width(ops[j].opcode));
    assert(ops[p].input.len() == immediate_width(ops[p].opcode));
    assert(moved.value() == ops[j].value()) by {
        if j == p {
            lemma_be_value_drop_leading_zero(ops[j].input);
        }
    }
    assert(on_time(ops, k) || lags(ops, k));
    assert(k != p && j + 1 != p);
    assert(after[k].offset == moved_at(ops, p, k).offset);
    if k >= p + 2 {
        lemma_start_offset_at_least_index(ops, k);
        assert(needs_repair(ops, p, j));
        lemma_be_value_bound(moved.input);
        lemma_be_limit_values();
        lemma_be_value_of_bytes((moved.value() - 1) as nat, moved.input.len());
    } else {
        if needs_repair(ops, p, j) {
            let other = choose|other: int|
                p + 2 <= other < ops.len() && (#[trigger] ops[other]).opcode is JUMPDEST
                    && ops[other].offset == moved.value() as int;
            assert(on_time(ops, other) || lags(ops, other));
            lemma_start_offset_increases(ops, k, other);
        }
    }
}

/// Jump targets: after the transform of a well-formed list, a push directly
/// before a jump that pushed the offset recorded for a `JUMPDEST` pushes the
/// offset at which that `JUMPDEST` begins in the new encoding.
pub proof fn lemma_transformed_keeps_targets(ops: Seq<OpView>, j: int, k: int)
    requires
        well_formed(ops),
        targets(ops, j, k),
    ensures
        targets(transformed(ops), j, k),
        transformed(ops)[j].value() == start_offset(transformed(ops), k),
    decreases encoded_len(ops),
{
    if has_candidate(ops) {
        let p = first_candidate(ops);
        lemma_first_candidate(ops);
        lemma_round_encoded_len(ops, p);
        lemma_round_well_formed(ops, p);
        lemma_round_keeps_targets(ops, p, j, k);
        lemma_transformed_keeps_targets(round(ops, p), j, k);
    } else {
        assert(on_time(ops, k) || lags(ops, k));
    }
}

} // verus!
