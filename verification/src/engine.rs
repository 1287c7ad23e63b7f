//! The rewriting engine: finds a two-byte push that can be narrowed, narrows
//! it, lowers the offsets behind it, repairs the jump targets that moved, and
//! repeats until no such push is left.
use crate::immediate::lemma_be_bytes_len;
use crate::layout::{
    encoded_len, lags, lemma_start_offset_after_narrowing, lemma_start_offset_at_least_index,
    lemma_start_offset_end, on_time, well_formed,
};
use crate::op::{Op, OpView};
use crate::opcode::{immediate_width, lemma_immediate_widths};
use evm_disassembler::Opcode;
use vstd::prelude::*;

verus! {

/// Instruction `p` is a candidate: a two-byte push with a zero high byte,
/// directly before a jump.
pub open spec fn demotable_at(ops: Seq<OpView>, p: int) -> bool {
    &&& 0 <= p
    &&& p + 1 < ops.len()
    &&& ops[p].is_demotable()
    &&& ops[p + 1].is_jump()
}

/// The list holds a candidate.
pub open spec fn has_candidate(ops: Seq<OpView>) -> bool {
    exists|p: int| demotable_at(ops, p)
}

/// Instruction `p` is the candidate that a scan from the front meets first.
pub open spec fn is_first_candidate(ops: Seq<OpView>, p: int) -> bool {
    &&& demotable_at(ops, p)
    &&& forall|q: int| 0 <= q < p ==> !demotable_at(ops, q)
}

/// The index of the first candidate of a list that holds one.
pub open spec fn first_candidate(ops: Seq<OpView>) -> int {
    choose|p: int| is_first_candidate(ops, p)
}

/// `target` is the offset recorded for a `JUMPDEST` that lies two or more
/// instructions behind `p`: a destination that narrowing `p` displaces.
pub open spec fn displaced(ops: Seq<OpView>, p: int, target: int) -> bool {
    exists|k: int|
        p + 2 <= k < ops.len() && (#[trigger] ops[k]).opcode is JUMPDEST && ops[k].offset
            == target
}

/// Instruction `j` after `p` was narrowed and the offsets behind it were
/// lowered: `p` itself is narrowed, the jump that follows it is left as it was,
/// and everything behind that jump is recorded one byte earlier.
pub open spec fn moved_at(ops: Seq<OpView>, p: int, j: int) -> OpView {
    if j == p {
        ops[j].demoted()
    } else if j >= p + 2 {
        ops[j].shifted()
    } else {
        ops[j]
    }
}

/// Instruction `j` pushes a jump target that narrowing `p` displaces: it is a
/// one-byte or two-byte push directly before a jump, and the value it pushes
/// is the offset recorded for a displaced destination.
pub open spec fn needs_repair(ops: Seq<OpView>, p: int, j: int) -> bool {
    &&& j + 1 < ops.len()
    &&& ops[j + 1].is_jump()
    &&& moved_at(ops, p, j).is_short_push()
    &&& displaced(ops, p, moved_at(ops, p, j).value() as int)
}

/// Instruction `j` after one round on candidate `p`.
pub open spec fn round_at(ops: Seq<OpView>, p: int, j: int) -> OpView {
    if needs_repair(ops, p, j) {
        moved_at(ops, p, j).retargeted()
    } else {
        moved_at(ops, p, j)
    }
}

/// The list after one round on candidate `p`.
pub open spec fn round(ops: Seq<OpView>, p: int) -> Seq<OpView> {
    Seq::new(ops.len(), |j: int| round_at(ops, p, j))
}

/// The list after rounds on its first candidate, one after another, until it
/// holds no candidate.
pub open spec fn transformed(ops: Seq<OpView>) -> Seq<OpView>
    decreases encoded_len(ops),
    via transformed_terminates
{
    if has_candidate(ops) {
        transformed(round(ops, first_candidate(ops)))
    } else {
        ops
    }
}

#[via_fn]
proof fn transformed_terminates(ops: Seq<OpView>) {
    if has_candidate(ops) {
        lemma_first_candidate(ops);
        lemma_round_encoded_len(ops, first_candidate(ops));
    }
}

/// The number of rounds that `transformed` takes.
pub open spec fn rounds(ops: Seq<OpView>) -> nat
    decreases encoded_len(ops),
    via rounds_terminates
{
    if has_candidate(ops) {
        1 + rounds(round(ops, first_candidate(ops)))
    } else {
        0
    }
}

#[via_fn]
proof fn rounds_terminates(ops: Seq<OpView>) {
    if has_candidate(ops) {
        lemma_first_candidate(ops);
        lemma_round_encoded_len(ops, first_candidate(ops));
    }
}

/// A list that holds a candidate has a first one.
pub proof fn lemma_first_candidate(ops: Seq<OpView>)
    requires
        has_candidate(ops),
    ensures
        is_first_candidate(ops, first_candidate(ops)),
{
    let p = choose|p: int| demotable_at(ops, p);
    let q = scan_for_candidate(ops, 0, p);
    assert(is_first_candidate(ops, q));
}

proof fn scan_for_candidate(ops: Seq<OpView>, from: int, p: int) -> (q: int)
    requires
        0 <= from <= p,
        demotable_at(ops, p),
        forall|i: int| 0 <= i < from ==> !demotable_at(ops, i),
    ensures
        is_first_candidate(ops, q),
    decreases p - from,
{
    if demotable_at(ops, from) {
        from
    } else {
        scan_for_candidate(ops, from + 1, p)
    }
}

/// The first candidate is the only index that `is_first_candidate` holds of.
pub proof fn lemma_first_candidate_unique(ops: Seq<OpView>, p: int)
    requires
        is_first_candidate(ops, p),
    ensures
        has_candidate(ops),
        first_candidate(ops) == p,
{
    lemma_first_candidate(ops);
}

/// A round keeps the number of instructions and every mnemonic but that of the
/// narrowed push, and takes one byte from that push's immediate alone.
pub proof fn lemma_round_shape(ops: Seq<OpView>, p: int)
    requires
        demotable_at(ops, p),
    ensures
        round(ops, p).len() == ops.len(),
        round(ops, p)[p].opcode is PUSH1,
        round(ops, p)[p].input.len() + 1 == ops[p].input.len(),
        forall|j: int|
            0 <= j < ops.len() && j != p ==> (#[trigger] round(ops, p)[j]).opcode == ops[j].opcode,
        forall|j: int|
            0 <= j < ops.len() && j != p ==> (#[trigger] round(ops, p)[j]).input.len()
                == ops[j].input.len(),
{
    assert forall|j: int| 0 <= j < ops.len() implies (#[trigger] round(ops, p)[j]).input.len()
        == moved_at(ops, p, j).input.len() by {
        lemma_be_bytes_len(
            (moved_at(ops, p, j).value() - 1) as nat,
            moved_at(ops, p, j).input.len(),
        );
    }
}

/// A round shortens the encoding by exactly one byte.
pub proof fn lemma_round_encoded_len(ops: Seq<OpView>, p: int)
    requires
        demotable_at(ops, p),
    ensures
        encoded_len(round(ops, p)) + 1 == encoded_len(ops),
{
    lemma_round_shape(ops, p);
    lemma_start_offset_after_narrowing(ops, round(ops, p), p, ops.len() as int);
    lemma_start_offset_end(ops);
    lemma_start_offset_end(round(ops, p));
}

/// A round on a well-formed list leaves a well-formed list: the jump behind
/// the narrowed push now lags, and every other instruction is recorded as
/// before relative to the place where it begins.
pub proof fn lemma_round_well_formed(ops: Seq<OpView>, p: int)
    requires
        well_formed(ops),
        demotable_at(ops, p),
    ensures
        well_formed(round(ops, p)),
{
    let after = round(ops, p);
    lemma_round_shape(ops, p);
    assert forall|i: int| 0 <= i < after.len() implies (#[trigger] after[i]).input.len()
        == immediate_width(after[i].opcode) by {
        lemma_immediate_widths(ops[i].opcode);
        lemma_immediate_widths(after[i].opcode);
        assert(ops[i].input.len() == immediate_width(ops[i].opcode));
    }
    assert forall|i: int| 0 <= i < after.len() implies #[trigger] on_time(after, i) || lags(
        after,
        i,
    ) by {
        lemma_start_offset_after_narrowing(ops, after, p, i);
        assert(on_time(ops, i) || lags(ops, i));
        assert(after[i].offset == moved_at(ops, p, i).offset);
        if i >= 1 {
            assert(after[i - 1].opcode == ops[i - 1].opcode || i - 1 == p);
        }
        assert(after[i].is_jump() == ops[i].is_jump());
    }
}

/// Finds the candidate that a scan from the front meets first.
pub fn find_candidate(ops: &Vec<Op>) -> (found: Option<usize>)
    ensures
        match found {
            Some(p) => is_first_candidate(ops.deep_view(), p as int),
            None => !has_candidate(ops.deep_view()),
        },
{
    let mut index: usize = 1;
    while index < ops.len()
        invariant
            1 <= index,
            forall|q: int| 0 <= q < index - 1 ==> !demotable_at(ops.deep_view(), q),
        decreases ops.len() - index,
    {
        if ops[index].is_jump() {
            let prev_op = &ops[index - 1];
            let is_prev_bunny_hoppable = matches!(prev_op.opcode, Opcode::PUSH2)
                && prev_op.input.len() > 0 && prev_op.input[0] == 0;
            if is_prev_bunny_hoppable {
                return Some(index - 1);
            }
        }
        index += 1;
    }
    None
}

/// `target` is one of the offsets in `list`.
pub open spec fn lists_offset(list: Seq<u32>, target: int) -> bool {
    exists|x: int| 0 <= x < list.len() && (#[trigger] list[x]) as int == target
}

/// Whether `value` is one of the offsets in `list`.
fn holds_offset(list: &Vec<u32>, value: u32) -> (found: bool)
    ensures
        found == lists_offset(list@, value as int),
{
    let mut i: usize = 0;
    while i < list.len()
        invariant
            i <= list.len(),
            forall|x: int| 0 <= x < i ==> list@[x] != value,
        decreases list.len() - i,
    {
        if list[i] == value {
            return true;
        }
        i += 1;
    }
    false
}

/// One round on candidate `index`: narrows the push, lowers the offset of
/// every instruction two or more places behind it, and lowers by one the value
/// of every one-byte or two-byte push that stands directly before a jump and
/// pushes the offset that a displaced `JUMPDEST` had before it was lowered.
pub fn run_round(ops: &mut Vec<Op>, index: usize)
    requires
        well_formed(old(ops).deep_view()),
        demotable_at(old(ops).deep_view(), index as int),
    ensures
        final(ops).deep_view() == round(old(ops).deep_view(), index as int),
        well_formed(final(ops).deep_view()),
{
    let ghost before = ops.deep_view();
    let ghost p = index as int;
    proof {
        lemma_immediate_widths(before[p].opcode);
        lemma_round_well_formed(before, p);
        assert(ops.deep_view()[p] == before[p]);
    }
    ops[index].demote_push();
    assert(ops.deep_view() =~= before.update(p, before[p].demoted()));
    assert(index + 2 <= ops.len());

    let mut decremented_jumpdests: Vec<u32> = Vec::new();
    let mut i: usize = index + 2;
    while i < ops.len()
        invariant
            p == index,
            before.len() == ops.len(),
            index + 2 <= i <= ops.len(),
            well_formed(before),
            forall|j: int|
                0 <= j < i ==> (#[trigger] ops.deep_view()[j]) == moved_at(before, p, j),
            forall|j: int| i <= j < ops.len() ==> (#[trigger] ops.deep_view()[j]) == before[j],
            forall|target: int|
                lists_offset(decremented_jumpdests@, target) ==> displaced(before, p, target),
            forall|k: int|
                p + 2 <= k < i && (#[trigger] before[k]).opcode is JUMPDEST ==> lists_offset(
                    decremented_jumpdests@,
                    before[k].offset,
                ),
        decreases ops.len() - i,
    {
        let ghost current = ops.deep_view();
        proof {
            assert(current[i as int] == before[i as int]);
            assert(on_time(before, i as int) || lags(before, i as int));
            lemma_start_offset_at_least_index(before, i as int);
        }
        if matches!(ops[i].opcode, Opcode::JUMPDEST) {
            let ghost recorded = decremented_jumpdests@;
            decremented_jumpdests.push(ops[i].offset);
            proof {
                let added = recorded.len() as int;
                assert(decremented_jumpdests@[added] as int == before[i as int].offset);
                assert forall|target: int|
                    lists_offset(decremented_jumpdests@, target) implies displaced(
                    before,
                    p,
                    target,
                ) by {
                    let x = choose|x: int|
                        0 <= x < decremented_jumpdests.len() && (
                        #[trigger] decremented_jumpdests@[x]) as int == target;
                    if x < added {
                        assert(recorded[x] as int == target);
                        assert(lists_offset(recorded, target));
                    } else {
                        assert(before[i as int].opcode is JUMPDEST);
                    }
                }
                assert forall|k: int|
                    p + 2 <= k < i + 1 && (#[trigger] before[k]).opcode is JUMPDEST
                        implies lists_offset(decremented_jumpdests@, before[k].offset) by {
                    if k < i {
                        let x = choose|x: int|
                            0 <= x < recorded.len() && (#[trigger] recorded[x]) as int
                                == before[k].offset;
                        assert(decremented_jumpdests@[x] as int == before[k].offset);
                    }
                }
            }
        }
        ops[i].decrement_offset();
        assert(ops.deep_view() =~= current.update(i as int, current[i as int].shifted()));
        i += 1;
    }

    if decremented_jumpdests.len() > 0 {
        let mut j: usize = 0;
        while j + 1 < ops.len()
            invariant
                p == index,
                before.len() == ops.len(),
                j + 1 <= ops.len(),
                well_formed(before),
                demotable_at(before, p),
                forall|x: int|
                    0 <= x < j ==> (#[trigger] ops.deep_view()[x]) == round_at(before, p, x),
                forall|x: int|
                    j <= x < ops.len() ==> (#[trigger] ops.deep_view()[x]) == moved_at(
                        before,
                        p,
                        x,
                    ),
                forall|target: int|
                    lists_offset(decremented_jumpdests@, target) <==> displaced(before, p, target),
            decreases ops.len() - j,
        {
            let ghost current = ops.deep_view();
            proof {
                assert(current[j as int] == moved_at(before, p, j as int));
                assert(current[j + 1] == moved_at(before, p, j + 1));
                assert(current[j + 1].is_jump() == before[j + 1].is_jump());
            }
            if ops[j + 1].is_jump() {
                if matches!(ops[j].opcode, Opcode::PUSH1 | Opcode::PUSH2) {
                    proof {
                        lemma_round_shape(before, p);
                        lemma_immediate_widths(before[j as int].opcode);
                        lemma_immediate_widths(current[j as int].opcode);
                        assert(before[j as int].input.len() == immediate_width(
                            before[j as int].opcode,
                        ));
                    }
                    let value = ops[j].get_input_value();
                    if holds_offset(&decremented_jumpdests, value) {
                        proof {
                            let k = choose|k: int|
                                p + 2 <= k < before.len() && (#[trigger] before[k]).opcode is JUMPDEST
                                    && before[k].offset == value as int;
                            assert(on_time(before, k) || lags(before, k));
                            lemma_start_offset_at_least_index(before, k);
                        }
                        ops[j].decrement_input();
                        assert(ops.deep_view() =~= current.update(
                            j as int,
                            current[j as int].retargeted(),
                        ));
                    }
                }
            }
            j += 1;
        }
        proof {
            let last = ops.len() - 1;
            assert(ops.deep_view()[last] == moved_at(before, p, last));
        }
    } else {
        assert forall|x: int| 0 <= x < ops.len() implies !needs_repair(before, p, x) by {
            let target = moved_at(before, p, x).value() as int;
            if displaced(before, p, target) {
                let k = choose|k: int|
                    p + 2 <= k < before.len() && (#[trigger] before[k]).opcode is JUMPDEST
                        && before[k].offset == target;
                assert(lists_offset(decremented_jumpdests@, before[k].offset));
            }
        }
    }
    assert(ops.deep_view() =~= round(before, p));
}

/// Runs rounds on the first candidate until the list holds none.
pub fn transform(ops: &mut Vec<Op>)
    requires
        well_formed(old(ops).deep_view()),
    ensures
        final(ops).deep_view() == transformed(old(ops).deep_view()),
        well_formed(final(ops).deep_view()),
        !has_candidate(final(ops).deep_view()),
{
    loop
        invariant
            well_formed(ops.deep_view()),
            transformed(ops.deep_view()) == transformed(old(ops).deep_view()),
        ensures
            !has_candidate(ops.deep_view()),
        decreases encoded_len(ops.deep_view()),
    {
        let target_index = find_candidate(ops);
        if target_index.is_none() {
            break;
        }
        let index = target_index.unwrap();
        proof {
            lemma_first_candidate_unique(ops.deep_view(), index as int);
            lemma_round_encoded_len(ops.deep_view(), index as int);
        }
        run_round(ops, index);
    }
}

} // verus!
