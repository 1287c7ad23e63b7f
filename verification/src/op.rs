//! One decoded instruction: its mnemonic, its immediate bytes and the offset
//! recorded for it.
use crate::hex::{hex_text, push_hex};
use crate::immediate::{be_bytes, be_value, lemma_be_limit_values, lemma_be_value_bound};
use crate::opcode::{assemble_opcode, opcode_byte, opcode_is_jump, opcode_is_short_push};
use evm_disassembler::{Opcode, Operation};
use vstd::prelude::*;

verus! {

/// Makes the three public fields of `evm_disassembler::Operation` known to the
/// verifier, which reads them from the crate itself.
#[verifier::external_type_specification]
pub struct ExOperation(evm_disassembler::Operation);

/// An instruction of the working list.
pub struct Op {
    pub opcode: Opcode,
    pub input: Vec<u8>,
    pub offset: u32,
}

/// What an instruction is to the contracts: the mnemonic, the immediate bytes
/// as a sequence, and the recorded offset as an integer.
pub ghost struct OpView {
    pub opcode: Opcode,
    pub input: Seq<u8>,
    pub offset: int,
}

impl OpView {
    /// The immediate read as an unsigned integer.
    pub open spec fn value(self) -> nat {
        be_value(self.input)
    }

    /// Whether the instruction is `JUMP` or `JUMPI`.
    pub open spec fn is_jump(self) -> bool {
        opcode_is_jump(self.opcode)
    }

    /// Whether the instruction is a one-byte or two-byte push.
    pub open spec fn is_short_push(self) -> bool {
        opcode_is_short_push(self.opcode)
    }

    /// Whether the instruction is a two-byte push whose high byte is zero, so that
    /// the one-byte push of its low byte pushes the same value.
    pub open spec fn is_demotable(self) -> bool {
        &&& self.opcode is PUSH2
        &&& self.input.len() >= 1
        &&& self.input[0] == 0
    }

    /// The bytes that encode the instruction: the mnemonic's byte, then the
    /// immediate.
    pub open spec fn encoding(self) -> Seq<u8> {
        seq![opcode_byte(self.opcode)] + self.input
    }

    /// The one-byte push without the leading byte of the immediate.
    pub open spec fn demoted(self) -> OpView {
        OpView { opcode: Opcode::PUSH1, input: self.input.drop_first(), offset: self.offset }
    }

    /// The same instruction recorded one byte earlier.
    pub open spec fn shifted(self) -> OpView {
        OpView { offset: self.offset - 1, ..self }
    }

    /// The same instruction with its immediate value lowered by one, in the
    /// same number of bytes.
    pub open spec fn retargeted(self) -> OpView {
        OpView { input: be_bytes((self.value() - 1) as nat, self.input.len()), ..self }
    }
}

impl View for Op {
    type V = OpView;

    open spec fn view(&self) -> OpView {
        OpView { opcode: self.opcode, input: self.input@, offset: self.offset as int }
    }
}

impl DeepView for Op {
    type V = OpView;

    open spec fn deep_view(&self) -> OpView {
        self@
    }
}

/// What a decoded operation of the disassembler is to the contracts.
pub open spec fn operation_view(operation: Operation) -> OpView {
    OpView { opcode: operation.opcode, input: operation.input@, offset: operation.offset as int }
}

impl Op {
    /// Copies the mnemonic, the offset and the immediate of a decoded operation.
    pub fn new(operation: &Operation) -> (op: Op)
        ensures
            op@ == operation_view(*operation),
    {
        Op {
            opcode: operation.opcode,
            offset: operation.offset,
            input: operation.input.clone(),
        }
    }

    /// Records the instruction one byte earlier.
    pub fn decrement_offset(&mut self)
        requires
            old(self).offset > 0,
        ensures
            final(self)@ == old(self)@.shifted(),
    {
        self.offset -= 1;
    }

    /// Lowers the immediate value by one and writes it back in the same
    /// number of bytes.
    pub fn decrement_input(&mut self)
        requires
            old(self).input@.len() <= 4,
            old(self)@.value() >= 1,
        ensures
            final(self)@ == old(self)@.retargeted(),
    {
        let width = self.input.len();
        let ghost target = (self@.value() - 1) as nat;
        let mut rest: u32 = self.get_input_value() - 1;
        let mut i: usize = width;
        while i > 0
            invariant
                i <= width <= 4,
                self.input@.len() == width,
                self.opcode == old(self).opcode,
                self.offset == old(self).offset,
                be_bytes(target, width as nat) == be_bytes(rest as nat, i as nat)
                    + self.input@.subrange(i as int, width as int),
            decreases i,
        {
            let ghost before = self.input@;
            i -= 1;
            self.input.set(i, (rest % 256) as u8);
            assert(be_bytes(rest as nat, (i + 1) as nat) + before.subrange(i + 1, width as int)
                =~= be_bytes((rest / 256) as nat, i as nat) + self.input@.subrange(
                i as int,
                width as int,
            ));
            rest = rest / 256;
        }
        assert(self.input@ =~= be_bytes(target, width as nat));
    }

    /// Whether the instruction is `JUMP` or `JUMPI`.
    pub fn is_jump(&self) -> (jump: bool)
        ensures
            jump == self@.is_jump(),
    {
        matches!(self.opcode, Opcode::JUMP | Opcode::JUMPI)
    }

    /// The encoding of the instruction as lower-case hexadecimal text.
    pub fn as_string(&self) -> (text: String)
        ensures
            text@ == hex_text(self@.encoding()),
    {
        let mut string = String::new();
        push_hex(&mut string, assemble_opcode(self.opcode));
        let ghost head = seq![opcode_byte(self.opcode)];
        assert(hex_text(head) =~= string@) by {
            assert(head.drop_last() =~= Seq::<u8>::empty());
            assert(hex_text(head.drop_last()) =~= Seq::<char>::empty());
        }
        let mut i: usize = 0;
        while i < self.input.len()
            invariant
                i <= self.input@.len(),
                head == seq![opcode_byte(self.opcode)],
                string@ == hex_text(head + self.input@.take(i as int)),
            decreases self.input@.len() - i,
        {
            let ghost done = head + self.input@.take(i as int);
            push_hex(&mut string, self.input[i]);
            i += 1;
            assert((head + self.input@.take(i as int)).drop_last() =~= done);
        }
        assert(self.input@.take(i as int) =~= self.input@);
        string
    }

    /// The bytes that encode the instruction.
    pub fn assemble(&self) -> (assembled: Vec<u8>)
        ensures
            assembled@ == self@.encoding(),
    {
        let mut assembled = vec![assemble_opcode(self.opcode)];
        let mut i: usize = 0;
        while i < self.input.len()
            invariant
                i <= self.input@.len(),
                assembled@ == seq![opcode_byte(self.opcode)] + self.input@.take(i as int),
            decreases self.input@.len() - i,
        {
            assembled.push(self.input[i]);
            i += 1;
        }
        assert(self.input@.take(i as int) =~= self.input@);
        assembled
    }

    /// Narrows a two-byte push with a zero high byte to the one-byte push of
    /// its low byte.
    pub fn demote_push(&mut self)
        requires
            old(self)@.is_demotable(),
        ensures
            final(self)@ == old(self)@.demoted(),
    {
        self.opcode = Opcode::PUSH1;
        self.input.remove(0);
        assert(self.input@ =~= old(self).input@.drop_first());
    }

    /// The immediate read as an unsigned integer, most significant byte first.
    pub fn get_input_value(&self) -> (value: u32)
        requires
            self.input@.len() <= 4,
        ensures
            value == self@.value(),
    {
        let mut value: u32 = 0;
        let mut i: usize = 0;
        while i < self.input.len()
            invariant
                i <= self.input@.len() <= 4,
                value == be_value(self.input@.take(i as int)),
            decreases self.input@.len() - i,
        {
            proof {
                lemma_be_value_bound(self.input@.take(i as int));
                lemma_be_limit_values();
                assert(self.input@.take(i + 1).drop_last() =~= self.input@.take(i as int));
            }
            value = value * 256 + self.input[i] as u32;
            i += 1;
        }
        assert(self.input@.take(i as int) =~= self.input@);
        value
    }
}

} // verus!
