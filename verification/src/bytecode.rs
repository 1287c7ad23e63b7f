//! From hexadecimal bytecode text to rewritten hexadecimal bytecode text.
use crate::engine::{transform, transformed};
use crate::hex::{hex_text, lemma_hex_text_digits, lemma_hex_text_index, lemma_hex_text_len, push_hex};
use crate::laws::lemma_transformed_encoded_len;
use crate::layout::{
    encoded_len, encoding, laid_out, lemma_encoding_len, lemma_laid_out_is_well_formed,
    well_formed,
};
use crate::op::{operation_view, Op, OpView};
use crate::opcode::{assemble_opcode, opcode_byte};
use evm_disassembler::{disassemble_str, Operation};
use vstd::pervasive::unreached;
use vstd::prelude::*;
use vstd::string::StrSliceExecFns;

verus! {

/// Makes `eyre::Report`, the error of the disassembler, known to the verifier
/// as a type whose values it cannot look into.
#[verifier::external_type_specification]
#[verifier::external_body]
pub struct ExReport(eyre::Report);

/// Whether a character is a hexadecimal digit, in either case.
pub open spec fn is_hex_digit(c: char) -> bool {
    ||| '0' <= c <= '9'
    ||| 'a' <= c <= 'f'
    ||| 'A' <= c <= 'F'
}

/// The text without the `0x` prefixes at its front, however many there are.
pub open spec fn without_prefixes(text: Seq<char>) -> Seq<char>
    decreases text.len(),
{
    if text.len() >= 2 && text[0] == '0' && text[1] == 'x' {
        without_prefixes(text.skip(2))
    } else {
        text
    }
}

/// The texts that decode: behind any `0x` prefixes, an even number of
/// hexadecimal digits and nothing else.
pub open spec fn is_bytecode_text(text: Seq<char>) -> bool {
    let digits = without_prefixes(text);
    &&& digits.len() % 2 == 0
    &&& forall|i: int| 0 <= i < digits.len() ==> is_hex_digit(#[trigger] digits[i])
}

/// The texts that are rewritten: bytecode texts whose characters a 32-bit
/// offset can count.
pub open spec fn can_hop(text: Seq<char>) -> bool {
    text.len() <= u32::MAX && is_bytecode_text(text)
}

/// The operations that `evm_disassembler::disassemble_str` decodes from a text.
pub uninterp spec fn disassembly(text: Seq<char>) -> Seq<OpView>;

/// The decoded operations as the contracts see them.
pub open spec fn operation_views(operations: Seq<Operation>) -> Seq<OpView> {
    Seq::new(operations.len(), |i: int| operation_view(operations[i]))
}

/// The text that the rewriting of a decoded list yields: the hexadecimal
/// digits of the encoding of the transformed list.
pub open spec fn rewritten(ops: Seq<OpView>) -> Seq<char> {
    hex_text(encoding(transformed(ops)))
}

/// Calls `evm_disassembler::disassemble_str`, which strips every leading `0x`,
/// decodes the rest with `hex::decode` and walks the bytes from the first to
/// the last.
///
/// Believed of it, and not proved: it fails exactly when `hex::decode` fails,
/// that is on an odd number of characters or on a character that is no
/// hexadecimal digit; what it decodes depends on the text alone; and in what it
/// decodes every push of `n` bytes carries `n` immediate bytes, every other
/// operation carries none, the first offset is zero and each further offset
/// is the one before plus one plus the number of immediate bytes there. (A push
/// that the text cuts short ends the decoding, with a notice on standard
/// output, and is left out.) Every byte that it decodes comes from two
/// characters of the text, so the operations are encoded in no more bytes than
/// half the text's length. The offsets are 32-bit sums, which is why the
/// text's length is bounded.
#[verifier::external_body]
fn disassemble(text: &str) -> (decoded: Result<Vec<Operation>, eyre::Report>)
    requires
        text@.len() <= u32::MAX,
    ensures
        decoded is Ok <==> is_bytecode_text(text@),
        decoded matches Ok(operations) ==> operation_views(operations@) == disassembly(text@),
        decoded matches Ok(operations) ==> laid_out(operation_views(operations@)),
        decoded matches Ok(operations) ==> 2 * encoded_len(operation_views(operations@))
            <= text@.len(),
{
    disassemble_str(text)
}

/// The bytes that encode an instruction.
pub fn assemble_operation(op: Op) -> (assembled: Vec<u8>)
    ensures
        assembled@ == op@.encoding(),
{
    let mut assembled = vec![assemble_opcode(op.opcode)];
    let mut i: usize = 0;
    while i < op.input.len()
        invariant
            i <= op.input@.len(),
            assembled@ == seq![opcode_byte(op.opcode)] + op.input@.take(i as int),
        decreases op.input@.len() - i,
    {
        assembled.push(op.input[i]);
        i += 1;
    }
    assert(op.input@.take(i as int) =~= op.input@);
    assembled
}

/// The encoding of a list as lower-case hexadecimal text without separators.
pub fn assemble_hex(ops: Vec<Op>) -> (output: String)
    ensures
        output@ == hex_text(encoding(ops.deep_view())),
{
    let ghost items = ops@;
    let ghost all = ops.deep_view();
    let mut output = String::new();
    for op in it: ops
        invariant
            it.seq() == items,
            all.len() == items.len(),
            forall|i: int| 0 <= i < items.len() ==> all[i] == (#[trigger] items[i])@,
            output@ == hex_text(encoding(all.take(it.index() as int))),
    {
        let ghost done = encoding(all.take(it.index() as int));
        let assembled = assemble_operation(op);
        let ghost bytes = assembled@;
        for byte in inner: assembled
            invariant
                inner.seq() == bytes,
                output@ == hex_text(done + bytes.take(inner.index() as int)),
        {
            proof {
                let grown = done + bytes.take(inner.index() + 1);
                assert(grown.drop_last() =~= done + bytes.take(inner.index() as int));
            }
            push_hex(&mut output, byte);
        }
        proof {
            assert(all.take(it.index() + 1).drop_last() =~= all.take(it.index() as int));
            assert(bytes.take(bytes.len() as int) =~= bytes);
        }
    }
    assert(all.take(all.len() as int) =~= all);
    output
}

/// Copies decoded operations into a working list, one instruction for each.
pub fn working_list(operations: &Vec<Operation>) -> (ops: Vec<Op>)
    ensures
        ops.deep_view() == operation_views(operations@),
{
    let mut ops: Vec<Op> = Vec::new();
    let mut i: usize = 0;
    while i < operations.len()
        invariant
            i <= operations.len(),
            ops.deep_view() == operation_views(operations@).take(i as int),
        decreases operations.len() - i,
    {
        let ghost copied = ops.deep_view();
        let op = Op::new(&operations[i]);
        ops.push(op);
        i += 1;
        assert(ops.deep_view() =~= copied.push(operation_view(operations@[i - 1])));
    }
    assert(ops.deep_view() =~= operation_views(operations@));
    ops
}

/// Decodes hexadecimal bytecode text into a working list, laid out as the
/// disassembler recorded it. Gives nothing for a text that does not decode or
/// is longer than a 32-bit offset can count.
pub fn decode(bytecode_string: &str) -> (outcome: Option<Vec<Op>>)
    ensures
        outcome is Some <==> can_hop(bytecode_string@),
        outcome matches Some(ops) ==> ops.deep_view() == disassembly(bytecode_string@),
        outcome matches Some(ops) ==> laid_out(ops.deep_view()),
        outcome matches Some(ops) ==> 2 * encoded_len(ops.deep_view()) <= bytecode_string@.len(),
{
    if bytecode_string.unicode_len() > u32::MAX as usize {
        return None;
    }
    match disassemble(bytecode_string) {
        Ok(operations) => Some(working_list(&operations)),
        Err(_) => None,
    }
}

/// Transforms a working list and renders its encoding as hexadecimal text.
pub fn rewrite(ops: Vec<Op>) -> (output: String)
    requires
        well_formed(ops.deep_view()),
    ensures
        output@ == rewritten(ops.deep_view()),
{
    let mut ops = ops;
    transform(&mut ops);
    assemble_hex(ops)
}

/// The text of any bytes is a bytecode text: it has no prefix, an even number
/// of characters, and hexadecimal digits only.
pub proof fn lemma_hex_text_is_bytecode_text(bytes: Seq<u8>)
    ensures
        without_prefixes(hex_text(bytes)) == hex_text(bytes),
        is_bytecode_text(hex_text(bytes)),
{
    lemma_hex_text_len(bytes);
    lemma_hex_text_digits(bytes);
    if bytes.len() > 0 {
        lemma_hex_text_index(bytes, 0);
    }
}

/// Rewrites hexadecimal bytecode text: decodes it, narrows every two-byte push
/// with a zero high byte that stands directly before a jump, repairs the jump
/// targets, and encodes the result. Gives nothing for a text that is not
/// rewritten. What it gives can be rewritten in turn.
pub fn try_bunny_hop(bytecode_string: &str) -> (outcome: Option<String>)
    ensures
        outcome is Some <==> can_hop(bytecode_string@),
        outcome matches Some(output) ==> output@ == rewritten(disassembly(bytecode_string@)),
        outcome matches Some(output) ==> can_hop(output@),
{
    match decode(bytecode_string) {
        Some(ops) => {
            proof {
                let decoded = ops.deep_view();
                lemma_laid_out_is_well_formed(decoded);
                lemma_transformed_encoded_len(decoded);
                lemma_encoding_len(decoded);
                lemma_hex_text_len(encoding(decoded));
                lemma_hex_text_is_bytecode_text(encoding(transformed(decoded)));
            }
            Some(rewrite(ops))
        },
        None => None,
    }
}

/// Rewrites hexadecimal bytecode text that decodes. The output can be
/// rewritten in turn.
pub fn bunny_hop(bytecode_string: &str) -> (output: String)
    requires
        can_hop(bytecode_string@),
    ensures
        output@ == rewritten(disassembly(bytecode_string@)),
        can_hop(output@),
{
    match try_bunny_hop(bytecode_string) {
        Some(output) => output,
        None => unreached(),
    }
}

} // verus!
