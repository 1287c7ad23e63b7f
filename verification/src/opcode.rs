//! Mnemonics and their one-byte encodings.
//!
//! The mnemonic type is `evm_disassembler::Opcode`; this module fixes the byte
//! that stands for each mnemonic in a code stream and the classes of mnemonic
//! that the rewriting engine tells apart.
use evm_disassembler::Opcode;
use vstd::prelude::*;

verus! {

/// Makes the variants of `evm_disassembler::Opcode` known to the verifier. The
/// enum has unit variants only, and the verifier reads them from the crate itself.
#[verifier::external_type_specification]
pub struct ExOpcode(evm_disassembler::Opcode);

/// The byte that encodes a mnemonic. Every byte without a mnemonic of its own
/// decodes to `INVALID`, which is encoded as the designated invalid instruction.
pub open spec fn opcode_byte(op: Opcode) -> u8 {
    match op {
        Opcode::STOP => 0x00,
        Opcode::ADD => 0x01,
        Opcode::MUL => 0x02,
        Opcode::SUB => 0x03,
        Opcode::DIV => 0x04,
        Opcode::SDIV => 0x05,
        Opcode::MOD => 0x06,
        Opcode::SMOD => 0x07,
        Opcode::ADDMOD => 0x08,
        Opcode::MULMOD => 0x09,
        Opcode::EXP => 0x0a,
        Opcode::SIGNEXTEND => 0x0b,
        Opcode::LT => 0x10,
        Opcode::GT => 0x11,
        Opcode::SLT => 0x12,
        Opcode::SGT => 0x13,
        Opcode::EQ => 0x14,
        Opcode::ISZERO => 0x15,
        Opcode::AND => 0x16,
        Opcode::OR => 0x17,
        Opcode::XOR => 0x18,
        Opcode::NOT => 0x19,
        Opcode::BYTE => 0x1a,
        Opcode::SHL => 0x1b,
        Opcode::SHR => 0x1c,
        Opcode::SAR => 0x1d,
        Opcode::SHA3 => 0x20,
        Opcode::ADDRESS => 0x30,
        Opcode::BALANCE => 0x31,
        Opcode::ORIGIN => 0x32,
        Opcode::CALLER => 0x33,
        Opcode::CALLVALUE => 0x34,
        Opcode::CALLDATALOAD => 0x35,
        Opcode::CALLDATASIZE => 0x36,
        Opcode::CALLDATACOPY => 0x37,
        Opcode::CODESIZE => 0x38,
        Opcode::CODECOPY => 0x39,
        Opcode::GASPRICE => 0x3a,
        Opcode::EXTCODESIZE => 0x3b,
        Opcode::EXTCODECOPY => 0x3c,
        Opcode::RETURNDATASIZE => 0x3d,
        Opcode::RETURNDATACOPY => 0x3e,
        Opcode::EXTCODEHASH => 0x3f,
        Opcode::BLOCKHASH => 0x40,
        Opcode::COINBASE => 0x41,
        Opcode::TIMESTAMP => 0x42,
        Opcode::NUMBER => 0x43,
        Opcode::DIFFICULTY => 0x44,
        Opcode::GASLIMIT => 0x45,
        Opcode::CHAINID => 0x46,
        Opcode::SELFBALANCE => 0x47,
        Opcode::BASEFEE => 0x48,
        Opcode::BLOBHASH => 0x49,
        Opcode::BLOBBASEFEE => 0x4a,
        Opcode::POP => 0x50,
        Opcode::MLOAD => 0x51,
        Opcode::MSTORE => 0x52,
        Opcode::MSTORE8 => 0x53,
        Opcode::SLOAD => 0x54,
        Opcode::SSTORE => 0x55,
        Opcode::JUMP => 0x56,
        Opcode::JUMPI => 0x57,
        Opcode::PC => 0x58,
        Opcode::MSIZE => 0x59,
        Opcode::GAS => 0x5a,
        Opcode::JUMPDEST => 0x5b,
        Opcode::TLOAD => 0x5c,
        Opcode::TSTORE => 0x5d,
        Opcode::MCOPY => 0x5e,
        Opcode::PUSH0 => 0x5f,
        Opcode::PUSH1 => 0x60,
        Opcode::PUSH2 => 0x61,
        Opcode::PUSH3 => 0x62,
        Opcode::PUSH4 => 0x63,
        Opcode::PUSH5 => 0x64,
        Opcode::PUSH6 => 0x65,
        Opcode::PUSH7 => 0x66,
        Opcode::PUSH8 => 0x67,
        Opcode::PUSH9 => 0x68,
        Opcode::PUSH10 => 0x69,
        Opcode::PUSH11 => 0x6a,
        Opcode::PUSH12 => 0x6b,
        Opcode::PUSH13 => 0x6c,
        Opcode::PUSH14 => 0x6d,
        Opcode::PUSH15 => 0x6e,
        Opcode::PUSH16 => 0x6f,
        Opcode::PUSH17 => 0x70,
        Opcode::PUSH18 => 0x71,
        Opcode::PUSH19 => 0x72,
        Opcode::PUSH20 => 0x73,
        Opcode::PUSH21 => 0x74,
        Opcode::PUSH22 => 0x75,
        Opcode::PUSH23 => 0x76,
        Opcode::PUSH24 => 0x77,
        Opcode::PUSH25 => 0x78,
        Opcode::PUSH26 => 0x79,
        Opcode::PUSH27 => 0x7a,
        Opcode::PUSH28 => 0x7b,
        Opcode::PUSH29 => 0x7c,
        Opcode::PUSH30 => 0x7d,
        Opcode::PUSH31 => 0x7e,
        Opcode::PUSH32 => 0x7f,
        Opcode::DUP1 => 0x80,
        Opcode::DUP2 => 0x81,
        Opcode::DUP3 => 0x82,
        Opcode::DUP4 => 0x83,
        Opcode::DUP5 => 0x84,
        Opcode::DUP6 => 0x85,
        Opcode::DUP7 => 0x86,
        Opcode::DUP8 => 0x87,
        Opcode::DUP9 => 0x88,
        Opcode::DUP10 => 0x89,
        Opcode::DUP11 => 0x8a,
        Opcode::DUP12 => 0x8b,
        Opcode::DUP13 => 0x8c,
        Opcode::DUP14 => 0x8d,
        Opcode::DUP15 => 0x8e,
        Opcode::DUP16 => 0x8f,
        Opcode::SWAP1 => 0x90,
        Opcode::SWAP2 => 0x91,
        Opcode::SWAP3 => 0x92,
        Opcode::SWAP4 => 0x93,
        Opcode::SWAP5 => 0x94,
        Opcode::SWAP6 => 0x95,
        Opcode::SWAP7 => 0x96,
        Opcode::SWAP8 => 0x97,
        Opcode::SWAP9 => 0x98,
        Opcode::SWAP10 => 0x99,
        Opcode::SWAP11 => 0x9a,
        Opcode::SWAP12 => 0x9b,
        Opcode::SWAP13 => 0x9c,
        Opcode::SWAP14 => 0x9d,
        Opcode::SWAP15 => 0x9e,
        Opcode::SWAP16 => 0x9f,
        Opcode::LOG0 => 0xa0,
        Opcode::LOG1 => 0xa1,
        Opcode::LOG2 => 0xa2,
        Opcode::LOG3 => 0xa3,
        Opcode::LOG4 => 0xa4,
        Opcode::CREATE => 0xf0,
        Opcode::CALL => 0xf1,
        Opcode::CALLCODE => 0xf2,
        Opcode::RETURN => 0xf3,
        Opcode::DELEGATECALL => 0xf4,
        Opcode::CREATE2 => 0xf5,
        Opcode::STATICCALL => 0xfa,
        Opcode::REVERT => 0xfd,
        Opcode::INVALID => 0xfe,
        Opcode::SELFDESTRUCT => 0xff,
    }
}

/// The number of immediate bytes that follow a mnemonic's byte in a code stream:
/// `n` for the push of `n` bytes, none for every other mnemonic.
pub open spec fn immediate_width(op: Opcode) -> nat {
    let byte = opcode_byte(op);
    if 0x60 <= byte <= 0x7f {
        (byte - 0x5f) as nat
    } else {
        0
    }
}

/// Whether a mnemonic is `JUMP` or `JUMPI`.
pub open spec fn opcode_is_jump(op: Opcode) -> bool {
    op is JUMP || op is JUMPI
}

/// Whether a mnemonic is the push of one byte or the push of two bytes, the
/// two widths in which the engine rewrites jump targets.
pub open spec fn opcode_is_short_push(op: Opcode) -> bool {
    op is PUSH1 || op is PUSH2
}

/// Encodes a mnemonic as its byte.
pub fn assemble_opcode(op: Opcode) -> (byte: u8)
    ensures
        byte == opcode_byte(op),
{
    match op {
        Opcode::STOP => 0x00,
        Opcode::ADD => 0x01,
        Opcode::MUL => 0x02,
        Opcode::SUB => 0x03,
        Opcode::DIV => 0x04,
        Opcode::SDIV => 0x05,
        Opcode::MOD => 0x06,
        Opcode::SMOD => 0x07,
        Opcode::ADDMOD => 0x08,
        Opcode::MULMOD => 0x09,
        Opcode::EXP => 0x0a,
        Opcode::SIGNEXTEND => 0x0b,
        Opcode::LT => 0x10,
        Opcode::GT => 0x11,
        Opcode::SLT => 0x12,
        Opcode::SGT => 0x13,
        Opcode::EQ => 0x14,
        Opcode::ISZERO => 0x15,
        Opcode::AND => 0x16,
        Opcode::OR => 0x17,
        Opcode::XOR => 0x18,
        Opcode::NOT => 0x19,
        Opcode::BYTE => 0x1a,
        Opcode::SHL => 0x1b,
        Opcode::SHR => 0x1c,
        Opcode::SAR => 0x1d,
        Opcode::SHA3 => 0x20,
        Opcode::ADDRESS => 0x30,
        Opcode::BALANCE => 0x31,
        Opcode::ORIGIN => 0x32,
        Opcode::CALLER => 0x33,
        Opcode::CALLVALUE => 0x34,
        Opcode::CALLDATALOAD => 0x35,
        Opcode::CALLDATASIZE => 0x36,
        Opcode::CALLDATACOPY => 0x37,
        Opcode::CODESIZE => 0x38,
        Opcode::CODECOPY => 0x39,
        Opcode::GASPRICE => 0x3a,
        Opcode::EXTCODESIZE => 0x3b,
        Opcode::EXTCODECOPY => 0x3c,
        Opcode::RETURNDATASIZE => 0x3d,
        Opcode::RETURNDATACOPY => 0x3e,
        Opcode::EXTCODEHASH => 0x3f,
        Opcode::BLOCKHASH => 0x40,
        Opcode::COINBASE => 0x41,
        Opcode::TIMESTAMP => 0x42,
        Opcode::NUMBER => 0x43,
        Opcode::DIFFICULTY => 0x44,
        Opcode::GASLIMIT => 0x45,
        Opcode::CHAINID => 0x46,
        Opcode::SELFBALANCE => 0x47,
        Opcode::BASEFEE => 0x48,
        Opcode::BLOBHASH => 0x49,
        Opcode::BLOBBASEFEE => 0x4a,
        Opcode::POP => 0x50,
        Opcode::MLOAD => 0x51,
        Opcode::MSTORE => 0x52,
        Opcode::MSTORE8 => 0x53,
        Opcode::SLOAD => 0x54,
        Opcode::SSTORE => 0x55,
        Opcode::JUMP => 0x56,
        Opcode::JUMPI => 0x57,
        Opcode::PC => 0x58,
        Opcode::MSIZE => 0x59,
        Opcode::GAS => 0x5a,
        Opcode::JUMPDEST => 0x5b,
        Opcode::TLOAD => 0x5c,
        Opcode::TSTORE => 0x5d,
        Opcode::MCOPY => 0x5e,
        Opcode::PUSH0 => 0x5f,
        Opcode::PUSH1 => 0x60,
        Opcode::PUSH2 => 0x61,
        Opcode::PUSH3 => 0x62,
        Opcode::PUSH4 => 0x63,
        Opcode::PUSH5 => 0x64,
        Opcode::PUSH6 => 0x65,
        Opcode::PUSH7 => 0x66,
        Opcode::PUSH8 => 0x67,
        Opcode::PUSH9 => 0x68,
        Opcode::PUSH10 => 0x69,
        Opcode::PUSH11 => 0x6a,
        Opcode::PUSH12 => 0x6b,
        Opcode::PUSH13 => 0x6c,
        Opcode::PUSH14 => 0x6d,
        Opcode::PUSH15 => 0x6e,
        Opcode::PUSH16 => 0x6f,
        Opcode::PUSH17 => 0x70,
        Opcode::PUSH18 => 0x71,
        Opcode::PUSH19 => 0x72,
        Opcode::PUSH20 => 0x73,
        Opcode::PUSH21 => 0x74,
        Opcode::PUSH22 => 0x75,
        Opcode::PUSH23 => 0x76,
        Opcode::PUSH24 => 0x77,
        Opcode::PUSH25 => 0x78,
        Opcode::PUSH26 => 0x79,
        Opcode::PUSH27 => 0x7a,
        Opcode::PUSH28 => 0x7b,
        Opcode::PUSH29 => 0x7c,
        Opcode::PUSH30 => 0x7d,
        Opcode::PUSH31 => 0x7e,
        Opcode::PUSH32 => 0x7f,
        Opcode::DUP1 => 0x80,
        Opcode::DUP2 => 0x81,
        Opcode::DUP3 => 0x82,
        Opcode::DUP4 => 0x83,
        Opcode::DUP5 => 0x84,
        Opcode::DUP6 => 0x85,
        Opcode::DUP7 => 0x86,
        Opcode::DUP8 => 0x87,
        Opcode::DUP9 => 0x88,
        Opcode::DUP10 => 0x89,
        Opcode::DUP11 => 0x8a,
        Opcode::DUP12 => 0x8b,
        Opcode::DUP13 => 0x8c,
        Opcode::DUP14 => 0x8d,
        Opcode::DUP15 => 0x8e,
        Opcode::DUP16 => 0x8f,
        Opcode::SWAP1 => 0x90,
        Opcode::SWAP2 => 0x91,
        Opcode::SWAP3 => 0x92,
        Opcode::SWAP4 => 0x93,
        Opcode::SWAP5 => 0x94,
        Opcode::SWAP6 => 0x95,
        Opcode::SWAP7 => 0x96,
        Opcode::SWAP8 => 0x97,
        Opcode::SWAP9 => 0x98,
        Opcode::SWAP10 => 0x99,
        Opcode::SWAP11 => 0x9a,
        Opcode::SWAP12 => 0x9b,
        Opcode::SWAP13 => 0x9c,
        Opcode::SWAP14 => 0x9d,
        Opcode::SWAP15 => 0x9e,
        Opcode::SWAP16 => 0x9f,
        Opcode::LOG0 => 0xa0,
        Opcode::LOG1 => 0xa1,
        Opcode::LOG2 => 0xa2,
        Opcode::LOG3 => 0xa3,
        Opcode::LOG4 => 0xa4,
        Opcode::CREATE => 0xf0,
        Opcode::CALL => 0xf1,
        Opcode::CALLCODE => 0xf2,
        Opcode::RETURN => 0xf3,
        Opcode::DELEGATECALL => 0xf4,
        Opcode::CREATE2 => 0xf5,
        Opcode::STATICCALL => 0xfa,
        Opcode::REVERT => 0xfd,
        Opcode::INVALID => 0xfe,
        Opcode::SELFDESTRUCT => 0xff,
    }
}

/// The number of immediate bytes that a mnemonic calls for.
pub fn immediate_len(op: Opcode) -> (width: usize)
    ensures
        width == immediate_width(op),
{
    let byte = assemble_opcode(op);
    if 0x60 <= byte && byte <= 0x7f {
        (byte - 0x5f) as usize
    } else {
        0
    }
}

/// No two mnemonics share a byte, so a code stream can be decoded again.
pub proof fn lemma_opcode_byte_injective(a: Opcode, b: Opcode)
    requires
        opcode_byte(a) == opcode_byte(b),
    ensures
        a == b,
{
}

/// Among the mnemonics, exactly the pushes of one to thirty-two bytes carry
/// immediate bytes, and the two shortest carry one and two.
pub proof fn lemma_immediate_widths(op: Opcode)
    ensures
        immediate_width(op) <= 32,
        op is PUSH1 <==> immediate_width(op) == 1,
        op is PUSH2 <==> immediate_width(op) == 2,
        opcode_is_jump(op) || op is JUMPDEST ==> immediate_width(op) == 0,
{
}

} // verus!
