use evm_bunnyhop::bytecode::assemble_operation;
use evm_bunnyhop::hex::{hex_digit_char, push_hex};
use evm_bunnyhop::opcode::assemble_opcode;
use evm_bunnyhop::Op;
use evm_disassembler::{Opcode, Operation};

fn op(opcode: Opcode, input: &[u8], offset: u32) -> Op {
    Op { opcode, input: input.to_vec(), offset }
}

#[test]
fn new_copies_the_three_fields() {
    let mut operation = Operation::new(Opcode::PUSH2, 7);
    operation.input = vec![0x12, 0x34];
    let made = Op::new(&operation);
    assert!(matches!(made.opcode, Opcode::PUSH2));
    assert_eq!(made.offset, 7);
    assert_eq!(made.input, vec![0x12, 0x34]);
    assert_eq!(operation.input, vec![0x12, 0x34]);
}

#[test]
fn decrement_offset_lowers_by_one() {
    let mut jumpdest = op(Opcode::JUMPDEST, &[], 4);
    jumpdest.decrement_offset();
    assert_eq!(jumpdest.offset, 3);
    assert!(matches!(jumpdest.opcode, Opcode::JUMPDEST));
    assert!(jumpdest.input.is_empty());
}

#[test]
fn decrement_input_keeps_the_width() {
    let mut one = op(Opcode::PUSH1, &[0x04], 0);
    one.decrement_input();
    assert_eq!(one.input, vec![0x03]);

    let mut borrow = op(Opcode::PUSH2, &[0x01, 0x00], 9);
    borrow.decrement_input();
    assert_eq!(borrow.input, vec![0x00, 0xff]);
    assert_eq!(borrow.offset, 9);
    assert!(matches!(borrow.opcode, Opcode::PUSH2));

    let mut to_zero = op(Opcode::PUSH2, &[0x00, 0x01], 0);
    to_zero.decrement_input();
    assert_eq!(to_zero.input, vec![0x00, 0x00]);

    let mut four = op(Opcode::PUSH4, &[0x01, 0x00, 0x00, 0x00], 0);
    four.decrement_input();
    assert_eq!(four.input, vec![0x00, 0xff, 0xff, 0xff]);
}

#[test]
fn get_input_value_reads_big_endian() {
    assert_eq!(op(Opcode::PUSH0, &[], 0).get_input_value(), 0);
    assert_eq!(op(Opcode::PUSH1, &[0x7f], 0).get_input_value(), 0x7f);
    assert_eq!(op(Opcode::PUSH2, &[0x12, 0x34], 0).get_input_value(), 0x1234);
    assert_eq!(op(Opcode::PUSH2, &[0x00, 0x04], 0).get_input_value(), 4);
    assert_eq!(op(Opcode::PUSH3, &[0x01, 0x02, 0x03], 0).get_input_value(), 0x010203);
    assert_eq!(
        op(Opcode::PUSH4, &[0xff, 0xff, 0xff, 0xff], 0).get_input_value(),
        u32::MAX
    );
}

#[test]
fn is_jump_holds_of_the_two_jumps_only() {
    assert!(op(Opcode::JUMP, &[], 0).is_jump());
    assert!(op(Opcode::JUMPI, &[], 0).is_jump());
    assert!(!op(Opcode::JUMPDEST, &[], 0).is_jump());
    assert!(!op(Opcode::PUSH2, &[0, 4], 0).is_jump());
    assert!(!op(Opcode::STOP, &[], 0).is_jump());
}

#[test]
fn demote_push_drops_the_zero_high_byte() {
    let mut push = op(Opcode::PUSH2, &[0x00, 0x04], 5);
    let value = push.get_input_value();
    push.demote_push();
    assert!(matches!(push.opcode, Opcode::PUSH1));
    assert_eq!(push.input, vec![0x04]);
    assert_eq!(push.offset, 5);
    assert_eq!(push.get_input_value(), value);
}

#[test]
fn assemble_puts_the_opcode_byte_first() {
    assert_eq!(op(Opcode::PUSH2, &[0x00, 0x04], 0).assemble(), vec![0x61, 0x00, 0x04]);
    assert_eq!(op(Opcode::JUMPDEST, &[], 3).assemble(), vec![0x5b]);
    assert_eq!(assemble_operation(op(Opcode::PUSH1, &[0xab], 0)), vec![0x60, 0xab]);
    assert_eq!(assemble_operation(op(Opcode::RETURN, &[], 0)), vec![0xf3]);
}

#[test]
fn as_string_is_lower_case_hex() {
    assert_eq!(op(Opcode::PUSH2, &[0x00, 0x04], 0).as_string(), "610004");
    assert_eq!(op(Opcode::PUSH1, &[0xAB], 0).as_string(), "60ab");
    assert_eq!(op(Opcode::SELFDESTRUCT, &[], 0).as_string(), "ff");
    assert_eq!(op(Opcode::STOP, &[], 0).as_string(), "00");
}

#[test]
fn hex_digits_and_pairs() {
    let expected = "0123456789abcdef";
    for (nibble, digit) in expected.chars().enumerate() {
        assert_eq!(hex_digit_char(nibble as u8), digit);
    }
    let mut text = String::from("x");
    push_hex(&mut text, 0x0a);
    push_hex(&mut text, 0xf0);
    push_hex(&mut text, 0x00);
    assert_eq!(text, "x0af000");
}

#[test]
fn every_decodable_byte_is_assembled_back() {
    for byte in 0..=255u8 {
        let opcode = Opcode::from_byte(byte);
        if matches!(opcode, Opcode::INVALID) {
            assert_eq!(assemble_opcode(opcode), 0xfe);
        } else {
            assert_eq!(assemble_opcode(opcode), byte);
        }
    }
}

#[test]
fn opcode_bytes_of_the_engine_mnemonics() {
    assert_eq!(assemble_opcode(Opcode::JUMP), 0x56);
    assert_eq!(assemble_opcode(Opcode::JUMPI), 0x57);
    assert_eq!(assemble_opcode(Opcode::JUMPDEST), 0x5b);
    assert_eq!(assemble_opcode(Opcode::PUSH0), 0x5f);
    assert_eq!(assemble_opcode(Opcode::PUSH1), 0x60);
    assert_eq!(assemble_opcode(Opcode::PUSH2), 0x61);
    assert_eq!(assemble_opcode(Opcode::PUSH32), 0x7f);
    assert_eq!(assemble_opcode(Opcode::INVALID), 0xfe);
}
