use evm_bunnyhop::bytecode::{assemble_hex, rewrite, working_list};
use evm_bunnyhop::engine::{find_candidate, run_round, transform};
use evm_bunnyhop::layout::is_well_formed;
use evm_bunnyhop::opcode::immediate_len;
use evm_bunnyhop::Op;
use evm_disassembler::{disassemble_str, Opcode};

fn decode(text: &str) -> Vec<Op> {
    evm_bunnyhop::bytecode::decode(text).unwrap()
}

fn offsets(ops: &Vec<Op>) -> Vec<u32> {
    ops.iter().map(|op| op.offset).collect()
}

fn starts(ops: &Vec<Op>) -> Vec<u32> {
    let mut next = 0u32;
    let mut all = Vec::new();
    for op in ops {
        all.push(next);
        next += 1 + op.input.len() as u32;
    }
    all
}

#[test]
fn decode_refuses_what_is_no_bytecode_text() {
    assert!(evm_bunnyhop::bytecode::decode("5").is_none());
    assert!(evm_bunnyhop::bytecode::decode("5g").is_none());
    assert!(evm_bunnyhop::bytecode::decode("").unwrap().is_empty());
}

#[test]
fn decode_lays_the_list_out() {
    let ops = decode("0x61000e56600e50600e5761000e565b7f");
    assert_eq!(ops.len(), 9);
    assert_eq!(offsets(&ops), starts(&ops));
    assert!(is_well_formed(&ops));
}

#[test]
fn immediate_len_is_the_push_width() {
    assert_eq!(immediate_len(Opcode::PUSH0), 0);
    assert_eq!(immediate_len(Opcode::PUSH1), 1);
    assert_eq!(immediate_len(Opcode::PUSH2), 2);
    assert_eq!(immediate_len(Opcode::PUSH32), 32);
    assert_eq!(immediate_len(Opcode::JUMP), 0);
    assert_eq!(immediate_len(Opcode::DUP1), 0);
    assert_eq!(immediate_len(Opcode::INVALID), 0);
}

#[test]
fn is_well_formed_accepts_lagging_jumps_only() {
    let mut ops = decode("610004565b5f5ff3");
    assert!(is_well_formed(&ops));
    transform(&mut ops);
    assert_eq!(offsets(&ops), vec![0, 3, 3, 4, 5, 6]);
    assert!(is_well_formed(&ops));

    // a jump behind a one-byte push, recorded where it begins or one later
    let lagging = |offset: u32| {
        vec![
            Op { opcode: Opcode::PUSH1, input: vec![0x03], offset: 0 },
            Op { opcode: Opcode::JUMP, input: vec![], offset },
        ]
    };
    assert!(is_well_formed(&lagging(2)));
    assert!(is_well_formed(&lagging(3)));
    assert!(!is_well_formed(&lagging(4)));
    assert!(!is_well_formed(&lagging(1)));

    // a destination may not lag
    let late_destination = vec![
        Op { opcode: Opcode::PUSH1, input: vec![0x03], offset: 0 },
        Op { opcode: Opcode::JUMPDEST, input: vec![], offset: 3 },
    ];
    assert!(!is_well_formed(&late_destination));

    // a jump behind a two-byte push may not lag
    let behind_wide = vec![
        Op { opcode: Opcode::PUSH2, input: vec![0x01, 0x03], offset: 0 },
        Op { opcode: Opcode::JUMP, input: vec![], offset: 4 },
    ];
    assert!(!is_well_formed(&behind_wide));
}

#[test]
fn is_well_formed_asks_for_fitting_widths_and_a_start_at_zero() {
    assert!(is_well_formed(&Vec::new()));
    assert!(!is_well_formed(&vec![Op { opcode: Opcode::STOP, input: vec![], offset: 1 }]));
    assert!(!is_well_formed(&vec![Op { opcode: Opcode::PUSH2, input: vec![0x04], offset: 0 }]));
    assert!(!is_well_formed(&vec![Op { opcode: Opcode::STOP, input: vec![0x00], offset: 0 }]));
    assert!(is_well_formed(&vec![Op { opcode: Opcode::PUSH2, input: vec![0, 4], offset: 0 }]));
}

#[test]
fn working_list_keeps_order_and_fields() {
    let ops = working_list(&disassemble_str("610004565b5f5ff3").unwrap());
    assert_eq!(ops.len(), 6);
    assert!(matches!(ops[0].opcode, Opcode::PUSH2));
    assert_eq!(ops[0].input, vec![0x00, 0x04]);
    assert!(matches!(ops[1].opcode, Opcode::JUMP));
    assert!(matches!(ops[2].opcode, Opcode::JUMPDEST));
    assert!(matches!(ops[5].opcode, Opcode::RETURN));
    assert_eq!(offsets(&ops), vec![0, 3, 4, 5, 6, 7]);
    assert_eq!(offsets(&ops), starts(&ops));
}

#[test]
fn find_candidate_takes_the_first() {
    assert_eq!(find_candidate(&decode("610004565b5f5ff3")), Some(0));
    assert_eq!(find_candidate(&decode("5b61000857610004565b")), Some(1));
    assert_eq!(find_candidate(&decode("")), None);
    assert_eq!(find_candidate(&decode("56")), None);
    assert_eq!(find_candidate(&decode("610004")), None);
    assert_eq!(find_candidate(&decode("6100045b56")), None);
    assert_eq!(find_candidate(&decode("600456")), None);
    assert_eq!(find_candidate(&decode("61010456")), None);
    assert_eq!(find_candidate(&decode("6200000456")), None);
    assert_eq!(find_candidate(&decode("61010456610004575b")), Some(2));
}

#[test]
fn run_round_leaves_the_jump_behind_the_push_as_recorded() {
    let mut ops = decode("610004565b5f5ff3");
    run_round(&mut ops, 0);
    assert!(matches!(ops[0].opcode, Opcode::PUSH1));
    assert_eq!(ops[0].input, vec![0x03]);
    assert_eq!(offsets(&ops), vec![0, 3, 3, 4, 5, 6]);
    assert_eq!(starts(&ops), vec![0, 2, 3, 4, 5, 6]);
    assert_eq!(assemble_hex(ops), "6003565b5f5ff3");
}

#[test]
fn run_round_repairs_adjacent_pushes_only() {
    // push2 0x000e, jump, push1 0x0e, pop, push1 0x0e, jumpi, push2 0x000e, jump, jumpdest
    let mut ops = decode("61000e56600e50600e5761000e565b");
    assert_eq!(ops[8].offset, 14);
    run_round(&mut ops, 0);
    assert_eq!(ops[0].input, vec![0x0d]);
    assert_eq!(ops[2].input, vec![0x0e]);
    assert_eq!(ops[4].input, vec![0x0d]);
    assert_eq!(ops[6].input, vec![0x00, 0x0d]);
    assert!(matches!(ops[6].opcode, Opcode::PUSH2));
    assert_eq!(ops[8].offset, 13);
    assert_eq!(offsets(&ops), vec![0, 3, 3, 5, 6, 8, 9, 12, 13]);
    assert_eq!(assemble_hex(ops), "600d56600e50600d5761000d565b");
}

#[test]
fn run_round_on_a_later_candidate_keeps_what_lies_before() {
    // jumpdest, push2 0x0000, jump: the destination lies before the push
    let mut ops = decode("5b610000565b");
    run_round(&mut ops, 1);
    assert_eq!(ops[1].input, vec![0x00]);
    assert_eq!(offsets(&ops), vec![0, 1, 4, 4]);
    assert_eq!(assemble_hex(ops), "5b6000565b");
}

#[test]
fn transform_runs_until_no_candidate_is_left() {
    let mut ops = decode("61000e56600e50600e5761000e565b");
    transform(&mut ops);
    assert_eq!(find_candidate(&ops), None);
    // the second narrowing moves the destination once more
    assert_eq!(ops[0].input, vec![0x0c]);
    assert_eq!(ops[2].input, vec![0x0e]);
    assert_eq!(ops[4].input, vec![0x0c]);
    assert_eq!(ops[6].input, vec![0x0c]);
    assert!(matches!(ops[6].opcode, Opcode::PUSH1));
    assert_eq!(ops[8].offset, 12);
    assert_eq!(offsets(&ops), vec![0, 3, 3, 5, 6, 8, 9, 12, 12]);
    assert_eq!(assemble_hex(ops), "600c56600e50600c57600c565b");
}

#[test]
fn transform_twice_is_transform_once() {
    let mut ops = decode("61000e56600e50600e5761000e565b");
    transform(&mut ops);
    let once_offsets = offsets(&ops);
    let once = assemble_hex(decode_copy(&ops));
    transform(&mut ops);
    assert_eq!(offsets(&ops), once_offsets);
    assert_eq!(assemble_hex(ops), once);
}

fn decode_copy(ops: &Vec<Op>) -> Vec<Op> {
    ops.iter()
        .map(|op| Op { opcode: op.opcode, input: op.input.clone(), offset: op.offset })
        .collect()
}

#[test]
fn transform_offsets_match_the_new_encoding_but_behind_narrowed_pushes() {
    let mut ops = decode("61000e56600e50600e5761000e565b");
    transform(&mut ops);
    let recorded = offsets(&ops);
    let begins = starts(&ops);
    for i in 0..ops.len() {
        let behind_narrowed = i == 1 || i == 7;
        if behind_narrowed {
            assert_eq!(recorded[i], begins[i] + 1);
            assert!(ops[i].is_jump());
        } else {
            assert_eq!(recorded[i], begins[i]);
        }
    }
}

#[test]
fn transform_keeps_targets_on_their_destinations() {
    let mut ops = decode("61000e56600e50600e5761000e565b");
    transform(&mut ops);
    let begins = starts(&ops);
    for j in [0usize, 4, 6] {
        assert_eq!(ops[j].get_input_value(), ops[8].offset);
        assert_eq!(ops[j].get_input_value(), begins[8]);
    }
}

#[test]
fn transform_shortens_by_one_byte_for_each_narrowed_push() {
    let text = "61000e56600e50600e5761000e565b";
    let mut ops = decode(text);
    let wide_before = ops.iter().filter(|op| matches!(op.opcode, Opcode::PUSH2)).count();
    transform(&mut ops);
    let wide_after = ops.iter().filter(|op| matches!(op.opcode, Opcode::PUSH2)).count();
    let output = assemble_hex(ops);
    assert_eq!(wide_before - wide_after, 2);
    assert_eq!(output.len() / 2, text.len() / 2 - 2);
}

#[test]
fn transform_without_candidate_changes_nothing() {
    let text = "6004565b61010456";
    let mut ops = decode(text);
    let before = offsets(&ops);
    transform(&mut ops);
    assert_eq!(offsets(&ops), before);
    assert_eq!(assemble_hex(ops), text);
}

#[test]
fn assemble_hex_of_nothing_is_empty() {
    assert_eq!(assemble_hex(Vec::new()), "");
}

#[test]
fn assemble_hex_joins_the_texts_of_the_instructions() {
    let ops = decode("610004565b5f5ff3");
    let mut joined = String::new();
    for op in &ops {
        joined.push_str(&op.as_string());
    }
    assert_eq!(assemble_hex(ops), joined);
}

#[test]
fn rewrite_takes_a_list_built_by_hand() {
    let ops = vec![
        Op { opcode: Opcode::PUSH2, input: vec![0x00, 0x04], offset: 0 },
        Op { opcode: Opcode::JUMP, input: vec![], offset: 3 },
        Op { opcode: Opcode::JUMPDEST, input: vec![], offset: 4 },
    ];
    assert_eq!(rewrite(ops), "6003565b");
}
