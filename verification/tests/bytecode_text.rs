use evm_bunnyhop::{bunny_hop, try_bunny_hop};

#[test]
fn push_with_high_byte_set_is_left_alone() {
    assert_eq!(bunny_hop("610104565b"), "610104565b");
    assert_eq!(bunny_hop("61ff0057"), "61ff0057");
}

#[test]
fn push_without_destination_is_narrowed_and_nothing_else_changes() {
    // push2 0x0009, jump, push1 0x07, jumpi, jumpdest, stop: nine is no destination
    assert_eq!(bunny_hop("610009566007575b00"), "6009566006575b00");
    // no jumpdest at all
    assert_eq!(bunny_hop("61000456600756"), "600456600756");
}

#[test]
fn matching_push_not_before_a_jump_is_left_alone() {
    // push1 0x06, pop, push2 0x0006, jump, jumpdest
    assert_eq!(bunny_hop("6007506100075b565b"), "6007506100075b565b");
    assert_eq!(bunny_hop("600750610007565b"), "6007506006565b");
}

#[test]
fn conditional_jumps_count_as_jumps() {
    assert_eq!(bunny_hop("610004575b"), "6003575b");
}

#[test]
fn a_repair_can_expose_a_new_candidate() {
    // push2 0x0008, jump, push2 0x0100, jump, jumpdest, 247 stops, jumpdest
    let mut text = String::from("61000856610100565b");
    for _ in 0..247 {
        text.push_str("00");
    }
    text.push_str("5b");
    assert_eq!(text.len() / 2, 257);

    let mut expected = String::from("60065660fe565b");
    for _ in 0..247 {
        expected.push_str("00");
    }
    expected.push_str("5b");

    let output = bunny_hop(&text);
    assert_eq!(output, expected);
    assert_eq!(output.len() / 2, 255);
}

#[test]
fn output_fed_back_in_comes_out_unchanged() {
    for text in [
        "610004565b5f5ff3",
        "610009566007575b00",
        "61000e56600e50600e5761000e565b",
        "610104565b",
        "",
    ] {
        let once = bunny_hop(text);
        assert_eq!(bunny_hop(&once), once);
    }
}

#[test]
fn output_is_never_longer_than_the_input() {
    for (text, narrowed) in [
        ("610004565b5f5ff3", 1usize),
        ("61000e56600e50600e5761000e565b", 2),
        ("610104565b", 0),
        ("5b", 0),
    ] {
        let output = bunny_hop(text);
        assert_eq!(output.len() % 2, 0);
        assert_eq!(output.len() / 2, text.len() / 2 - narrowed);
    }
}

#[test]
fn text_without_candidate_is_assembled_again_as_it_was() {
    for text in ["", "00", "5b5b5b", "6004565b", "61010456", "6100045b56", "7f0000000000000000000000000000000000000000000000000000000000000004565b"] {
        assert_eq!(bunny_hop(text), text);
    }
}

#[test]
fn prefix_and_upper_case_are_accepted() {
    assert_eq!(bunny_hop("0x610004565b5f5ff3"), "6003565b5f5ff3");
    assert_eq!(bunny_hop("0x0x610004565B5F5FF3"), "6003565b5f5ff3");
    assert_eq!(bunny_hop("0x"), "");
    assert_eq!(bunny_hop("60AB"), "60ab");
}

#[test]
fn bytes_without_a_mnemonic_come_out_as_the_invalid_instruction() {
    assert_eq!(bunny_hop("0c"), "fe");
    assert_eq!(bunny_hop("fe"), "fe");
}

#[test]
fn a_push_cut_short_is_left_out() {
    assert_eq!(bunny_hop("5b61"), "5b");
    assert_eq!(bunny_hop("5b6100"), "5b");
    assert_eq!(bunny_hop("60"), "");
}

#[test]
fn try_bunny_hop_rewrites_what_decodes() {
    assert_eq!(try_bunny_hop("610004565b5f5ff3"), Some(String::from("6003565b5f5ff3")));
    assert_eq!(try_bunny_hop(""), Some(String::new()));
    assert_eq!(try_bunny_hop("0x5b"), Some(String::from("5b")));
}

#[test]
fn try_bunny_hop_refuses_what_is_no_bytecode_text() {
    assert_eq!(try_bunny_hop("123"), None);
    assert_eq!(try_bunny_hop("zz"), None);
    assert_eq!(try_bunny_hop("5b 5b"), None);
    assert_eq!(try_bunny_hop("00x5b"), None);
    assert_eq!(try_bunny_hop("0X5b"), None);
    assert_eq!(try_bunny_hop("5b\n"), None);
    assert_eq!(try_bunny_hop("5\u{e9}"), None);
    assert_eq!(try_bunny_hop("\u{e9}"), None);
}
