use receipt_printer_emulator::escpos::contains_cut_command;
use receipt_printer_emulator::escpos::EscPosParser;

fn decode(width: usize, data: &[u8]) -> Vec<String> {
    let mut p = EscPosParser::new(width);
    p.process(data);
    p.get_output()
}

fn full_rule() -> String {
    "═".repeat(48)
}

#[test]
fn printable_text_line_is_unmarked() {
    assert_eq!(decode(48, b"Hello, World! 123\n"), vec!["Hello, World! 123".to_string()]);
}

#[test]
fn init_resets_all_formatting() {
    let mut data = vec![0x1B, b'E', 1, 0x1B, b'-', 2, 0x1B, b'a', 2, 0x1D, b'!', 0x11, 0x1D, b'B', 1];
    data.extend_from_slice(b"junk");
    data.extend_from_slice(&[0x1B, b'@']);
    data.extend_from_slice(b"plain\n");
    assert_eq!(decode(48, &data), vec!["plain".to_string()]);
}

#[test]
fn two_line_feeds_give_two_lines() {
    assert_eq!(decode(48, b"A\n\n"), vec!["A".to_string(), String::new()]);
    assert_eq!(decode(48, b"A\r"), vec!["A".to_string()]);
}

#[test]
fn full_cut_flushes_and_adds_separator() {
    assert_eq!(decode(48, &[b'X', 0x1D, b'V', 0]), vec!["X".to_string(), full_rule()]);
    assert_eq!(decode(48, &[b'Y', 0x1D, b'V', 48]), vec!["Y".to_string(), full_rule()]);
}

#[test]
fn partial_cut_adds_dashed_separator() {
    let dashed = "- ".repeat(24);
    assert_eq!(decode(48, &[b'X', 0x1D, b'V', 1]), vec!["X".to_string(), dashed.clone()]);
    assert_eq!(decode(48, &[0x1D, b'V', 49]), vec![String::new(), dashed]);
}

#[test]
fn feed_and_cut_adds_blank_lines() {
    assert_eq!(
        decode(48, &[0x1D, b'V', 65, 2]),
        vec![String::new(), String::new(), String::new(), full_rule()]
    );
    assert_eq!(decode(48, &[0x1D, b'V', 7, b'Z']), vec![String::new(), "Z".to_string()]);
}

#[test]
fn terminated_barcode_carries_bytes_before_zero() {
    let mut data = vec![0x1D, b'k', 4];
    data.extend_from_slice(b"12345");
    data.push(0);
    data.extend_from_slice(b"after\n");
    assert_eq!(
        decode(48, &data),
        vec!["[BARCODE: Type=4, Data=12345]".to_string(), "after".to_string()]
    );
}

#[test]
fn counted_barcode_carries_length_bytes() {
    let mut data = vec![0x1D, b'k', 73, 3];
    data.extend_from_slice(b"ABCDE\n");
    assert_eq!(
        decode(48, &data),
        vec!["[BARCODE: Type=73, Data=ABC]".to_string(), "DE".to_string()]
    );
}

#[test]
fn barcode_short_input_stops_early() {
    assert_eq!(decode(48, &[0x1D, b'k', 200, 9, b'A']), vec!["[BARCODE: Type=200, Data=A]".to_string()]);
    assert_eq!(decode(48, &[0x1D, b'k', 8]), vec!["[BARCODE: Type=8, Data=]".to_string()]);
}

#[test]
fn barcode_invalid_utf8_is_replaced() {
    assert_eq!(
        decode(48, &[0x1D, b'k', 2, 0xFF, b'a', 0]),
        vec!["[BARCODE: Type=2, Data=\u{FFFD}a]".to_string()]
    );
}

#[test]
fn qr_group_gives_one_placeholder() {
    let mut data = vec![0x1D, b'(', b'k', 3, 0, 49, 80, 48, b'q', b'r', b'\n'];
    data.extend_from_slice(&[0x1B, b'E', 1]);
    data.extend_from_slice(b"B\n");
    assert_eq!(decode(48, &data), vec!["[QR CODE]".to_string(), "**B**".to_string()]);
}

#[test]
fn qr_group_other_selector_is_ignored() {
    assert_eq!(decode(48, &[0x1D, b'(', b'L', b'Q', b'\n']), vec!["Q".to_string()]);
}

#[test]
fn scenario_init_center_cut() {
    let mut data = vec![0x1B, b'@'];
    data.extend_from_slice(b"HELLO\n");
    data.extend_from_slice(&[0x1B, b'a', 1]);
    data.extend_from_slice(b"WORLD\n");
    data.extend_from_slice(&[0x1D, b'V', 0]);
    // the cut flushes the (empty) pending line first, centred like any other
    let expected = vec![
        "HELLO".to_string(),
        format!("{}WORLD", " ".repeat(21)),
        " ".repeat(24),
        full_rule(),
    ];
    assert_eq!(decode(48, &data), expected);
}

#[test]
fn scenario_inverse_marker() {
    assert_eq!(decode(48, &[0x1D, b'B', 1, b'X', b'\n']), vec!["[INV]X[/INV]".to_string()]);
}

#[test]
fn markers_nest_in_fixed_order() {
    let data = [0x1B, b'!', 0xB8, 0x1D, b'B', 1, b'T', b'\n'];
    assert_eq!(
        decode(48, &data),
        vec!["[2H][2W][INV]__**T**__[/INV][/2W][/2H]".to_string()]
    );
}

#[test]
fn character_size_sets_width_and_height() {
    assert_eq!(decode(48, &[0x1D, b'!', 0x10, b'a', b'\n']), vec!["[2W]a[/2W]".to_string()]);
    assert_eq!(decode(48, &[0x1D, b'!', 0x01, b'a', b'\n']), vec!["[2H]a[/2H]".to_string()]);
}

#[test]
fn center_padding_uses_display_length() {
    // display length 2: half of the shortfall 46 is 23
    let data = [0x1B, b'a', 1, 0x1B, b'E', 1, b'A', b'B', b'\n'];
    assert_eq!(decode(48, &data), vec![format!("{}**AB**", " ".repeat(23))]);
}

#[test]
fn right_alignment_pads_to_width() {
    let data = [0x1B, b'a', 2, b'A', b'B', b'\n'];
    assert_eq!(decode(10, &data), vec!["        AB".to_string()]);
    let long = [0x1B, b'a', 2, b'A', b'B', b'C', b'\n'];
    assert_eq!(decode(2, &long), vec!["ABC".to_string()]);
}

#[test]
fn feed_lines_after_flush() {
    assert_eq!(
        decode(48, &[b'A', 0x1B, b'd', 2]),
        vec!["A".to_string(), String::new(), String::new()]
    );
    assert_eq!(decode(48, &[b'A', 0x1B, b'J', 9]), vec!["A".to_string()]);
}

#[test]
fn unsupported_commands_consume_one_operand() {
    let data = [0x1B, b'3', b'Q', 0x1B, b'M', b'Q', 0x1D, b'h', b'Q', 0x1B, b'2', b'K', b'\n'];
    assert_eq!(decode(48, &data), vec!["K".to_string()]);
}

#[test]
fn unknown_opcode_takes_no_operand() {
    assert_eq!(decode(48, &[0x1B, b'z', b'Q', b'\n']), vec!["Q".to_string()]);
}

#[test]
fn control_bytes_are_ignored() {
    assert_eq!(decode(48, &[b'a', 0x07, 0x80, b'b', b'\n']), vec!["ab".to_string()]);
}

#[test]
fn truncated_operand_is_dropped_at_chunk_end() {
    let mut p = EscPosParser::new(48);
    p.process(&[0x1B, b'E']);
    p.process(&[1, b'\n']);
    assert_eq!(p.get_output(), vec![String::new()]);
}

#[test]
fn pending_text_is_reported_without_change() {
    let mut p = EscPosParser::new(48);
    p.process(&[0x1B, b'E', 1]);
    p.process(b"ab");
    assert_eq!(p.get_output(), vec!["**ab**".to_string()]);
    assert_eq!(p.get_output(), vec!["**ab**".to_string()]);
    p.process(b"\n");
    assert_eq!(p.get_output(), vec!["**ab**".to_string()]);
}

#[test]
fn clear_returns_to_cold_start() {
    let mut p = EscPosParser::new(48);
    p.process(&[0x1B, b'E', 1, b'a', b'\n', b'b']);
    p.clear();
    assert!(p.get_output().is_empty());
    p.process(b"c\n");
    assert_eq!(p.get_output(), vec!["c".to_string()]);
}

#[test]
fn empty_input_gives_nothing() {
    assert!(decode(48, &[]).is_empty());
}

#[test]
fn cut_command_detected_before_last_two_bytes() {
    assert!(contains_cut_command(&[b'a', 0x1D, b'V', 0]));
    assert!(!contains_cut_command(&[b'a', 0x1D, b'V']));
    assert!(!contains_cut_command(&[0x1D, b'W', 0, 0]));
    assert!(!contains_cut_command(&[]));
}

#[test]
fn barcode_line_is_appended_directly() {
    let data = [b'A', b'B', 0x1D, b'k', 4, b'1', b'2', b'3', 0x00, b'C', 0x0A];
    assert_eq!(
        decode(48, &data),
        vec!["[BARCODE: Type=4, Data=123]".to_string(), "ABC".to_string()]
    );
}

#[test]
fn barcode_truncated_forms() {
    assert_eq!(
        decode(48, &[0x1D, b'k', 73, 5, b'A', b'B']),
        vec!["[BARCODE: Type=73, Data=AB]".to_string()]
    );
    assert_eq!(
        decode(48, &[0x1D, b'k', 2, b'1', b'2', 0x0A]),
        vec!["[BARCODE: Type=2, Data=12\n]".to_string()]
    );
    assert!(decode(48, &[0x1D, b'k']).is_empty());
}
