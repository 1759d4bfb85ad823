use receipt_printer_emulator::console::strip_ansi_codes;
use receipt_printer_emulator::renderer::ReceiptRenderer;

#[test]
fn plain_strips_markers() {
    let r = ReceiptRenderer::new(48);
    assert_eq!(r.render_plain_text("[2H][2W][INV]__**T**__[/INV][/2W][/2H]"), "T");
    assert_eq!(r.render_plain_text("   **AB**"), "   AB");
}

#[test]
fn plain_rewraps_barcode_tags() {
    let r = ReceiptRenderer::new(48);
    assert_eq!(
        r.render_plain_text("[BARCODE: Type=4, Data=12345]"),
        ">>> [BARCODE: Type=4, Data=12345] <<<"
    );
    assert_eq!(r.render_plain_text("[QR CODE]"), "[QR CODE]");
    assert_eq!(r.render_plain_text("[BARCODE: open"), "[BARCODE: open");
}

#[test]
fn plain_scenario_inverse() {
    let r = ReceiptRenderer::new(48);
    assert_eq!(r.render_plain_text("[INV]X[/INV]"), "X");
}

#[test]
fn styled_scenario_inverse() {
    colored::control::set_override(true);
    let r = ReceiptRenderer::new(48);
    assert_eq!(r.render_line("[INV]X[/INV]"), "\x1b[47;30mX\x1b[0m");
}

#[test]
fn styled_bold_and_underline_spans() {
    colored::control::set_override(true);
    let r = ReceiptRenderer::new(48);
    assert_eq!(r.render_line("a**B**c"), "a\x1b[1mB\x1b[0mc");
    assert_eq!(r.render_line("__U__"), "\x1b[4mU\x1b[0m");
}

#[test]
fn styled_unterminated_span_is_literal() {
    colored::control::set_override(true);
    let r = ReceiptRenderer::new(48);
    assert_eq!(r.render_line("x**abc"), "x**abc");
    assert_eq!(r.render_line("__a*"), "__a*");
}

#[test]
fn styled_unknown_or_long_bracket_is_literal() {
    colored::control::set_override(true);
    let r = ReceiptRenderer::new(48);
    assert_eq!(r.render_line("[ABC]"), "[ABC]");
    assert_eq!(r.render_line("[BARCODE: Type=4, Data=1]"), "[BARCODE: Type=4, Data=1]");
    assert_eq!(r.render_line("[x"), "[x");
}

#[test]
fn styled_short_barcode_tag_is_highlighted() {
    colored::control::set_override(true);
    let r = ReceiptRenderer::new(48);
    assert_eq!(r.render_line("[BARCODE:]"), "\x1b[94m[BARCODE:]\x1b[0m");
}

#[test]
fn styled_separator_characters() {
    colored::control::set_override(true);
    let r = ReceiptRenderer::new(48);
    assert_eq!(r.render_line("═-"), "\x1b[97m═\x1b[0m-");
}

#[test]
fn styled_empty_line() {
    let r = ReceiptRenderer::new(48);
    assert_eq!(r.render_line(""), "");
    assert_eq!(r.render_plain_text(""), "");
}

#[test]
fn ansi_sequences_are_stripped() {
    assert_eq!(strip_ansi_codes("\x1b[1mB\x1b[0m"), "B");
    assert_eq!(strip_ansi_codes("a\x1bb"), "ab");
    assert_eq!(strip_ansi_codes("x\x1b[12;3"), "x");
    assert_eq!(strip_ansi_codes("═"), "═");
}

#[test]
fn plain_rendering_of_decoded_lines_has_no_markers() {
    let r = ReceiptRenderer::new(48);
    assert_eq!(r.render_plain_text("       [2W][INV]__**Hi**__[/INV][/2W]"), "       Hi");
    assert_eq!(r.render_plain_text("[2H]x[/2H] [BARCODE: Type=2, Data=7]"), "x >>> [BARCODE: Type=2, Data=7] <<<");
}

#[test]
fn plain_strips_until_no_marker_is_left() {
    let r = ReceiptRenderer::new(48);
    assert_eq!(r.render_plain_text("*__*"), "");
    assert_eq!(r.render_plain_text("[IN[INV]V]x"), "x");
}

#[test]
fn styled_unknown_bracket_rescans_inside() {
    colored::control::set_override(true);
    let r = ReceiptRenderer::new(48);
    assert_eq!(r.render_line("[**x**]"), "[\x1b[1mx\x1b[0m]");
    assert_eq!(r.render_line("[ABCDEFGHIJ**x**]"), "[ABCDEFGHIJ\x1b[1mx\x1b[0m]");
}

#[test]
fn styled_inverse_wraps_nested_span() {
    colored::control::set_override(true);
    let r = ReceiptRenderer::new(48);
    assert_eq!(
        r.render_line("[INV]__U__[/INV]"),
        "\x1b[47;30m\x1b[4mU\x1b[0m\x1b[47;30m\x1b[0m"
    );
    assert_eq!(r.render_line("[2W]a[/2W]b"), "\x1b[1ma\x1b[0mb");
    assert_eq!(r.render_line("[INV]"), "");
}

#[test]
fn styled_separator_and_glyph_codes() {
    colored::control::set_override(true);
    let r = ReceiptRenderer::new(48);
    assert_eq!(r.render_line("─"), "\x1b[97m─\x1b[0m");
    assert_eq!(r.render_line("[QR CODE]"), "\x1b[90m█▀▀▀▀▀█\x1b[0m");
    assert_eq!(r.render_line("plain text"), "plain text");
}

#[test]
fn styled_ansi_stripped_gives_line_back() {
    colored::control::set_override(true);
    let r = ReceiptRenderer::new(48);
    assert_eq!(strip_ansi_codes(&r.render_line("══ total: 12 ──")), "══ total: 12 ──");
}
