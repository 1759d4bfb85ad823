//! The ESC/POS byte-stream decoder.
//!
//! The decoder is described by a state machine over `PrinterModel`: `step`
//! consumes one command starting at a position of the input and returns the
//! next model and position, and `run` repeats it to the end of the input.
use vstd::prelude::*;

use crate::format::{
    bold_mark, default_formatting, display_length, format_text, inverse_close, inverse_open,
    padding, strip_style_markers_exec, tall_close, tall_open, underline_mark, wide_close, wide_open,
    wrap, Alignment, FormattingState,
};
use crate::text::{
    bytes_as_chars, decimal, decimal_u8, decode_lossy, push_all, push_char, spaces,
    string_from_chars, utf8_lossy,
};

verus! {

pub const ESC: u8 = 0x1B;

pub const GS: u8 = 0x1D;

pub const LF: u8 = 0x0A;

pub const CR: u8 = 0x0D;

/// Width in characters of the separator lines a cut produces.
pub const RULE_WIDTH: usize = 48;

/// What the decoder has produced so far.
pub struct PrinterModel {
    /// Attributes in force.
    pub fmt: FormattingState,
    /// Text received since the last flushed line.
    pub line: Seq<char>,
    /// Completed lines.
    pub out: Seq<Seq<char>>,
}

/// The model of a printer that has just been powered on or cleared.
pub open spec fn fresh_model() -> PrinterModel {
    PrinterModel { fmt: default_formatting(), line: Seq::empty(), out: Seq::empty() }
}

/// The full-width double-line separator.
pub open spec fn full_rule() -> Seq<char> {
    Seq::new(RULE_WIDTH as nat, |i: int| '═')
}

/// The dashed separator: dash and space alternating.
pub open spec fn dashed_rule() -> Seq<char> {
    Seq::new(RULE_WIDTH as nat, |i: int| if i % 2 == 0 { '-' } else { ' ' })
}

/// The line standing for a two-dimensional symbol.
pub open spec fn qr_placeholder() -> Seq<char> {
    seq!['[', 'Q', 'R', ' ', 'C', 'O', 'D', 'E', ']']
}

pub open spec fn barcode_head() -> Seq<char> {
    seq!['[', 'B', 'A', 'R', 'C', 'O', 'D', 'E', ':', ' ', 'T', 'y', 'p', 'e', '=']
}

pub open spec fn barcode_mid() -> Seq<char> {
    seq![',', ' ', 'D', 'a', 't', 'a', '=']
}

/// The data of a barcode as text: ASCII bytes as they are, anything else
/// decoded as UTF-8 with invalid sequences replaced.
pub open spec fn payload_text(payload: Seq<u8>) -> Seq<char> {
    if forall|i: int| 0 <= i < payload.len() ==> payload[i] < 0x80 {
        bytes_as_chars(payload)
    } else {
        utf8_lossy(payload)
    }
}

/// The structured line for a barcode of type `t` carrying `payload`.
pub open spec fn barcode_line(t: u8, payload: Seq<u8>) -> Seq<char> {
    barcode_head() + decimal(t as nat) + barcode_mid() + payload_text(payload) + seq![']']
}

/// `n` empty lines.
pub open spec fn blank_lines(n: nat) -> Seq<Seq<char>> {
    Seq::new(n, |i: int| Seq::<char>::empty())
}

pub open spec fn is_printable(b: u8) -> bool {
    0x20 <= b <= 0x7E
}

/// The pending text becomes a completed line, formatted under the attributes in force.
pub open spec fn flush(m: PrinterModel, width: nat) -> PrinterModel {
    PrinterModel {
        fmt: m.fmt,
        line: Seq::empty(),
        out: m.out.push(format_text(m.fmt, width, m.line)),
    }
}

/// Lines appended after the completed ones; attributes and pending text stay.
pub open spec fn emit(m: PrinterModel, lines: Seq<Seq<char>>) -> PrinterModel {
    PrinterModel { fmt: m.fmt, line: m.line, out: m.out + lines }
}

pub open spec fn with_fmt(m: PrinterModel, f: FormattingState) -> PrinterModel {
    PrinterModel { fmt: f, line: m.line, out: m.out }
}

/// First position at or after `k` holding a zero byte, or the input length.
pub open spec fn zero_from(data: Seq<u8>, k: int) -> int
    decreases data.len() - k,
{
    if k < 0 || k >= data.len() {
        data.len() as int
    } else if data[k] == 0 {
        k
    } else {
        zero_from(data, k + 1)
    }
}

/// First position at or after `k` holding an ESC or GS byte, or the input length.
pub open spec fn prefix_from(data: Seq<u8>, k: int) -> int
    decreases data.len() - k,
{
    if k < 0 || k >= data.len() {
        data.len() as int
    } else if data[k] == ESC || data[k] == GS {
        k
    } else {
        prefix_from(data, k + 1)
    }
}

/// Escape opcodes that take one operand byte.
pub open spec fn esc_takes_operand(cmd: u8) -> bool {
    cmd == 0x21 || cmd == 0x45 || cmd == 0x2D || cmd == 0x61 || cmd == 0x64 || cmd == 0x4A
        || cmd == 0x33 || cmd == 0x4D || cmd == 0x47 || cmd == 0x56 || cmd == 0x7B
}

pub open spec fn alignment_of(n: u8) -> Alignment {
    if n == 1 {
        Alignment::Center
    } else if n == 2 {
        Alignment::Right
    } else {
        Alignment::Left
    }
}

/// Print mode bitmask: bit 3 bold, bit 4 double height, bit 5 double width,
/// bit 7 single underline.
pub open spec fn print_mode(f: FormattingState, n: u8) -> FormattingState {
    FormattingState {
        bold: n & 0x08 != 0,
        double_height: n & 0x10 != 0,
        double_width: n & 0x20 != 0,
        underline: if n & 0x80 != 0 {
            1
        } else {
            0
        },
        ..f
    }
}

/// Character size: bit 4 double width, bit 0 double height.
pub open spec fn character_size(f: FormattingState, n: u8) -> FormattingState {
    FormattingState { double_width: n & 0x10 != 0, double_height: n & 0x01 != 0, ..f }
}

/// Effect of an escape opcode `cmd` that takes the operand `n`.
pub open spec fn esc_apply(m: PrinterModel, width: nat, cmd: u8, n: u8) -> PrinterModel {
    if cmd == 0x21 {
        with_fmt(m, print_mode(m.fmt, n))
    } else if cmd == 0x45 {
        with_fmt(m, FormattingState { bold: n == 1, ..m.fmt })
    } else if cmd == 0x2D {
        with_fmt(m, FormattingState { underline: n, ..m.fmt })
    } else if cmd == 0x61 {
        with_fmt(m, FormattingState { alignment: alignment_of(n), ..m.fmt })
    } else if cmd == 0x64 {
        emit(flush(m, width), blank_lines(n as nat))
    } else if cmd == 0x4A {
        flush(m, width)
    } else {
        m
    }
}

/// An escape command whose opcode `cmd` was read; its operand, if any, is at `j`.
pub open spec fn esc_command(m: PrinterModel, width: nat, data: Seq<u8>, cmd: u8, j: int) -> (
    PrinterModel,
    int,
) {
    if cmd == 0x40 {
        (PrinterModel { fmt: default_formatting(), line: Seq::empty(), out: m.out }, j)
    } else if esc_takes_operand(cmd) && j < data.len() {
        (esc_apply(m, width, cmd, data[j]), j + 1)
    } else {
        (m, j)
    }
}

/// A cut, after the pending line was flushed; its mode byte, if any, is at `j`.
pub open spec fn cut(m: PrinterModel, data: Seq<u8>, j: int) -> (PrinterModel, int) {
    if j < data.len() {
        let c = data[j];
        if c == 0 || c == 48 {
            (emit(m, seq![full_rule()]), j + 1)
        } else if c == 1 || c == 49 {
            (emit(m, seq![dashed_rule()]), j + 1)
        } else if c == 65 || c == 66 {
            if j + 1 < data.len() {
                (emit(m, blank_lines(data[j + 1] as nat).push(full_rule())), j + 2)
            } else {
                (emit(m, seq![full_rule()]), j + 1)
            }
        } else {
            (m, j + 1)
        }
    } else {
        (m, j)
    }
}

/// A barcode command; its type byte, if any, is at `j`.
pub open spec fn barcode(m: PrinterModel, data: Seq<u8>, j: int) -> (PrinterModel, int) {
    if j < data.len() {
        let t = data[j];
        if t <= 6 {
            let e = zero_from(data, j + 1);
            (
                emit(m, seq![barcode_line(t, data.subrange(j + 1, e))]),
                if e < data.len() {
                    e + 1
                } else {
                    e
                },
            )
        } else if j + 1 < data.len() {
            let l = data[j + 1] as int;
            let e = if j + 2 + l < data.len() {
                j + 2 + l
            } else {
                data.len() as int
            };
            (emit(m, seq![barcode_line(t, data.subrange(j + 2, e))]), e)
        } else {
            (emit(m, seq![barcode_line(t, Seq::empty())]), j + 1)
        }
    } else {
        (m, j)
    }
}

/// A graphics command whose opcode `cmd` was read; its operand, if any, is at `j`.
pub open spec fn gs_command(m: PrinterModel, width: nat, data: Seq<u8>, cmd: u8, j: int) -> (
    PrinterModel,
    int,
) {
    let avail = j < data.len();
    if cmd == 0x56 {
        cut(flush(m, width), data, j)
    } else if cmd == 0x6B {
        barcode(m, data, j)
    } else if !avail {
        (m, j)
    } else if cmd == 0x21 {
        (with_fmt(m, character_size(m.fmt, data[j])), j + 1)
    } else if cmd == 0x42 {
        (with_fmt(m, FormattingState { inverse: data[j] == 1, ..m.fmt }), j + 1)
    } else if cmd == 0x68 || cmd == 0x77 || cmd == 0x48 {
        (m, j + 1)
    } else if cmd == 0x28 {
        if data[j] == 0x6B {
            (emit(m, seq![qr_placeholder()]), prefix_from(data, j + 1))
        } else {
            (m, j + 1)
        }
    } else {
        (m, j)
    }
}

/// One command or character starting at position `i`.
pub open spec fn step(m: PrinterModel, width: nat, data: Seq<u8>, i: int) -> (PrinterModel, int) {
    let b = data[i];
    if b == ESC {
        if i + 1 < data.len() {
            esc_command(m, width, data, data[i + 1], i + 2)
        } else {
            (m, i + 1)
        }
    } else if b == GS {
        if i + 1 < data.len() {
            gs_command(m, width, data, data[i + 1], i + 2)
        } else {
            (m, i + 1)
        }
    } else if b == LF || b == CR {
        (flush(m, width), i + 1)
    } else if is_printable(b) {
        (PrinterModel { fmt: m.fmt, line: m.line.push(b as char), out: m.out }, i + 1)
    } else {
        (m, i + 1)
    }
}

/// The model after every command from position `i` to the end of the input.
pub open spec fn run(m: PrinterModel, width: nat, data: Seq<u8>, i: int) -> PrinterModel
    decreases data.len() - i,
{
    if 0 <= i < data.len() {
        let (m2, k) = step(m, width, data, i);
        if i < k <= data.len() {
            run(m2, width, data, k)
        } else {
            m2
        }
    } else {
        m
    }
}

/// The lines a retrieval returns: the completed ones, then the pending text if any.
pub open spec fn output_of(m: PrinterModel, width: nat) -> Seq<Seq<char>> {
    if m.line.len() > 0 {
        m.out.push(format_text(m.fmt, width, m.line))
    } else {
        m.out
    }
}

pub open spec fn views(v: Seq<String>) -> Seq<Seq<char>> {
    v.map_values(|s: String| s@)
}

proof fn lemma_views_push(v: Seq<String>, s: String)
    ensures
        views(v.push(s)) == views(v).push(s@),
{
    assert(views(v.push(s)) =~= views(v).push(s@));
}

/// Decodes ESC/POS bytes into marker-annotated lines.
pub struct EscPosParser {
    width: usize,
    current_line: Vec<char>,
    output: Vec<String>,
    fmt: FormattingState,
}

/// `open`, then `inner`, then `close`.
fn surround(open: Vec<char>, inner: Vec<char>, close: Vec<char>) -> (r: Vec<char>)
    ensures
        r@ == open@ + inner@ + close@,
{
    let mut r = open;
    push_all(&mut r, &inner);
    push_all(&mut r, &close);
    r
}

fn full_rule_string() -> (r: String)
    ensures
        r@ == full_rule(),
{
    let mut r = String::new();
    let mut k: usize = 0;
    while k < RULE_WIDTH
        invariant
            k <= RULE_WIDTH,
            r@ == full_rule().take(k as int),
        decreases RULE_WIDTH - k,
    {
        push_char(&mut r, '═');
        k = k + 1;
        assert(full_rule().take(k as int) =~= full_rule().take(k - 1).push('═'));
    }
    assert(full_rule().take(k as int) =~= full_rule());
    r
}

fn dashed_rule_string() -> (r: String)
    ensures
        r@ == dashed_rule(),
{
    let mut r = String::new();
    let mut k: usize = 0;
    while k < RULE_WIDTH
        invariant
            k <= RULE_WIDTH,
            r@ == dashed_rule().take(k as int),
        decreases RULE_WIDTH - k,
    {
        let c = if k % 2 == 0 {
            '-'
        } else {
            ' '
        };
        push_char(&mut r, c);
        k = k + 1;
        assert(dashed_rule().take(k as int) =~= dashed_rule().take(k - 1).push(c));
    }
    assert(dashed_rule().take(k as int) =~= dashed_rule());
    r
}

fn barcode_string(t: u8, payload: &Vec<u8>) -> (r: String)
    ensures
        r@ == barcode_line(t, payload@),
{
    let mut v = vec!['[', 'B', 'A', 'R', 'C', 'O', 'D', 'E', ':', ' ', 'T', 'y', 'p', 'e', '='];
    assert(v@ =~= barcode_head());
    push_all(&mut v, &decimal_u8(t));
    let mid = vec![',', ' ', 'D', 'a', 't', 'a', '='];
    assert(mid@ =~= barcode_mid());
    push_all(&mut v, &mid);
    push_all(&mut v, &decode_lossy(payload.as_slice()));
    v.push(']');
    string_from_chars(&v)
}

impl EscPosParser {
    /// The decoder's state as a model.
    pub closed spec fn model(&self) -> PrinterModel {
        PrinterModel { fmt: self.fmt, line: self.current_line@, out: views(self.output@) }
    }

    /// Paper width in characters, used for alignment.
    pub closed spec fn paper_width(&self) -> nat {
        self.width as nat
    }

    /// A decoder with default attributes and nothing received yet.
    pub fn new(width: usize) -> (r: EscPosParser)
        ensures
            r.model() == fresh_model(),
            r.paper_width() == width,
    {
        let r = EscPosParser {
            width,
            current_line: Vec::new(),
            output: Vec::new(),
            fmt: FormattingState::new(),
        };
        assert(views(r.output@) =~= Seq::<Seq<char>>::empty());
        r
    }

    /// Decodes `data`, command by command, to its end.
    pub fn process(&mut self, data: &[u8])
        ensures
            final(self).paper_width() == old(self).paper_width(),
            final(self).model() == run(old(self).model(), old(self).paper_width(), data@, 0),
    {
        let mut i: usize = 0;
        while i < data.len()
            invariant
                i <= data@.len(),
                self.width == old(self).width,
                run(self.model(), self.width as nat, data@, i as int) == run(
                    old(self).model(),
                    old(self).width as nat,
                    data@,
                    0,
                ),
            decreases data@.len() - i,
        {
            i = self.process_byte(data, i);
        }
    }

    /// The completed lines, then the pending text formatted as a line if there is any.
    pub fn get_output(&self) -> (r: Vec<String>)
        ensures
            views(r@) == output_of(self.model(), self.paper_width()),
    {
        let mut result: Vec<String> = Vec::new();
        let mut k: usize = 0;
        while k < self.output.len()
            invariant
                k <= self.output@.len(),
                views(result@) == views(self.output@).take(k as int),
            decreases self.output@.len() - k,
        {
            let ghost prev = result@;
            result.push(self.output[k].clone());
            proof {
                lemma_views_push(prev, result@.last());
            }
            k = k + 1;
            assert(views(self.output@).take(k as int) =~= views(self.output@).take(k - 1).push(
                self.output@[k - 1]@,
            ));
            assert(views(result@) =~= views(self.output@).take(k as int));
        }
        assert(views(self.output@).take(k as int) =~= views(self.output@));
        if self.current_line.len() > 0 {
            let last = self.format_line(&self.current_line);
            result.push(string_from_chars(&last));
            assert(views(result@) =~= views(self.output@).push(last@));
        }
        result
    }

    /// Back to the state of a new decoder: default attributes, no text, no lines.
    pub fn clear(&mut self)
        ensures
            final(self).paper_width() == old(self).paper_width(),
            final(self).model() == fresh_model(),
    {
        self.current_line = Vec::new();
        self.output = Vec::new();
        self.reset_formatting();
        assert(views(self.output@) =~= Seq::<Seq<char>>::empty());
    }

    fn process_byte(&mut self, data: &[u8], i: usize) -> (k: usize)
        requires
            i < data@.len(),
        ensures
            final(self).width == old(self).width,
            (final(self).model(), k as int) == step(
                old(self).model(),
                old(self).width as nat,
                data@,
                i as int,
            ),
            i < k <= data@.len(),
    {
        let b = data[i];
        if b == ESC {
            if i + 1 < data.len() {
                self.process_esc_sequence(data, data[i + 1], i + 2)
            } else {
                i + 1
            }
        } else if b == GS {
            if i + 1 < data.len() {
                self.process_gs_sequence(data, data[i + 1], i + 2)
            } else {
                i + 1
            }
        } else if b == LF || b == CR {
            self.line_feed();
            i + 1
        } else if b >= 0x20 && b <= 0x7E {
            self.current_line.push(b as char);
            i + 1
        } else {
            i + 1
        }
    }

    fn process_esc_sequence(&mut self, data: &[u8], cmd: u8, j: usize) -> (k: usize)
        requires
            j <= data@.len(),
        ensures
            final(self).width == old(self).width,
            (final(self).model(), k as int) == esc_command(
                old(self).model(),
                old(self).width as nat,
                data@,
                cmd,
                j as int,
            ),
            j <= k <= data@.len(),
    {
        if cmd == 0x40 {
            self.init_printer();
            j
        } else if j < data.len() {
            let n = data[j];
            if cmd == 0x21 {
                self.set_print_mode(n);
            } else if cmd == 0x45 {
                self.set_emphasis(n);
            } else if cmd == 0x2D {
                self.set_underline(n);
            } else if cmd == 0x61 {
                self.set_justification(n);
            } else if cmd == 0x64 {
                self.print_and_feed_lines(n);
            } else if cmd == 0x4A {
                self.print_and_feed_dots();
            } else if cmd == 0x33 || cmd == 0x4D || cmd == 0x47 || cmd == 0x56 || cmd == 0x7B {
                // line spacing, font, double strike, rotation, upside down: not modelled
            } else {
                return j;
            }
            j + 1
        } else {
            j
        }
    }

    fn process_gs_sequence(&mut self, data: &[u8], cmd: u8, j: usize) -> (k: usize)
        requires
            j <= data@.len(),
        ensures
            final(self).width == old(self).width,
            (final(self).model(), k as int) == gs_command(
                old(self).model(),
                old(self).width as nat,
                data@,
                cmd,
                j as int,
            ),
            j <= k <= data@.len(),
    {
        if cmd == 0x56 {
            self.cut_paper(data, j)
        } else if cmd == 0x6B {
            self.print_barcode(data, j)
        } else if j >= data.len() {
            j
        } else if cmd == 0x21 {
            self.set_character_size(data[j]);
            j + 1
        } else if cmd == 0x42 {
            self.set_inverse(data[j]);
            j + 1
        } else if cmd == 0x68 || cmd == 0x77 || cmd == 0x48 {
            // barcode height, width and text position: not modelled
            j + 1
        } else if cmd == 0x28 {
            self.process_gs_group(data, j)
        } else {
            j
        }
    }

    fn init_printer(&mut self)
        ensures
            final(self).width == old(self).width,
            final(self).model() == (PrinterModel {
                fmt: default_formatting(),
                line: Seq::empty(),
                out: old(self).model().out,
            }),
    {
        self.reset_formatting();
        self.current_line = Vec::new();
    }

    fn reset_formatting(&mut self)
        ensures
            final(self).width == old(self).width,
            final(self).model() == with_fmt(old(self).model(), default_formatting()),
    {
        self.fmt = FormattingState::new();
    }

    fn set_print_mode(&mut self, n: u8)
        ensures
            final(self).width == old(self).width,
            final(self).model() == with_fmt(old(self).model(), print_mode(old(self).fmt, n)),
    {
        self.fmt.bold = n & 0x08 != 0;
        self.fmt.double_height = n & 0x10 != 0;
        self.fmt.double_width = n & 0x20 != 0;
        self.fmt.underline = if n & 0x80 != 0 {
            1
        } else {
            0
        };
    }

    fn set_emphasis(&mut self, n: u8)
        ensures
            final(self).width == old(self).width,
            final(self).model() == with_fmt(
                old(self).model(),
                FormattingState { bold: n == 1, ..old(self).fmt },
            ),
    {
        self.fmt.bold = n == 1;
    }

    fn set_underline(&mut self, n: u8)
        ensures
            final(self).width == old(self).width,
            final(self).model() == with_fmt(
                old(self).model(),
                FormattingState { underline: n, ..old(self).fmt },
            ),
    {
        self.fmt.underline = n;
    }

    fn set_justification(&mut self, n: u8)
        ensures
            final(self).width == old(self).width,
            final(self).model() == with_fmt(
                old(self).model(),
                FormattingState { alignment: alignment_of(n), ..old(self).fmt },
            ),
    {
        self.fmt.alignment = if n == 1 {
            Alignment::Center
        } else if n == 2 {
            Alignment::Right
        } else {
            Alignment::Left
        };
    }

    fn set_character_size(&mut self, n: u8)
        ensures
            final(self).width == old(self).width,
            final(self).model() == with_fmt(old(self).model(), character_size(old(self).fmt, n)),
    {
        self.fmt.double_width = n & 0x10 != 0;
        self.fmt.double_height = n & 0x01 != 0;
    }

    fn set_inverse(&mut self, n: u8)
        ensures
            final(self).width == old(self).width,
            final(self).model() == with_fmt(
                old(self).model(),
                FormattingState { inverse: n == 1, ..old(self).fmt },
            ),
    {
        self.fmt.inverse = n == 1;
    }

    fn print_and_feed_lines(&mut self, n: u8)
        ensures
            final(self).width == old(self).width,
            final(self).model() == emit(
                flush(old(self).model(), old(self).width as nat),
                blank_lines(n as nat),
            ),
    {
        self.line_feed();
        self.push_blank_lines(n);
    }

    fn print_and_feed_dots(&mut self)
        ensures
            final(self).width == old(self).width,
            final(self).model() == flush(old(self).model(), old(self).width as nat),
    {
        self.line_feed();
    }

    fn push_blank_lines(&mut self, n: u8)
        ensures
            final(self).width == old(self).width,
            final(self).model() == emit(old(self).model(), blank_lines(n as nat)),
    {
        let mut c: u8 = 0;
        while c < n
            invariant
                c <= n,
                self.width == old(self).width,
                self.model() == emit(old(self).model(), blank_lines(c as nat)),
            decreases n - c,
        {
            let ghost prev = self.output@;
            self.output.push(String::new());
            proof {
                lemma_views_push(prev, self.output@.last());
            }
            c = c + 1;
            assert(blank_lines(c as nat) =~= blank_lines((c - 1) as nat).push(Seq::empty()));
            assert(views(self.output@) =~= old(self).model().out + blank_lines(c as nat));
        }
    }

    fn push_line(&mut self, s: String)
        ensures
            final(self).width == old(self).width,
            final(self).model() == emit(old(self).model(), seq![s@]),
    {
        self.output.push(s);
        assert(views(self.output@) =~= old(self).model().out + seq![s@]);
    }

    fn print_barcode(&mut self, data: &[u8], j: usize) -> (k: usize)
        requires
            j <= data@.len(),
        ensures
            final(self).width == old(self).width,
            (final(self).model(), k as int) == barcode(old(self).model(), data@, j as int),
            j <= k <= data@.len(),
    {
        if j >= data.len() {
            return j;
        }
        let t = data[j];
        let mut payload: Vec<u8> = Vec::new();
        if t <= 6 {
            let mut e: usize = j + 1;
            while e < data.len() && data[e] != 0
                invariant
                    j + 1 <= e <= data@.len(),
                    zero_from(data@, e as int) == zero_from(data@, j + 1),
                    payload@ == data@.subrange(j + 1, e as int),
                decreases data@.len() - e,
            {
                payload.push(data[e]);
                e = e + 1;
                assert(payload@ =~= data@.subrange(j + 1, e as int));
            }
            self.push_line(barcode_string(t, &payload));
            if e < data.len() {
                e + 1
            } else {
                e
            }
        } else if j + 1 < data.len() {
            let l = data[j + 1] as usize;
            let end = if l < data.len() - (j + 2) {
                j + 2 + l
            } else {
                data.len()
            };
            let mut e: usize = j + 2;
            while e < end
                invariant
                    j + 2 <= e <= end <= data@.len(),
                    payload@ == data@.subrange(j + 2, e as int),
                decreases end - e,
            {
                payload.push(data[e]);
                e = e + 1;
                assert(payload@ =~= data@.subrange(j + 2, e as int));
            }
            self.push_line(barcode_string(t, &payload));
            end
        } else {
            assert(payload@ =~= Seq::<u8>::empty());
            self.push_line(barcode_string(t, &payload));
            j + 1
        }
    }

    fn process_gs_group(&mut self, data: &[u8], j: usize) -> (k: usize)
        requires
            j < data@.len(),
        ensures
            final(self).width == old(self).width,
            (final(self).model(), k as int) == gs_command(
                old(self).model(),
                old(self).width as nat,
                data@,
                0x28,
                j as int,
            ),
            j <= k <= data@.len(),
    {
        if data[j] == 0x6B {
            self.process_qr_code(data, j + 1)
        } else {
            j + 1
        }
    }

    fn process_qr_code(&mut self, data: &[u8], k: usize) -> (r: usize)
        requires
            k <= data@.len(),
        ensures
            final(self).width == old(self).width,
            final(self).model() == emit(old(self).model(), seq![qr_placeholder()]),
            r as int == prefix_from(data@, k as int),
            k <= r <= data@.len(),
    {
        let v = vec!['[', 'Q', 'R', ' ', 'C', 'O', 'D', 'E', ']'];
        assert(v@ =~= qr_placeholder());
        self.push_line(string_from_chars(&v));
        let mut e: usize = k;
        while e < data.len() && data[e] != ESC && data[e] != GS
            invariant
                k <= e <= data@.len(),
                prefix_from(data@, e as int) == prefix_from(data@, k as int),
            decreases data@.len() - e,
        {
            e = e + 1;
        }
        e
    }

    fn cut_paper(&mut self, data: &[u8], j: usize) -> (k: usize)
        requires
            j <= data@.len(),
        ensures
            final(self).width == old(self).width,
            (final(self).model(), k as int) == cut(
                flush(old(self).model(), old(self).width as nat),
                data@,
                j as int,
            ),
            j <= k <= data@.len(),
    {
        self.flush_current_line();
        if j >= data.len() {
            return j;
        }
        let ghost m = self.model();
        let c = data[j];
        if c == 0 || c == 48 {
            self.push_line(full_rule_string());
            j + 1
        } else if c == 1 || c == 49 {
            self.push_line(dashed_rule_string());
            j + 1
        } else if c == 65 || c == 66 {
            if j + 1 < data.len() {
                self.push_blank_lines(data[j + 1]);
                self.push_line(full_rule_string());
                let ghost bl = blank_lines(data@[j + 1] as nat);
                assert(m.out + bl + seq![full_rule()] =~= m.out + bl.push(full_rule()));
                j + 2
            } else {
                self.push_line(full_rule_string());
                j + 1
            }
        } else {
            j + 1
        }
    }

    fn line_feed(&mut self)
        ensures
            final(self).width == old(self).width,
            final(self).model() == flush(old(self).model(), old(self).width as nat),
    {
        self.flush_current_line();
    }

    fn flush_current_line(&mut self)
        ensures
            final(self).width == old(self).width,
            final(self).model() == flush(old(self).model(), old(self).width as nat),
    {
        let formatted = self.format_line(&self.current_line);
        self.output.push(string_from_chars(&formatted));
        self.current_line = Vec::new();
        assert(views(self.output@) =~= old(self).model().out.push(formatted@));
    }

    /// `text` wrapped in the markers of the attributes in force.
    fn wrap_line(&self, text: &Vec<char>) -> (r: Vec<char>)
        ensures
            r@ == wrap(self.fmt, text@),
    {
        let mut formatted: Vec<char> = Vec::new();
        push_all(&mut formatted, text);
        assert(formatted@ =~= text@);
        let ghost t = text@;
        let ghost f = self.fmt;
        if self.fmt.bold {
            formatted = surround(vec!['*', '*'], formatted, vec!['*', '*']);
        }
        assert(formatted@ =~= (if f.bold { bold_mark() + t + bold_mark() } else { t }));
        let ghost a = formatted@;
        if self.fmt.underline > 0 {
            formatted = surround(vec!['_', '_'], formatted, vec!['_', '_']);
        }
        assert(formatted@ =~= (if f.underline > 0 { underline_mark() + a + underline_mark() } else { a }));
        let ghost b = formatted@;
        if self.fmt.inverse {
            formatted = surround(vec!['[', 'I', 'N', 'V', ']'], formatted, vec!['[', '/', 'I', 'N', 'V', ']']);
        }
        assert(formatted@ =~= (if f.inverse { inverse_open() + b + inverse_close() } else { b }));
        let ghost c = formatted@;
        if self.fmt.double_width {
            formatted = surround(vec!['[', '2', 'W', ']'], formatted, vec!['[', '/', '2', 'W', ']']);
        }
        assert(formatted@ =~= (if f.double_width { wide_open() + c + wide_close() } else { c }));
        let ghost d = formatted@;
        if self.fmt.double_height {
            formatted = surround(vec!['[', '2', 'H', ']'], formatted, vec!['[', '/', '2', 'H', ']']);
        }
        assert(formatted@ =~= (if f.double_height { tall_open() + d + tall_close() } else { d }));
        formatted
    }

    /// `text` as an output line under the attributes in force.
    fn format_line(&self, text: &Vec<char>) -> (r: Vec<char>)
        ensures
            r@ == format_text(self.fmt, self.width as nat, text@),
    {
        let ghost f = self.fmt;
        let formatted = self.wrap_line(text);
        let display_len = self.calculate_display_length(&formatted);
        let pad: usize = match self.fmt.alignment {
            Alignment::Center => if self.width > display_len {
                (self.width - display_len) / 2
            } else {
                0
            },
            Alignment::Right => if self.width > formatted.len() {
                self.width - formatted.len()
            } else {
                0
            },
            Alignment::Left => 0,
        };
        assert(pad == padding(f.alignment, self.width as nat, formatted@));
        let mut r: Vec<char> = Vec::new();
        let mut k: usize = 0;
        while k < pad
            invariant
                k <= pad,
                r@ == spaces(k as nat),
            decreases pad - k,
        {
            r.push(' ');
            k = k + 1;
            assert(r@ =~= spaces(k as nat));
        }
        push_all(&mut r, &formatted);
        r
    }

    /// Number of characters of `text` once its style markers are removed.
    fn calculate_display_length(&self, text: &Vec<char>) -> (r: usize)
        ensures
            r == display_length(text@),
    {
        strip_style_markers_exec(text).len()
    }
}

/// Whether a GS `V` pair starts at some position before the last two bytes.
pub open spec fn has_cut_command(data: Seq<u8>) -> bool {
    exists|i: int| 0 <= i && i + 2 < data.len() && data[i] == GS && #[trigger] data[i + 1] == 0x56
}

/// Whether the bytes hold a cut command (GS `V`) starting before their last two bytes.
pub fn contains_cut_command(data: &[u8]) -> (r: bool)
    ensures
        r == has_cut_command(data@),
{
    let n = data.len();
    let limit: usize = if n >= 2 {
        n - 2
    } else {
        0
    };
    let mut i: usize = 0;
    while i < limit
        invariant
            i <= limit,
            n == data@.len(),
            limit == if n >= 2 { n - 2 } else { 0 },
            forall|j: int| 0 <= j < i ==> !(data@[j] == GS && #[trigger] data@[j + 1] == 0x56),
        decreases limit - i,
    {
        if data[i] == GS && data[i + 1] == 0x56 {
            return true;
        }
        i = i + 1;
    }
    false
}

} // verus!
