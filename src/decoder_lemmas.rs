//! Facts about the decoder's state machine that hold for every input.
use vstd::prelude::*;

use crate::escpos::{
    barcode_line, dashed_rule, output_of, emit, flush, fresh_model, full_rule, is_printable, prefix_from,
    qr_placeholder, run, step, zero_from, PrinterModel, CR, ESC, GS, LF,
};
use crate::format::{default_formatting, format_text, lemma_default_unmarked};
use crate::text::bytes_as_chars;

verus! {

/// Printable bytes from `i` to `k` only extend the pending text.
pub proof fn lemma_run_text(m: PrinterModel, width: nat, data: Seq<u8>, i: int, k: int)
    requires
        0 <= i <= k <= data.len(),
        forall|j: int| i <= j < k ==> is_printable(#[trigger] data[j]),
    ensures
        run(m, width, data, i) == run(
            PrinterModel {
                fmt: m.fmt,
                line: m.line + bytes_as_chars(data.subrange(i, k)),
                out: m.out,
            },
            width,
            data,
            k,
        ),
    decreases k - i,
{
    if i == k {
        assert(m.line + bytes_as_chars(data.subrange(i, k)) =~= m.line);
    } else {
        assert(is_printable(data[i]));
        let m1 = PrinterModel { fmt: m.fmt, line: m.line.push(data[i] as char), out: m.out };
        assert(step(m, width, data, i) == (m1, i + 1));
        lemma_run_text(m1, width, data, i + 1, k);
        assert(m1.line + bytes_as_chars(data.subrange(i + 1, k)) =~= m.line + bytes_as_chars(
            data.subrange(i, k),
        ));
    }
}

/// Printable text ended by one line feed, given to a fresh decoder, yields
/// exactly one line: the text itself, with no markers and no padding.
pub proof fn lemma_plain_text_line(width: nat, text: Seq<u8>)
    requires
        forall|j: int| 0 <= j < text.len() ==> is_printable(#[trigger] text[j]),
    ensures
        run(fresh_model(), width, text.push(LF), 0) == (PrinterModel {
            fmt: default_formatting(),
            line: Seq::empty(),
            out: seq![bytes_as_chars(text)],
        }),
{
    let data = text.push(LF);
    let n = text.len() as int;
    assert(data.subrange(0, n) =~= text);
    lemma_run_text(fresh_model(), width, data, 0, n);
    let m1 = PrinterModel {
        fmt: default_formatting(),
        line: Seq::empty() + bytes_as_chars(text),
        out: Seq::empty(),
    };
    assert(Seq::<char>::empty() + bytes_as_chars(text) =~= bytes_as_chars(text));
    lemma_default_unmarked(width, bytes_as_chars(text));
    assert(step(m1, width, data, n) == (flush(m1, width), n + 1));
    assert(run(flush(m1, width), width, data, n + 1) == flush(m1, width));
    assert(run(m1, width, data, n) == run(flush(m1, width), width, data, n + 1));
    assert(flush(m1, width).out =~= seq![bytes_as_chars(text)]);
    assert(flush(m1, width).line =~= Seq::<char>::empty());
}

/// The init command clears every attribute and the pending text, whatever
/// came before: printable text and a line feed after it give one unmarked line.
pub proof fn lemma_init_resets(m: PrinterModel, width: nat, text: Seq<u8>)
    requires
        forall|j: int| 0 <= j < text.len() ==> is_printable(#[trigger] text[j]),
    ensures
        run(m, width, seq![ESC, 0x40u8] + text + seq![LF], 0) == (PrinterModel {
            fmt: default_formatting(),
            line: Seq::empty(),
            out: m.out.push(bytes_as_chars(text)),
        }),
{
    let data = seq![ESC, 0x40u8] + text + seq![LF];
    let n = text.len() as int;
    let m0 = PrinterModel { fmt: default_formatting(), line: Seq::empty(), out: m.out };
    assert(data[0] == ESC && data[1] == 0x40u8);
    assert(step(m, width, data, 0) == (m0, 2int));
    assert forall|j: int| 2 <= j < 2 + n implies is_printable(#[trigger] data[j]) by {
        assert(data[j] == text[j - 2]);
    }
    lemma_run_text(m0, width, data, 2, 2 + n);
    assert(data.subrange(2, 2 + n) =~= text);
    let m1 = PrinterModel {
        fmt: default_formatting(),
        line: Seq::empty() + bytes_as_chars(text),
        out: m.out,
    };
    assert(Seq::<char>::empty() + bytes_as_chars(text) =~= bytes_as_chars(text));
    lemma_default_unmarked(width, bytes_as_chars(text));
    assert(data[2 + n] == LF);
    assert(step(m1, width, data, 2 + n) == (flush(m1, width), 3 + n));
    assert(run(flush(m1, width), width, data, 3 + n) == flush(m1, width));
    assert(run(m1, width, data, 2 + n) == run(flush(m1, width), width, data, 3 + n));
    assert(run(m, width, data, 0) == run(m0, width, data, 2));
}

/// Each line feed or carriage return completes exactly one line.
pub proof fn lemma_line_feed_one_line(m: PrinterModel, width: nat, data: Seq<u8>, i: int)
    requires
        0 <= i < data.len(),
        data[i] == LF || data[i] == CR,
    ensures
        step(m, width, data, i) == (flush(m, width), i + 1),
        flush(m, width).out.len() == m.out.len() + 1,
        flush(m, width).out.last() == format_text(m.fmt, width, m.line),
{
}

/// Two line feeds give two lines, the second with no text; under default
/// attributes that second line is empty.
pub proof fn lemma_two_line_feeds(m: PrinterModel, width: nat)
    ensures
        run(m, width, seq![LF, LF], 0).out == m.out + seq![
            format_text(m.fmt, width, m.line),
            format_text(m.fmt, width, Seq::empty()),
        ],
        m.fmt == default_formatting() ==> run(m, width, seq![LF, LF], 0).out.last().len() == 0,
{
    let data = seq![LF, LF];
    let m1 = flush(m, width);
    assert(step(m, width, data, 0) == (m1, 1int));
    let m2 = flush(m1, width);
    assert(step(m1, width, data, 1) == (m2, 2int));
    assert(run(m2, width, data, 2) == m2);
    assert(run(m1, width, data, 1) == run(m2, width, data, 2));
    assert(run(m, width, data, 0) == run(m1, width, data, 1));
    assert(m2.out =~= m.out + seq![
        format_text(m.fmt, width, m.line),
        format_text(m.fmt, width, Seq::empty()),
    ]);
    lemma_default_unmarked(width, Seq::empty());
}

/// A full cut flushes the pending text, then adds the double-line separator;
/// a partial cut adds the dashed one.
pub proof fn lemma_cut_separators(m: PrinterModel, width: nat, data: Seq<u8>, i: int)
    requires
        0 <= i,
        i + 3 <= data.len(),
        data[i] == GS,
        data[i + 1] == 0x56,
    ensures
        (data[i + 2] == 0 || data[i + 2] == 48) ==> step(m, width, data, i) == (
            emit(flush(m, width), seq![full_rule()]),
            i + 3,
        ),
        (data[i + 2] == 1 || data[i + 2] == 49) ==> step(m, width, data, i) == (
            emit(flush(m, width), seq![dashed_rule()]),
            i + 3,
        ),
{
}

/// Printable text followed by a cut, given to a fresh decoder, yields the
/// text as a line and then the separator: the double line for a full cut
/// (mode 0 or 48), the dashed one for a partial cut (mode 1 or 49).
pub proof fn lemma_text_then_cut(width: nat, text: Seq<u8>, mode: u8)
    requires
        forall|j: int| 0 <= j < text.len() ==> is_printable(#[trigger] text[j]),
        mode == 0 || mode == 48 || mode == 1 || mode == 49,
    ensures
        run(fresh_model(), width, text + seq![GS, 0x56u8, mode], 0) == (PrinterModel {
            fmt: default_formatting(),
            line: Seq::empty(),
            out: seq![
                bytes_as_chars(text),
                if mode == 0 || mode == 48 {
                    full_rule()
                } else {
                    dashed_rule()
                },
            ],
        }),
        output_of(run(fresh_model(), width, text + seq![GS, 0x56u8, mode], 0), width) == seq![
            bytes_as_chars(text),
            if mode == 0 || mode == 48 {
                full_rule()
            } else {
                dashed_rule()
            },
        ],
{
    let data = text + seq![GS, 0x56u8, mode];
    let n = text.len() as int;
    assert forall|j: int| 0 <= j < n implies is_printable(#[trigger] data[j]) by {
        assert(data[j] == text[j]);
    }
    assert(data.subrange(0, n) =~= text);
    lemma_run_text(fresh_model(), width, data, 0, n);
    let m1 = PrinterModel {
        fmt: default_formatting(),
        line: Seq::empty() + bytes_as_chars(text),
        out: Seq::empty(),
    };
    assert(Seq::<char>::empty() + bytes_as_chars(text) =~= bytes_as_chars(text));
    lemma_default_unmarked(width, bytes_as_chars(text));
    assert(data[n] == GS && data[n + 1] == 0x56u8 && data[n + 2] == mode);
    lemma_cut_separators(m1, width, data, n);
    let rule = if mode == 0 || mode == 48 {
        full_rule()
    } else {
        dashed_rule()
    };
    let m2 = emit(flush(m1, width), seq![rule]);
    assert(step(m1, width, data, n) == (m2, n + 3));
    assert(run(m2, width, data, n + 3) == m2);
    assert(run(m1, width, data, n) == run(m2, width, data, n + 3));
    assert(m2.out =~= seq![bytes_as_chars(text), rule]);
    assert(m2.line =~= Seq::<char>::empty());
}

proof fn lemma_zero_from(data: Seq<u8>, k: int, e: int)
    requires
        0 <= k <= e < data.len(),
        data[e] == 0,
        forall|j: int| k <= j < e ==> data[j] != 0,
    ensures
        zero_from(data, k) == e,
    decreases e - k,
{
    if k < e {
        lemma_zero_from(data, k + 1, e);
    }
}

/// A barcode of type 0 to 6 carries exactly the bytes before its zero terminator,
/// and the terminator is consumed.
pub proof fn lemma_barcode_terminated(m: PrinterModel, width: nat, data: Seq<u8>, i: int, n: int)
    requires
        0 <= i,
        0 <= n,
        i + 4 + n <= data.len(),
        data[i] == GS,
        data[i + 1] == 0x6B,
        data[i + 2] <= 6,
        data[i + 3 + n] == 0,
        forall|j: int| i + 3 <= j < i + 3 + n ==> data[j] != 0,
    ensures
        step(m, width, data, i) == (
            emit(m, seq![barcode_line(data[i + 2], data.subrange(i + 3, i + 3 + n))]),
            i + 4 + n,
        ),
{
    lemma_zero_from(data, i + 3, i + 3 + n);
}

/// A barcode of type above 6 carries exactly the `L` bytes after its length byte `L`.
pub proof fn lemma_barcode_counted(m: PrinterModel, width: nat, data: Seq<u8>, i: int)
    requires
        0 <= i,
        i + 4 <= data.len(),
        data[i] == GS,
        data[i + 1] == 0x6B,
        data[i + 2] > 6,
        i + 4 + data[i + 3] <= data.len(),
    ensures
        step(m, width, data, i) == (
            emit(
                m,
                seq![barcode_line(data[i + 2], data.subrange(i + 4, i + 4 + data[i + 3]))],
            ),
            i + 4 + data[i + 3],
        ),
{
}

proof fn lemma_prefix_from(data: Seq<u8>, k: int)
    requires
        0 <= k <= data.len(),
    ensures
        k <= prefix_from(data, k) <= data.len(),
        forall|j: int| k <= j < prefix_from(data, k) ==> data[j] != ESC && data[j] != GS,
        prefix_from(data, k) < data.len() ==> (data[prefix_from(data, k)] == ESC
            || data[prefix_from(data, k)] == GS),
    decreases data.len() - k,
{
    if k < data.len() && data[k] != ESC && data[k] != GS {
        lemma_prefix_from(data, k + 1);
    }
}

/// A two-dimensional symbol command gives exactly one placeholder line and
/// skips its data up to, not including, the next ESC or GS byte.
pub proof fn lemma_qr_placeholder(m: PrinterModel, width: nat, data: Seq<u8>, i: int)
    requires
        0 <= i,
        i + 3 <= data.len(),
        data[i] == GS,
        data[i + 1] == 0x28,
        data[i + 2] == 0x6B,
    ensures
        step(m, width, data, i).0 == emit(m, seq![qr_placeholder()]),
        i + 3 <= step(m, width, data, i).1 <= data.len(),
        forall|j: int| i + 3 <= j < step(m, width, data, i).1 ==> data[j] != ESC && data[j] != GS,
        step(m, width, data, i).1 < data.len() ==> (data[step(m, width, data, i).1] == ESC
            || data[step(m, width, data, i).1] == GS),
{
    lemma_prefix_from(data, i + 3);
}

/// `m` with the lines `l` put before its completed lines.
pub open spec fn after_lines(l: Seq<Seq<char>>, m: PrinterModel) -> PrinterModel {
    PrinterModel { fmt: m.fmt, line: m.line, out: l + m.out }
}

proof fn lemma_step_after_lines(l: Seq<Seq<char>>, m: PrinterModel, width: nat, data: Seq<u8>, i: int)
    requires
        0 <= i < data.len(),
    ensures
        step(after_lines(l, m), width, data, i) == (
            after_lines(l, step(m, width, data, i).0),
            step(m, width, data, i).1,
        ),
{
    let m2 = step(m, width, data, i).0;
    let lm2 = step(after_lines(l, m), width, data, i).0;
    assert(lm2.out =~= l + m2.out);
}

/// Lines already completed do not change how the rest of the input decodes.
pub proof fn lemma_run_after_lines(l: Seq<Seq<char>>, m: PrinterModel, width: nat, data: Seq<u8>, i: int)
    requires
        0 <= i <= data.len(),
    ensures
        run(after_lines(l, m), width, data, i) == after_lines(l, run(m, width, data, i)),
    decreases data.len() - i,
{
    if i < data.len() {
        lemma_step_after_lines(l, m, width, data, i);
        let (m2, k) = step(m, width, data, i);
        if i < k <= data.len() {
            lemma_run_after_lines(l, m2, width, data, k);
        }
    }
}

proof fn lemma_scans_shift(a: Seq<u8>, b: Seq<u8>, k: int)
    requires
        0 <= k <= b.len(),
    ensures
        zero_from(a + b, a.len() + k) == zero_from(b, k) + a.len(),
        prefix_from(a + b, a.len() + k) == prefix_from(b, k) + a.len(),
        k <= zero_from(b, k) <= b.len(),
        k <= prefix_from(b, k) <= b.len(),
    decreases b.len() - k,
{
    if k < b.len() {
        assert((a + b)[a.len() + k] == b[k]);
        lemma_scans_shift(a, b, k + 1);
    }
}

proof fn lemma_step_shift(m: PrinterModel, width: nat, a: Seq<u8>, b: Seq<u8>, i: int)
    requires
        0 <= i < b.len(),
    ensures
        step(m, width, a + b, a.len() + i) == (step(m, width, b, i).0, step(m, width, b, i).1
            + a.len()),
{
    let d = a + b;
    let n = a.len() as int;
    assert forall|x: int| 0 <= x < b.len() implies #[trigger] d[n + x] == b[x] by {}
    assert forall|x: int, y: int| 0 <= x <= y <= b.len() implies #[trigger] d.subrange(n + x, n + y)
        == b.subrange(x, y) by {
        assert(d.subrange(n + x, n + y) =~= b.subrange(x, y));
    }
    if i + 3 <= b.len() {
        lemma_scans_shift(a, b, i + 3);
    }
    if i + 2 <= b.len() {
        lemma_scans_shift(a, b, i + 2);
    }
    if b[i] == GS && i + 2 < b.len() && b[i + 1] == 0x6B {
        let j = i + 2;
        if b[j] <= 6 {
            let e = zero_from(b, j + 1);
            assert(d.subrange(n + j + 1, n + e) == b.subrange(j + 1, e));
        } else if j + 1 < b.len() {
            let l = b[j + 1] as int;
            let e = if j + 2 + l < b.len() { j + 2 + l } else { b.len() as int };
            assert(d.subrange(n + j + 2, n + e) == b.subrange(j + 2, e));
        }
        assert(step(m, width, d, n + i) == (step(m, width, b, i).0, step(m, width, b, i).1 + n));
    }
}

/// How the input decodes from a position after a prefix does not depend on the prefix.
pub proof fn lemma_run_shift(m: PrinterModel, width: nat, a: Seq<u8>, b: Seq<u8>, i: int)
    requires
        0 <= i <= b.len(),
    ensures
        run(m, width, a + b, a.len() + i) == run(m, width, b, i),
    decreases b.len() - i,
{
    if i < b.len() {
        lemma_step_shift(m, width, a, b, i);
        let (m2, k) = step(m, width, b, i);
        if i < k <= b.len() {
            lemma_run_shift(m2, width, a, b, k);
        }
    }
}

proof fn lemma_then_rest(
    width: nat,
    prefix: Seq<u8>,
    rest: Seq<u8>,
    lines: Seq<Seq<char>>,
)
    requires
        prefix.len() > 0,
        step(fresh_model(), width, prefix + rest, 0) == (
            emit(fresh_model(), lines),
            prefix.len() as int,
        ),
    ensures
        run(fresh_model(), width, prefix + rest, 0) == after_lines(
            lines,
            run(fresh_model(), width, rest, 0),
        ),
        output_of(run(fresh_model(), width, prefix + rest, 0), width) == lines + output_of(
            run(fresh_model(), width, rest, 0),
            width,
        ),
{
    let m1 = emit(fresh_model(), lines);
    assert(m1 == after_lines(lines, fresh_model())) by {
        assert(m1.out =~= lines + fresh_model().out);
    }
    lemma_run_shift(m1, width, prefix, rest, 0);
    lemma_run_after_lines(lines, fresh_model(), width, rest, 0);
    let r = run(fresh_model(), width, rest, 0);
    assert((lines + r.out).push(format_text(r.fmt, width, r.line)) =~= lines + r.out.push(
        format_text(r.fmt, width, r.line),
    ));
}

/// A barcode of type 0 to 6 given to a fresh decoder: one line carrying
/// exactly the bytes before the zero terminator, then whatever the bytes
/// after the terminator give by themselves.
pub proof fn lemma_barcode_terminated_then_rest(
    width: nat,
    t: u8,
    payload: Seq<u8>,
    rest: Seq<u8>,
)
    requires
        t <= 6,
        forall|j: int| 0 <= j < payload.len() ==> #[trigger] payload[j] != 0,
    ensures
        run(fresh_model(), width, seq![GS, 0x6Bu8, t] + payload + seq![0u8] + rest, 0)
            == after_lines(seq![barcode_line(t, payload)], run(fresh_model(), width, rest, 0)),
        output_of(
            run(fresh_model(), width, seq![GS, 0x6Bu8, t] + payload + seq![0u8] + rest, 0),
            width,
        ) == seq![barcode_line(t, payload)] + output_of(run(fresh_model(), width, rest, 0), width),
{
    let prefix = seq![GS, 0x6Bu8, t] + payload + seq![0u8];
    let data = prefix + rest;
    let n = payload.len() as int;
    assert(seq![GS, 0x6Bu8, t] + payload + seq![0u8] + rest =~= data);
    assert forall|j: int| 3 <= j < 3 + n implies data[j] != 0 by {
        assert(data[j] == payload[j - 3]);
    }
    assert(data[0] == GS && data[1] == 0x6Bu8 && data[2] == t && data[3 + n] == 0);
    lemma_barcode_terminated(fresh_model(), width, data, 0, n);
    assert(data.subrange(3, 3 + n) =~= payload);
    lemma_then_rest(width, prefix, rest, seq![barcode_line(t, payload)]);
}

/// A barcode of type above 6 given to a fresh decoder: one line carrying
/// exactly the `L` bytes after the length byte `L`, then whatever the bytes
/// after them give by themselves.
pub proof fn lemma_barcode_counted_then_rest(width: nat, t: u8, payload: Seq<u8>, rest: Seq<u8>)
    requires
        t > 6,
        payload.len() <= 255,
    ensures
        run(
            fresh_model(),
            width,
            seq![GS, 0x6Bu8, t, payload.len() as u8] + payload + rest,
            0,
        ) == after_lines(seq![barcode_line(t, payload)], run(fresh_model(), width, rest, 0)),
        output_of(
            run(
                fresh_model(),
                width,
                seq![GS, 0x6Bu8, t, payload.len() as u8] + payload + rest,
                0,
            ),
            width,
        ) == seq![barcode_line(t, payload)] + output_of(run(fresh_model(), width, rest, 0), width),
{
    let prefix = seq![GS, 0x6Bu8, t, payload.len() as u8] + payload;
    let data = prefix + rest;
    let n = payload.len() as int;
    assert(seq![GS, 0x6Bu8, t, payload.len() as u8] + payload + rest =~= data);
    assert(data[0] == GS && data[1] == 0x6Bu8 && data[2] == t && data[3] == n);
    lemma_barcode_counted(fresh_model(), width, data, 0);
    assert(data.subrange(4, 4 + n) =~= payload);
    lemma_then_rest(width, prefix, rest, seq![barcode_line(t, payload)]);
}

/// A two-dimensional symbol command given to a fresh decoder: one
/// placeholder line, its data skipped up to the next ESC or GS byte, which
/// decodes with the rest as by itself.
pub proof fn lemma_qr_then_rest(width: nat, body: Seq<u8>, rest: Seq<u8>)
    requires
        forall|j: int| 0 <= j < body.len() ==> #[trigger] body[j] != ESC && body[j] != GS,
        rest.len() == 0 || rest[0] == ESC || rest[0] == GS,
    ensures
        run(fresh_model(), width, seq![GS, 0x28u8, 0x6Bu8] + body + rest, 0) == after_lines(
            seq![qr_placeholder()],
            run(fresh_model(), width, rest, 0),
        ),
        output_of(run(fresh_model(), width, seq![GS, 0x28u8, 0x6Bu8] + body + rest, 0), width)
            == seq![qr_placeholder()] + output_of(run(fresh_model(), width, rest, 0), width),
{
    let prefix = seq![GS, 0x28u8, 0x6Bu8] + body;
    let data = prefix + rest;
    let n = body.len() as int;
    assert(seq![GS, 0x28u8, 0x6Bu8] + body + rest =~= data);
    assert(data[0] == GS && data[1] == 0x28u8 && data[2] == 0x6Bu8);
    lemma_qr_placeholder(fresh_model(), width, data, 0);
    let pos = step(fresh_model(), width, data, 0).1;
    assert forall|j: int| 3 <= j < 3 + n implies data[j] != ESC && data[j] != GS by {
        assert(data[j] == body[j - 3]);
    }
    if pos < 3 + n {
        assert(data[pos] != ESC && data[pos] != GS);
    }
    if pos > 3 + n {
        assert(data[3 + n] == rest[0]);
    }
    assert(pos == 3 + n);
    lemma_then_rest(width, prefix, rest, seq![qr_placeholder()]);
}

pub open spec fn is_break(b: u8) -> bool {
    b == LF || b == CR
}

/// Text bytes split at each line break, starting with the pending text `cur`:
/// the segment before each break, and the segment after the last one.
pub open spec fn split_lines(cur: Seq<char>, rest: Seq<u8>) -> (Seq<Seq<char>>, Seq<char>)
    decreases rest.len(),
{
    if rest.len() == 0 {
        (Seq::empty(), cur)
    } else if is_break(rest[0]) {
        let (d, t) = split_lines(Seq::empty(), rest.skip(1));
        (seq![cur] + d, t)
    } else {
        split_lines(cur.push(rest[0] as char), rest.skip(1))
    }
}

proof fn lemma_run_split(m: PrinterModel, width: nat, data: Seq<u8>, i: int)
    requires
        0 <= i <= data.len(),
        m.fmt == default_formatting(),
        forall|j: int| i <= j < data.len() ==> is_printable(#[trigger] data[j]) || is_break(data[j]),
    ensures
        run(m, width, data, i) == (PrinterModel {
            fmt: default_formatting(),
            line: split_lines(m.line, data.skip(i)).1,
            out: m.out + split_lines(m.line, data.skip(i)).0,
        }),
    decreases data.len() - i,
{
    let r = data.skip(i);
    if i == data.len() {
        assert(r.len() == 0);
        assert(m.out + Seq::<Seq<char>>::empty() =~= m.out);
    } else {
        assert(r[0] == data[i]);
        assert(r.skip(1) =~= data.skip(i + 1));
        if is_break(data[i]) {
            lemma_default_unmarked(width, m.line);
            let m1 = flush(m, width);
            assert(step(m, width, data, i) == (m1, i + 1));
            lemma_run_split(m1, width, data, i + 1);
            let d = split_lines(Seq::empty(), data.skip(i + 1)).0;
            assert(m1.out + d =~= m.out + (seq![m.line] + d));
        } else {
            let m1 = PrinterModel { fmt: m.fmt, line: m.line.push(data[i] as char), out: m.out };
            assert(step(m, width, data, i) == (m1, i + 1));
            lemma_run_split(m1, width, data, i + 1);
        }
    }
}

/// Printable text and line breaks, given to a fresh decoder, give the text
/// split at each break: one line per break, the segment before it, an empty
/// one for two breaks in a row; what follows the last break stays pending
/// and is reported as a last line only if it is not empty.
pub proof fn lemma_lines_split_at_breaks(width: nat, data: Seq<u8>)
    requires
        forall|j: int| 0 <= j < data.len() ==> is_printable(#[trigger] data[j]) || is_break(data[j]),
    ensures
        run(fresh_model(), width, data, 0).out == split_lines(Seq::empty(), data).0,
        run(fresh_model(), width, data, 0).line == split_lines(Seq::empty(), data).1,
        output_of(run(fresh_model(), width, data, 0), width) == if split_lines(
            Seq::empty(),
            data,
        ).1.len() > 0 {
            split_lines(Seq::empty(), data).0.push(split_lines(Seq::empty(), data).1)
        } else {
            split_lines(Seq::empty(), data).0
        },
{
    assert(data.skip(0) =~= data);
    lemma_run_split(fresh_model(), width, data, 0);
    assert(Seq::<Seq<char>>::empty() + split_lines(Seq::empty(), data).0 =~= split_lines(
        Seq::empty(),
        data,
    ).0);
    lemma_default_unmarked(width, split_lines(Seq::empty(), data).1);
}

} // verus!
