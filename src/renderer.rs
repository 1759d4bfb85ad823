//! Turns marker-annotated lines into styled terminal text or plain text.
use vstd::prelude::*;

use crate::escpos::qr_placeholder;
use crate::format::{
    inverse_close, inverse_open, strip_fully, strip_style_markers_fully, tall_close, tall_open, wide_close,
    wide_open,
};
use crate::text::{chars_of_str, occurs_at, occurs_at_exec, push_all, replace_all, replace_all_exec, string_from_chars};

use colored::Colorize;

verus! {

/// A piece of a marked line, as the styled rendering reads it.
pub enum Token {
    Text(Seq<char>),
    Bold(Seq<char>),
    Underline(Seq<char>),
    InverseOn,
    InverseOff,
    WideOn,
    WideOff,
    TallOn,
    TallOff,
    Barcode(Seq<char>),
    Qr,
    Rule(char),
}

pub open spec fn barcode_prefix() -> Seq<char> {
    seq!['[', 'B', 'A', 'R', 'C', 'O', 'D', 'E', ':']
}

/// The glyph run shown for a two-dimensional symbol.
pub open spec fn qr_glyph() -> Seq<char> {
    seq!['█', '▀', '▀', '▀', '▀', '▀', '█']
}

/// Offset from `i` of the first `]` within a bracket token of at most ten
/// characters starting at `i`, looking from offset `k`; -1 if there is none.
pub open spec fn close_at(s: Seq<char>, i: int, k: int) -> int
    decreases 10 - k,
{
    if k < 1 || k > 9 || i + k >= s.len() {
        -1
    } else if s[i + k] == ']' {
        k
    } else {
        close_at(s, i, k + 1)
    }
}

/// First position at or after `k` where `c` appears twice in a row; -1 if none.
pub open spec fn pair_at(s: Seq<char>, c: char, k: int) -> int
    decreases s.len() - k,
{
    if k < 0 || k + 1 >= s.len() {
        -1
    } else if s[k] == c && s[k + 1] == c {
        k
    } else {
        pair_at(s, c, k + 1)
    }
}

/// The known marker spelled by the bracket token `s[i..i + k + 1]`, if any.
pub open spec fn marker_token(s: Seq<char>, i: int, k: int) -> Option<Token> {
    let n = k + 1;
    if n == inverse_open().len() && occurs_at(s, i, inverse_open()) {
        Some(Token::InverseOn)
    } else if n == inverse_close().len() && occurs_at(s, i, inverse_close()) {
        Some(Token::InverseOff)
    } else if n == wide_open().len() && occurs_at(s, i, wide_open()) {
        Some(Token::WideOn)
    } else if n == wide_close().len() && occurs_at(s, i, wide_close()) {
        Some(Token::WideOff)
    } else if n == tall_open().len() && occurs_at(s, i, tall_open()) {
        Some(Token::TallOn)
    } else if n == tall_close().len() && occurs_at(s, i, tall_close()) {
        Some(Token::TallOff)
    } else if n >= barcode_prefix().len() && occurs_at(s, i, barcode_prefix()) {
        Some(Token::Barcode(s.subrange(i, i + n)))
    } else if n == qr_placeholder().len() && occurs_at(s, i, qr_placeholder()) {
        Some(Token::Qr)
    } else {
        None
    }
}

/// The token starting at `i`, and the position after it.
pub open spec fn token_at(s: Seq<char>, i: int) -> (Token, int) {
    let c = s[i];
    if c == '[' {
        let k = close_at(s, i, 1);
        if k > 0 && marker_token(s, i, k) is Some {
            (marker_token(s, i, k)->0, i + k + 1)
        } else {
            (Token::Text(seq!['[']), i + 1)
        }
    } else if (c == '*' || c == '_') && i + 1 < s.len() && s[i + 1] == c {
        let e = pair_at(s, c, i + 2);
        if e >= 0 {
            (
                if c == '*' {
                    Token::Bold(s.subrange(i + 2, e))
                } else {
                    Token::Underline(s.subrange(i + 2, e))
                },
                e + 2,
            )
        } else {
            (Token::Text(s.subrange(i, s.len() as int)), s.len() as int)
        }
    } else if c == '═' || c == '─' {
        (Token::Rule(c), i + 1)
    } else {
        (Token::Text(seq![c]), i + 1)
    }
}

/// The tokens of `s` from position `i` on.
pub open spec fn tokens_from(s: Seq<char>, i: int) -> Seq<Token>
    decreases s.len() - i,
{
    if 0 <= i < s.len() {
        let (t, e) = token_at(s, i);
        if i < e <= s.len() {
            seq![t] + tokens_from(s, e)
        } else {
            seq![t]
        }
    } else {
        Seq::empty()
    }
}

/// The ANSI sequence that resets every style.
pub open spec fn reset_seq() -> Seq<char> {
    seq!['\x1b', '[', '0', 'm']
}

/// `x` holds a reset sequence somewhere.
pub open spec fn holds_reset(x: Seq<char>) -> bool {
    exists|i: int| occurs_at(x, i, reset_seq())
}

/// `p` opens with an ANSI style sequence and ends with a reset.
pub open spec fn ansi_framed(p: Seq<char>) -> bool {
    p.len() >= 7 && p[0] == '\x1b' && p[1] == '[' && p.skip(p.len() - 4) == reset_seq()
}

/// Style codes of the bold style.
pub open spec fn bold_code() -> Seq<char> {
    seq!['1']
}

/// Style codes of the underline style.
pub open spec fn underline_code() -> Seq<char> {
    seq!['4']
}

/// Style codes of black on a white background.
pub open spec fn reverse_code() -> Seq<char> {
    seq!['4', '7', ';', '3', '0']
}

/// Style codes of bright blue text.
pub open spec fn bright_blue_code() -> Seq<char> {
    seq!['9', '4']
}

/// Style codes of bright black text.
pub open spec fn bright_black_code() -> Seq<char> {
    seq!['9', '0']
}

/// Style codes of bright white text.
pub open spec fn bright_white_code() -> Seq<char> {
    seq!['9', '7']
}

/// `p` is `x` itself (colouring off), or `x` in the style with codes `code`:
/// exactly `ESC [` code `m`, `x`, reset, where `x` holds no reset of its own;
/// where it does, framed by a style sequence and a reset.
pub open spec fn styled(code: Seq<char>, x: Seq<char>, p: Seq<char>) -> bool {
    p == x || (if holds_reset(x) {
        ansi_framed(p)
    } else {
        p == seq!['\x1b', '['] + code + seq!['m'] + x + reset_seq()
    })
}

/// `p` is an acceptable rendering of the token `t` by itself; an attribute
/// marker shows nothing.
pub open spec fn base_ok(t: Token, p: Seq<char>) -> bool {
    match t {
        Token::Text(x) => p == x,
        Token::Bold(x) => styled(bold_code(), x, p),
        Token::Underline(x) => styled(underline_code(), x, p),
        Token::Barcode(x) => styled(bright_blue_code(), x, p),
        Token::Qr => styled(bright_black_code(), qr_glyph(), p),
        Token::Rule(c) => styled(bright_white_code(), seq![c], p),
        _ => p.len() == 0,
    }
}

/// Which attribute marker a token is: 1 and 2 open and close inverse, 3 and
/// 4 double width, 5 and 6 double height; 0 for any other token.
pub open spec fn toggle_code(t: Token) -> u8 {
    match t {
        Token::InverseOn => 1,
        Token::InverseOff => 2,
        Token::WideOn => 3,
        Token::WideOff => 4,
        Token::TallOn => 5,
        Token::TallOff => 6,
        _ => 0,
    }
}

/// Attributes in force: inverse, double width, double height.
pub open spec fn apply_mode(m: (bool, bool, bool), t: Token) -> (bool, bool, bool) {
    let c = toggle_code(t);
    if c == 1 || c == 2 {
        (c == 1, m.1, m.2)
    } else if c == 3 || c == 4 {
        (m.0, c == 3, m.2)
    } else if c == 5 || c == 6 {
        (m.0, m.1, c == 5)
    } else {
        m
    }
}

/// Attributes in force before the `j`-th token.
pub open spec fn mode_before(ts: Seq<Token>, j: int) -> (bool, bool, bool)
    decreases j,
{
    if j <= 0 || j > ts.len() {
        (false, false, false)
    } else {
        apply_mode(mode_before(ts, j - 1), ts[j - 1])
    }
}

/// `p` is `q` shown under the attributes `m`: in reverse video where inverse
/// is on, else bold where double width or height is on.
pub open spec fn layer_ok(m: (bool, bool, bool), q: Seq<char>, p: Seq<char>) -> bool {
    if m.0 {
        styled(reverse_code(), q, p)
    } else if m.1 || m.2 {
        styled(bold_code(), q, p)
    } else {
        p == q
    }
}

/// `p` is an acceptable rendering of the token `t` under the attributes `m`.
pub open spec fn piece_ok(t: Token, m: (bool, bool, bool), p: Seq<char>) -> bool {
    if toggle_code(t) != 0 {
        p.len() == 0
    } else {
        exists|q: Seq<char>| #[trigger] base_ok(t, q) && layer_ok(m, q, p)
    }
}

/// The pieces one after the other.
pub open spec fn concat_all(p: Seq<Seq<char>>) -> Seq<char>
    decreases p.len(),
{
    if p.len() == 0 {
        Seq::empty()
    } else {
        concat_all(p.drop_last()) + p.last()
    }
}

/// `r` renders the tokens `ts`, one piece for each.
pub open spec fn renders(ts: Seq<Token>, r: Seq<char>) -> bool {
    exists|p: Seq<Seq<char>>|
        p.len() == ts.len() && (forall|j: int|
            0 <= j < p.len() ==> piece_ok(ts[j], mode_before(ts, j), #[trigger] p[j])) && r
            == concat_all(p)
}

pub open spec fn closing_bracket_from(s: Seq<char>, k: int) -> int
    decreases s.len() - k,
{
    if k < 0 || k >= s.len() {
        -1
    } else if s[k] == ']' {
        k
    } else {
        closing_bracket_from(s, k + 1)
    }
}

/// First position at or after `k` where `pat` occurs; -1 if none.
pub open spec fn find_from(s: Seq<char>, pat: Seq<char>, k: int) -> int
    decreases s.len() - k,
{
    if k < 0 || k >= s.len() {
        -1
    } else if occurs_at(s, k, pat) {
        k
    } else {
        find_from(s, pat, k + 1)
    }
}

/// The plain rendering: style markers removed until none is left; every
/// copy of the first barcode tag set between `>>> ` and ` <<<`.
pub open spec fn plain_text(s: Seq<char>) -> Seq<char> {
    let r = strip_fully(s);
    let st = find_from(r, barcode_prefix(), 0);
    if st >= 0 && closing_bracket_from(r, st) >= 0 {
        let tag = r.subrange(st, closing_bracket_from(r, st) + 1);
        replace_all(r, tag, seq!['>', '>', '>', ' '] + tag + seq![' ', '<', '<', '<'])
    } else {
        r
    }
}

/// Relies on colored's `Colorize::bold` and `ColoredString`'s `Display`:
/// the text as is when colouring is off, else `ESC [`, the style's code
/// `1` (style.rs), `m`, the text (reset sequences inside it followed by the style
/// again), and a reset.
#[verifier::external_body]
fn paint_bold(s: &str) -> (r: String)
    ensures
        styled(bold_code(), s@, r@),
{
    s.bold().to_string()
}

/// Relies on colored's `Colorize::underline` and `ColoredString`'s `Display`:
/// the text as is when colouring is off, else `ESC [`, the style's code
/// `4` (style.rs), `m`, the text (reset sequences inside it followed by the style
/// again), and a reset.
#[verifier::external_body]
fn paint_underline(s: &str) -> (r: String)
    ensures
        styled(underline_code(), s@, r@),
{
    s.underline().to_string()
}

/// Relies on colored's `Colorize::on_white` and `black` and `ColoredString`'s
/// `Display`: the text as is when colouring is off, else `ESC [`, the
/// background code `47` then `;` and the foreground code `30`, `m`, the text
/// (reset sequences inside it followed by the style again), and a reset.
#[verifier::external_body]
fn paint_reverse_video(s: &str) -> (r: String)
    ensures
        styled(reverse_code(), s@, r@),
{
    s.on_white().black().to_string()
}

/// Relies on colored's `Colorize::bright_blue` and `ColoredString`'s `Display`:
/// the text as is when colouring is off, else `ESC [`, the style's code
/// `94` (color.rs), `m`, the text (reset sequences inside it followed by the style
/// again), and a reset.
#[verifier::external_body]
fn paint_bright_blue(s: &str) -> (r: String)
    ensures
        styled(bright_blue_code(), s@, r@),
{
    s.bright_blue().to_string()
}

/// Relies on colored's `Colorize::bright_black` and `ColoredString`'s `Display`:
/// the text as is when colouring is off, else `ESC [`, the style's code
/// `90` (color.rs), `m`, the text (reset sequences inside it followed by the style
/// again), and a reset.
#[verifier::external_body]
fn paint_bright_black(s: &str) -> (r: String)
    ensures
        styled(bright_black_code(), s@, r@),
{
    s.bright_black().to_string()
}

/// Relies on colored's `Colorize::bright_white` and `ColoredString`'s `Display`:
/// the text as is when colouring is off, else `ESC [`, the style's code
/// `97` (color.rs), `m`, the text (reset sequences inside it followed by the style
/// again), and a reset.
#[verifier::external_body]
fn paint_bright_white(s: &str) -> (r: String)
    ensures
        styled(bright_white_code(), s@, r@),
{
    s.bright_white().to_string()
}

proof fn lemma_mode_prefix(ts: Seq<Token>, t: Token)
    ensures
        forall|j: int| 0 <= j <= ts.len() ==> #[trigger] mode_before(ts.push(t), j) == mode_before(ts, j),
        mode_before(ts.push(t), ts.len() + 1int) == apply_mode(mode_before(ts, ts.len() as int), t),
{
    assert forall|j: int| 0 <= j <= ts.len() implies #[trigger] mode_before(ts.push(t), j)
        == mode_before(ts, j) by {
        lemma_mode_prefix_at(ts, t, j);
    }
    lemma_mode_prefix_at(ts, t, ts.len() as int);
}

proof fn lemma_mode_prefix_at(ts: Seq<Token>, t: Token, j: int)
    requires
        0 <= j <= ts.len(),
    ensures
        mode_before(ts.push(t), j) == mode_before(ts, j),
    decreases j,
{
    if j > 0 {
        lemma_mode_prefix_at(ts, t, j - 1);
        assert(ts.push(t)[j - 1] == ts[j - 1]);
    }
}

proof fn lemma_concat_push(p: Seq<Seq<char>>, x: Seq<char>)
    ensures
        concat_all(p.push(x)) == concat_all(p) + x,
{
    assert(p.push(x).drop_last() =~= p);
}

/// Renders marker-annotated lines for a receipt of a given width.
pub struct ReceiptRenderer {
    width: usize,
}

/// The characters of `s` from `a` to `b`.
fn copy_range(s: &Vec<char>, a: usize, b: usize) -> (r: Vec<char>)
    requires
        a <= b <= s@.len(),
    ensures
        r@ == s@.subrange(a as int, b as int),
{
    let mut r: Vec<char> = Vec::new();
    let mut k: usize = a;
    while k < b
        invariant
            a <= k <= b <= s@.len(),
            r@ == s@.subrange(a as int, k as int),
        decreases b - k,
    {
        r.push(s[k]);
        k = k + 1;
        assert(r@ =~= s@.subrange(a as int, k as int));
    }
    r
}

/// Offset of the `]` closing a bracket token of at most ten characters at `i`.
fn close_offset(s: &Vec<char>, i: usize) -> (r: Option<usize>)
    requires
        i < s@.len(),
    ensures
        r is Some ==> r->0 as int == close_at(s@, i as int, 1) && 1 <= r->0 <= 9 && i + r->0
            < s@.len(),
        r is None ==> close_at(s@, i as int, 1) < 0,
{
    let mut k: usize = 1;
    while k <= 9 && k < s.len() - i && s[i + k] != ']'
        invariant
            1 <= k <= 10,
            i < s@.len(),
            close_at(s@, i as int, k as int) == close_at(s@, i as int, 1),
        decreases 10 - k,
    {
        k = k + 1;
    }
    if k <= 9 && k < s.len() - i {
        Some(k)
    } else {
        None
    }
}

/// The styled rendering of the known marker spelled by `s[i..i + k + 1]`, if any.
fn render_marker(s: &Vec<char>, i: usize, k: usize, end: usize) -> (r: Option<(String, u8)>)
    requires
        i < s@.len(),
        1 <= k <= 9,
        end == i + k + 1,
        end <= s@.len(),
    ensures
        r is Some <==> marker_token(s@, i as int, k as int) is Some,
        r is Some ==> base_ok(marker_token(s@, i as int, k as int)->0, (r->0).0@) && (r->0).1
            == toggle_code(marker_token(s@, i as int, k as int)->0),
{
    let n = k + 1;
    let inv_on = vec!['[', 'I', 'N', 'V', ']'];
    assert(inv_on@ =~= inverse_open());
    let inv_off = vec!['[', '/', 'I', 'N', 'V', ']'];
    assert(inv_off@ =~= inverse_close());
    let w_on = vec!['[', '2', 'W', ']'];
    assert(w_on@ =~= wide_open());
    let w_off = vec!['[', '/', '2', 'W', ']'];
    assert(w_off@ =~= wide_close());
    let h_on = vec!['[', '2', 'H', ']'];
    assert(h_on@ =~= tall_open());
    let h_off = vec!['[', '/', '2', 'H', ']'];
    assert(h_off@ =~= tall_close());
    let bc = vec!['[', 'B', 'A', 'R', 'C', 'O', 'D', 'E', ':'];
    assert(bc@ =~= barcode_prefix());
    let qr = vec!['[', 'Q', 'R', ' ', 'C', 'O', 'D', 'E', ']'];
    assert(qr@ =~= qr_placeholder());
    if n == 5 && occurs_at_exec(s, i, &inv_on) {
        Some((String::new(), 1))
    } else if n == 6 && occurs_at_exec(s, i, &inv_off) {
        Some((String::new(), 2))
    } else if n == 4 && occurs_at_exec(s, i, &w_on) {
        Some((String::new(), 3))
    } else if n == 5 && occurs_at_exec(s, i, &w_off) {
        Some((String::new(), 4))
    } else if n == 4 && occurs_at_exec(s, i, &h_on) {
        Some((String::new(), 5))
    } else if n == 5 && occurs_at_exec(s, i, &h_off) {
        Some((String::new(), 6))
    } else if n >= 9 && occurs_at_exec(s, i, &bc) {
        let tag = string_from_chars(&copy_range(s, i, end));
        Some((paint_bright_blue(tag.as_str()), 0))
    } else if n == 9 && occurs_at_exec(s, i, &qr) {
        let glyph = vec!['█', '▀', '▀', '▀', '▀', '▀', '█'];
        assert(glyph@ =~= qr_glyph());
        let g = string_from_chars(&glyph);
        Some((paint_bright_black(g.as_str()), 0))
    } else {
        None
    }
}

/// A `**` or `__` span opening at `i`.
fn render_pair(s: &Vec<char>, i: usize, c: char) -> (r: (String, usize))
    requires
        i + 1 < s@.len(),
        c == '*' || c == '_',
        s@[i as int] == c,
        s@[i + 1] == c,
    ensures
        base_ok(token_at(s@, i as int).0, r.0@),
        r.1 as int == token_at(s@, i as int).1,
{
    let len = s.len();
    let mut e: usize = i + 2;
    while e < len - 1 && !(s[e] == c && s[e + 1] == c)
        invariant
            i + 2 <= e <= s@.len(),
            len == s@.len(),
            s@.len() >= 2,
            pair_at(s@, c, e as int) == pair_at(s@, c, i + 2),
        decreases s@.len() - e,
    {
        e = e + 1;
    }
    if e < len - 1 {
        let inner = string_from_chars(&copy_range(s, i + 2, e));
        let p = if c == '*' {
            paint_bold(inner.as_str())
        } else {
            paint_underline(inner.as_str())
        };
        (p, e + 2)
    } else {
        (string_from_chars(&copy_range(s, i, len)), len)
    }
}

/// The styled rendering of the token at `i`, and the position after it.
fn render_token(s: &Vec<char>, i: usize) -> (r: (String, usize, u8))
    requires
        i < s@.len(),
    ensures
        base_ok(token_at(s@, i as int).0, r.0@),
        r.1 as int == token_at(s@, i as int).1,
        r.2 == toggle_code(token_at(s@, i as int).0),
        i < r.1 <= s@.len(),
{
    let len = s.len();
    let c = s[i];
    if c == '[' {
        if let Some(k) = close_offset(s, i) {
            let end = len - (len - i - k - 1);
            if let Some((p, code)) = render_marker(s, i, k, end) {
                return (p, end, code);
            }
        }
        let v = vec!['['];
        assert(v@ =~= seq!['[']);
        (string_from_chars(&v), i + 1, 0)
    } else if (c == '*' || c == '_') && i + 1 < s.len() && s[i + 1] == c {
        proof {
            let e = pair_at(s@, c, i + 2);
            if e >= 0 {
                lemma_pair_at_bounds(s@, c, i + 2);
            }
        }
        let (p, e) = render_pair(s, i, c);
        (p, e, 0)
    } else if c == '═' || c == '─' {
        let v = vec![c];
        assert(v@ =~= seq![c]);
        let t = string_from_chars(&v);
        (paint_bright_white(t.as_str()), i + 1, 0)
    } else {
        let v = vec![c];
        assert(v@ =~= seq![c]);
        (string_from_chars(&v), i + 1, 0)
    }
}

proof fn lemma_pair_at_bounds(s: Seq<char>, c: char, k: int)
    ensures
        pair_at(s, c, k) >= 0 ==> k <= pair_at(s, c, k) && pair_at(s, c, k) + 1 < s.len(),
    decreases s.len() - k,
{
    if k >= 0 && k + 1 < s.len() && !(s[k] == c && s[k + 1] == c) {
        lemma_pair_at_bounds(s, c, k + 1);
    }
}

impl ReceiptRenderer {
    pub closed spec fn paper_width(&self) -> nat {
        self.width as nat
    }

    pub fn new(width: usize) -> (r: ReceiptRenderer)
        ensures
            r.paper_width() == width,
    {
        ReceiptRenderer { width }
    }

    /// The styled rendering of a marked line, token by token: bold and
    /// underline spans, barcode tags, the symbol placeholder and separator
    /// characters styled, other text as is; `[INV]`..`[/INV]` shows what lies
    /// between in reverse video, `[2W]`/`[2H]` spans emphasised; the
    /// attribute markers themselves show nothing.
    pub fn render_line(&self, line: &str) -> (r: String)
        ensures
            renders(tokens_from(line@, 0), r@),
    {
        let s = chars_of_str(line);
        let mut out = String::new();
        let mut i: usize = 0;
        let mut inv = false;
        let mut wide = false;
        let mut tall = false;
        let ghost mut done: Seq<Token> = Seq::empty();
        let ghost mut pieces: Seq<Seq<char>> = Seq::empty();
        assert(out@ =~= concat_all(pieces));
        assert(done + tokens_from(s@, 0) =~= tokens_from(s@, 0));
        while i < s.len()
            invariant
                i <= s@.len(),
                s@ == line@,
                done + tokens_from(s@, i as int) == tokens_from(s@, 0),
                pieces.len() == done.len(),
                (inv, wide, tall) == mode_before(done, done.len() as int),
                forall|j: int|
                    0 <= j < pieces.len() ==> piece_ok(done[j], mode_before(done, j), #[trigger] pieces[j]),
                out@ == concat_all(pieces),
            decreases s@.len() - i,
        {
            let (q, e, code) = render_token(&s, i);
            let ghost t = token_at(s@, i as int).0;
            let ghost m = (inv, wide, tall);
            let p = if code != 0 {
                String::new()
            } else if inv {
                paint_reverse_video(q.as_str())
            } else if wide || tall {
                paint_bold(q.as_str())
            } else {
                q
            };
            if code == 1 || code == 2 {
                inv = code == 1;
            } else if code == 3 || code == 4 {
                wide = code == 3;
            } else if code == 5 || code == 6 {
                tall = code == 5;
            }
            proof {
                assert(tokens_from(s@, i as int) == seq![t] + tokens_from(s@, e as int));
                assert(done.push(t) + tokens_from(s@, e as int) =~= done + (seq![t] + tokens_from(
                    s@,
                    e as int,
                )));
                if code == 0 {
                    assert(base_ok(t, q@) && layer_ok(m, q@, p@));
                }
                assert(piece_ok(t, m, p@));
                lemma_concat_push(pieces, p@);
                lemma_mode_prefix(done, t);
                done = done.push(t);
                pieces = pieces.push(p@);
            }
            out.append(p.as_str());
            i = e;
        }
        assert(done =~= tokens_from(s@, 0));
        assert(pieces.len() == done.len() && (forall|j: int|
            0 <= j < pieces.len() ==> piece_ok(done[j], mode_before(done, j), #[trigger] pieces[j]))
            && out@ == concat_all(pieces));
        out
    }

    /// The plain rendering of a marked line: style markers removed, and every
    /// copy of the first barcode tag set between `>>> ` and ` <<<`.
    pub fn render_plain_text(&self, line: &str) -> (r: String)
        ensures
            r@ == plain_text(line@),
    {
        let s = chars_of_str(line);
        let r = strip_style_markers_fully(&s);
        let bc = vec!['[', 'B', 'A', 'R', 'C', 'O', 'D', 'E', ':'];
        assert(bc@ =~= barcode_prefix());
        let mut st: usize = 0;
        while st < r.len() && !occurs_at_exec(&r, st, &bc)
            invariant
                st <= r@.len(),
                find_from(r@, bc@, st as int) == find_from(r@, bc@, 0),
            decreases r@.len() - st,
        {
            st = st + 1;
        }
        if st >= r.len() {
            return string_from_chars(&r);
        }
        let mut e: usize = st;
        while e < r.len() && r[e] != ']'
            invariant
                st <= e <= r@.len(),
                closing_bracket_from(r@, e as int) == closing_bracket_from(r@, st as int),
            decreases r@.len() - e,
        {
            e = e + 1;
        }
        if e >= r.len() {
            return string_from_chars(&r);
        }
        let tag = copy_range(&r, st, e + 1);
        let mut rep = vec!['>', '>', '>', ' '];
        push_all(&mut rep, &tag);
        let tail = vec![' ', '<', '<', '<'];
        push_all(&mut rep, &tail);
        assert(rep@ =~= seq!['>', '>', '>', ' '] + tag@ + seq![' ', '<', '<', '<']);
        string_from_chars(&replace_all_exec(&r, &tag, &rep))
    }
}

} // verus!
