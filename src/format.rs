//! Character attributes and the rule that turns a line of text into a
//! marker-annotated, aligned output line.
use vstd::prelude::*;

use crate::text::{lemma_remove_len, occurs_at, remove_all, replace_all_exec, spaces};

verus! {

/// Horizontal placement of a printed line.
#[derive(Clone, Copy, PartialEq, Eq, Structural, Debug)]
pub enum Alignment {
    Left,
    Center,
    Right,
}

/// Character attributes currently in force.
#[derive(Clone, Copy, PartialEq, Eq, Structural, Debug)]
pub struct FormattingState {
    pub bold: bool,
    pub underline: u8,
    pub double_width: bool,
    pub double_height: bool,
    pub inverse: bool,
    pub alignment: Alignment,
}

/// The attributes after power-on, an init command or a clear.
pub open spec fn default_formatting() -> FormattingState {
    FormattingState {
        bold: false,
        underline: 0,
        double_width: false,
        double_height: false,
        inverse: false,
        alignment: Alignment::Left,
    }
}

impl FormattingState {
    /// The default attributes.
    pub fn new() -> (r: FormattingState)
        ensures
            r == default_formatting(),
    {
        FormattingState {
            bold: false,
            underline: 0,
            double_width: false,
            double_height: false,
            inverse: false,
            alignment: Alignment::Left,
        }
    }
}

pub open spec fn bold_mark() -> Seq<char> {
    seq!['*', '*']
}

pub open spec fn underline_mark() -> Seq<char> {
    seq!['_', '_']
}

pub open spec fn inverse_open() -> Seq<char> {
    seq!['[', 'I', 'N', 'V', ']']
}

pub open spec fn inverse_close() -> Seq<char> {
    seq!['[', '/', 'I', 'N', 'V', ']']
}

pub open spec fn wide_open() -> Seq<char> {
    seq!['[', '2', 'W', ']']
}

pub open spec fn wide_close() -> Seq<char> {
    seq!['[', '/', '2', 'W', ']']
}

pub open spec fn tall_open() -> Seq<char> {
    seq!['[', '2', 'H', ']']
}

pub open spec fn tall_close() -> Seq<char> {
    seq!['[', '/', '2', 'H', ']']
}

/// The text wrapped in the markers of each attribute that is set, innermost
/// first: bold, underline, inverse, double width, double height.
pub open spec fn wrap(f: FormattingState, t: Seq<char>) -> Seq<char> {
    let a = if f.bold {
        bold_mark() + t + bold_mark()
    } else {
        t
    };
    let b = if f.underline > 0 {
        underline_mark() + a + underline_mark()
    } else {
        a
    };
    let c = if f.inverse {
        inverse_open() + b + inverse_close()
    } else {
        b
    };
    let d = if f.double_width {
        wide_open() + c + wide_close()
    } else {
        c
    };
    if f.double_height {
        tall_open() + d + tall_close()
    } else {
        d
    }
}

/// The text with every style marker removed, one kind after the other.
pub open spec fn strip_style_markers(s: Seq<char>) -> Seq<char> {
    remove_all(
        remove_all(
            remove_all(
                remove_all(
                    remove_all(
                        remove_all(
                            remove_all(remove_all(s, bold_mark()), underline_mark()),
                            inverse_open(),
                        ),
                        inverse_close(),
                    ),
                    wide_open(),
                ),
                wide_close(),
            ),
            tall_open(),
        ),
        tall_close(),
    )
}

/// The text with every style marker removed.
pub fn strip_style_markers_exec(text: &Vec<char>) -> (r: Vec<char>)
    ensures
        r@ == strip_style_markers(text@),
{
    let none: Vec<char> = Vec::new();
    let s = replace_all_exec(text, &vec!['*', '*'], &none);
    let s = replace_all_exec(&s, &vec!['_', '_'], &none);
    let s = replace_all_exec(&s, &vec!['[', 'I', 'N', 'V', ']'], &none);
    let s = replace_all_exec(&s, &vec!['[', '/', 'I', 'N', 'V', ']'], &none);
    let s = replace_all_exec(&s, &vec!['[', '2', 'W', ']'], &none);
    let s = replace_all_exec(&s, &vec!['[', '/', '2', 'W', ']'], &none);
    let s = replace_all_exec(&s, &vec!['[', '2', 'H', ']'], &none);
    let s = replace_all_exec(&s, &vec!['[', '/', '2', 'H', ']'], &none);
    assert(s@ == strip_style_markers(text@));
    s
}

/// No style marker occurs anywhere in the text.
pub open spec fn no_style_markers(s: Seq<char>) -> bool {
    forall|i: int|
        !occurs_at(s, i, bold_mark()) && !occurs_at(s, i, underline_mark()) && !occurs_at(
            s,
            i,
            inverse_open(),
        ) && !occurs_at(s, i, inverse_close()) && !occurs_at(s, i, wide_open()) && !occurs_at(
            s,
            i,
            wide_close(),
        ) && !occurs_at(s, i, tall_open()) && !occurs_at(s, i, tall_close())
}

/// Markers stripped again and again until a pass removes nothing.
pub open spec fn strip_fully(s: Seq<char>) -> Seq<char>
    decreases s.len(),
{
    let r = strip_style_markers(s);
    if r.len() < s.len() {
        strip_fully(r)
    } else {
        r
    }
}

/// A stripping pass never lengthens the text, and leaves its length only
/// where the text holds no marker, which it then leaves unchanged.
pub proof fn lemma_strip_len(s: Seq<char>)
    ensures
        strip_style_markers(s).len() <= s.len(),
        strip_style_markers(s).len() == s.len() ==> strip_style_markers(s) == s
            && no_style_markers(s),
{
    let s1 = remove_all(s, bold_mark());
    let s2 = remove_all(s1, underline_mark());
    let s3 = remove_all(s2, inverse_open());
    let s4 = remove_all(s3, inverse_close());
    let s5 = remove_all(s4, wide_open());
    let s6 = remove_all(s5, wide_close());
    let s7 = remove_all(s6, tall_open());
    lemma_remove_len(s, bold_mark());
    lemma_remove_len(s1, underline_mark());
    lemma_remove_len(s2, inverse_open());
    lemma_remove_len(s3, inverse_close());
    lemma_remove_len(s4, wide_open());
    lemma_remove_len(s5, wide_close());
    lemma_remove_len(s6, tall_open());
    lemma_remove_len(s7, tall_close());
}

/// Stripping until nothing changes leaves no marker at all.
pub proof fn lemma_strip_fully(s: Seq<char>)
    ensures
        no_style_markers(strip_fully(s)),
    decreases s.len(),
{
    let r = strip_style_markers(s);
    lemma_strip_len(s);
    if r.len() < s.len() {
        lemma_strip_fully(r);
    }
}

/// The text with style markers stripped until none is left.
pub fn strip_style_markers_fully(text: &Vec<char>) -> (r: Vec<char>)
    ensures
        r@ == strip_fully(text@),
        no_style_markers(r@),
{
    let ghost mut prev = text@;
    let mut prev_len = text.len();
    let mut cur = strip_style_markers_exec(text);
    proof {
        lemma_strip_len(prev);
    }
    while cur.len() < prev_len
        invariant
            prev_len == prev.len(),
            cur@ == strip_style_markers(prev),
            strip_fully(text@) == strip_fully(prev),
        decreases prev_len,
    {
        proof {
            prev = cur@;
            lemma_strip_len(prev);
        }
        prev_len = cur.len();
        cur = strip_style_markers_exec(&cur);
    }
    proof {
        lemma_strip_fully(text@);
    }
    cur
}

/// Number of characters a marked line shows once its style markers are gone.
pub open spec fn display_length(s: Seq<char>) -> nat {
    strip_style_markers(s).len()
}

/// Spaces put before the wrapped text `w` on a line `width` columns wide:
/// centering pads by half the shortfall of the display length, rounded down;
/// right alignment pads `w` to the full width.
pub open spec fn padding(a: Alignment, width: nat, w: Seq<char>) -> nat {
    match a {
        Alignment::Left => 0,
        Alignment::Center => if width > display_length(w) {
            ((width - display_length(w)) / 2) as nat
        } else {
            0
        },
        Alignment::Right => if width > w.len() {
            (width - w.len()) as nat
        } else {
            0
        },
    }
}

/// The output line for the text `t` under the attributes `f`.
pub open spec fn format_text(f: FormattingState, width: nat, t: Seq<char>) -> Seq<char> {
    let w = wrap(f, t);
    spaces(padding(f.alignment, width, w)) + w
}

/// Under the default attributes a line is the text itself.
pub proof fn lemma_default_unmarked(width: nat, t: Seq<char>)
    ensures
        format_text(default_formatting(), width, t) == t,
{
    assert(spaces(0) =~= Seq::<char>::empty());
    assert(Seq::<char>::empty() + t =~= t);
}

} // verus!
