//! What the plain rendering leaves of a line the decoder formatted.
use vstd::prelude::*;

use crate::format::{
    bold_mark, default_formatting, lemma_strip_fully, no_style_markers, strip_fully, format_text, inverse_close, inverse_open, padding, strip_style_markers,
    tall_close, tall_open, underline_mark, wide_close, wide_open, wrap, FormattingState,
};
use crate::renderer::{barcode_prefix, find_from, plain_text};
use crate::text::{occurs_at, remove_all, spaces};

verus! {

/// A match of `pat` at `i` is ruled out by one of the first four characters of `x` from `i`.
pub open spec fn blocked(x: Seq<char>, i: int, pat: Seq<char>) -> bool {
    (pat.len() > 0 && x[i] != pat[0]) || (pat.len() > 1 && i + 1 < x.len() && x[i + 1] != pat[1])
        || (pat.len() > 2 && i + 2 < x.len() && x[i + 2] != pat[2]) || (pat.len() > 3 && i + 3
        < x.len() && x[i + 3] != pat[3])
}

/// The segments one after the other.
#[verifier::opaque]
pub open spec fn join(segs: Seq<Seq<char>>) -> Seq<char>
    decreases segs.len(),
{
    if segs.len() == 0 {
        Seq::empty()
    } else {
        segs[0] + join(segs.skip(1))
    }
}

/// The segments with every one equal to `pat` emptied.
pub open spec fn drop_pat(segs: Seq<Seq<char>>, pat: Seq<char>) -> Seq<Seq<char>> {
    segs.map_values(|s: Seq<char>| if s == pat { Seq::<char>::empty() } else { s })
}

pub open spec fn clean_against(seg: Seq<char>, pat: Seq<char>) -> bool {
    seg == pat || forall|i: int| 0 <= i < seg.len() ==> #[trigger] blocked(seg, i, pat)
}

proof fn lemma_remove_blocked(x: Seq<char>, y: Seq<char>, pat: Seq<char>)
    requires
        pat.len() > 0,
        forall|i: int| 0 <= i < x.len() ==> #[trigger] blocked(x, i, pat),
    ensures
        remove_all(x + y, pat) == x + remove_all(y, pat),
    decreases x.len(),
{
    let z = x + y;
    if x.len() == 0 {
        assert(z =~= y);
        assert(x + remove_all(y, pat) =~= remove_all(y, pat));
    } else if z.len() < pat.len() {
        assert(remove_all(y, pat) == y);
    } else {
        assert(blocked(x, 0, pat));
        let j: int = if x[0] != pat[0] {
            0
        } else if pat.len() > 1 && 1 < x.len() && x[1] != pat[1] {
            1
        } else if pat.len() > 2 && 2 < x.len() && x[2] != pat[2] {
            2
        } else {
            3
        };
        assert(z.take(pat.len() as int)[j] != pat[j]);
        let x1 = x.skip(1);
        assert forall|i: int| 0 <= i < x1.len() implies #[trigger] blocked(x1, i, pat) by {
            assert(blocked(x, i + 1, pat));
        }
        lemma_remove_blocked(x1, y, pat);
        assert(z.skip(1) =~= x1 + y);
        assert(seq![z[0]] + (x1 + remove_all(y, pat)) =~= x + remove_all(y, pat));
    }
}

proof fn lemma_remove_segments(segs: Seq<Seq<char>>, pat: Seq<char>)
    requires
        pat.len() > 0,
        forall|k: int| 0 <= k < segs.len() ==> clean_against(#[trigger] segs[k], pat),
    ensures
        remove_all(join(segs), pat) == join(drop_pat(segs, pat)),
    decreases segs.len(),
{
    reveal(join);
    if segs.len() > 0 {
        let rest = segs.skip(1);
        assert forall|k: int| 0 <= k < rest.len() implies clean_against(#[trigger] rest[k], pat) by {
            assert(rest[k] == segs[k + 1]);
        }
        lemma_remove_segments(rest, pat);
        assert(drop_pat(segs, pat).skip(1) =~= drop_pat(rest, pat));
        if segs[0] == pat {
            let z = pat + join(rest);
            assert(z.take(pat.len() as int) =~= pat);
            assert(z.skip(pat.len() as int) =~= join(rest));
            assert(Seq::<char>::empty() + join(drop_pat(rest, pat)) =~= join(drop_pat(rest, pat)));
        } else {
            lemma_remove_blocked(segs[0], join(rest), pat);
        }
    }
}

/// The eight style markers, in the order they are stripped.
pub open spec fn markers() -> Seq<Seq<char>> {
    seq![
        bold_mark(),
        underline_mark(),
        inverse_open(),
        inverse_close(),
        wide_open(),
        wide_close(),
        tall_open(),
        tall_close(),
    ]
}

/// Text holding none of the characters that begin a style marker.
pub open spec fn marker_free(t: Seq<char>) -> bool {
    forall|i: int| 0 <= i < t.len() ==> t[i] != '*' && t[i] != '_' && t[i] != '['
}

proof fn lemma_marker_pairs(a: int, b: int)
    requires
        0 <= a < 8,
        0 <= b < 8,
        a != b,
    ensures
        clean_against(markers()[a], markers()[b]),
{
    let x = markers()[a];
    let p = markers()[b];
    assert forall|i: int| 0 <= i < x.len() implies #[trigger] blocked(x, i, p) by {
        assert(markers()[0] =~= seq!['*', '*']);
        assert(markers()[1] =~= seq!['_', '_']);
        assert(markers()[2] =~= seq!['[', 'I', 'N', 'V', ']']);
        assert(markers()[3] =~= seq!['[', '/', 'I', 'N', 'V', ']']);
        assert(markers()[4] =~= seq!['[', '2', 'W', ']']);
        assert(markers()[5] =~= seq!['[', '/', '2', 'W', ']']);
        assert(markers()[6] =~= seq!['[', '2', 'H', ']']);
        assert(markers()[7] =~= seq!['[', '/', '2', 'H', ']']);
    }
}

proof fn lemma_free_clean(t: Seq<char>, b: int)
    requires
        0 <= b < 8,
        forall|i: int| 0 <= i < t.len() ==> t[i] != '*' && t[i] != '_' && t[i] != '[',
    ensures
        clean_against(t, markers()[b]),
{
    let p = markers()[b];
    assert(p[0] == '*' || p[0] == '_' || p[0] == '[');
    assert forall|i: int| 0 <= i < t.len() implies #[trigger] blocked(t, i, p) by {}
}

/// The segments after the first `n` markers were emptied, one kind after the other.
pub open spec fn drop_first(segs: Seq<Seq<char>>, n: nat) -> Seq<Seq<char>>
    decreases n,
{
    if n == 0 {
        segs
    } else {
        drop_pat(drop_first(segs, (n - 1) as nat), markers()[n - 1])
    }
}

/// Each segment is marker-free text or one of the markers.
pub open spec fn well_cut(segs: Seq<Seq<char>>) -> bool {
    forall|k: int|
        0 <= k < segs.len() ==> marker_free(#[trigger] segs[k]) || exists|a: int|
            0 <= a < 8 && segs[k] == markers()[a]
}

proof fn lemma_markers_distinct(a: int, b: int)
    requires
        0 <= a < 8,
        0 <= b < 8,
    ensures
        a != b ==> markers()[a] != markers()[b],
        !marker_free(markers()[a]),
{
    assert(markers()[a][0] == '*' || markers()[a][0] == '_' || markers()[a][0] == '[');
    if a != b {
        lemma_marker_pairs(a, b);
        assert(blocked(markers()[a], 0, markers()[b]));
    }
}

proof fn lemma_drop_first(segs: Seq<Seq<char>>, n: nat)
    requires
        n <= 8,
        well_cut(segs),
    ensures
        drop_first(segs, n).len() == segs.len(),
        forall|k: int|
            0 <= k < segs.len() ==> (marker_free(segs[k]) ==> #[trigger] drop_first(segs, n)[k]
                == segs[k]),
        forall|k: int, a: int|
            #![trigger drop_first(segs, n)[k], markers()[a]]
            0 <= k < segs.len() && 0 <= a < 8 && segs[k] == markers()[a] ==> (drop_first(
                segs,
                n,
            )[k] == if a < n {
                Seq::<char>::empty()
            } else {
                segs[k]
            }),
    decreases n,
{
    if n > 0 {
        lemma_drop_first(segs, (n - 1) as nat);
        let prev = drop_first(segs, (n - 1) as nat);
        let pat = markers()[n - 1];
        assert forall|k: int| 0 <= k < segs.len() && marker_free(segs[k]) implies #[trigger] drop_first(
            segs,
            n,
        )[k] == segs[k] by {
            {
                assert(prev[k] == segs[k]);
                lemma_markers_distinct(n - 1, 0);
                if segs[k] == pat {
                    assert(!marker_free(pat));
                }
            }
        }
        assert forall|k: int, a: int|
            #![trigger drop_first(segs, n)[k], markers()[a]]
            0 <= k < segs.len() && 0 <= a < 8 && segs[k] == markers()[a] implies (drop_first(
                segs,
                n,
            )[k] == if a < n {
                Seq::<char>::empty()
            } else {
                segs[k]
            }) by {
            lemma_markers_distinct(a, n - 1);
            if a == n - 1 {
                assert(prev[k] == segs[k]);
            }
        }
    }
}

proof fn lemma_strip_step(segs: Seq<Seq<char>>, n: nat)
    requires
        n < 8,
        well_cut(segs),
    ensures
        remove_all(join(drop_first(segs, n)), markers()[n as int]) == join(
            drop_first(segs, n + 1),
        ),
{
    lemma_drop_first(segs, n);
    let cur = drop_first(segs, n);
    let pat = markers()[n as int];
    assert forall|k: int| 0 <= k < cur.len() implies clean_against(#[trigger] cur[k], pat) by {
        if marker_free(segs[k]) {
            lemma_free_clean(segs[k], n as int);
        } else {
            let a = choose|a: int| 0 <= a < 8 && segs[k] == markers()[a];
            if a < n {
                assert(cur[k] == Seq::<char>::empty());
                lemma_free_clean(Seq::<char>::empty(), n as int);
            } else if a != n {
                lemma_marker_pairs(a, n as int);
            }
        }
    }
    assert(pat.len() > 0);
    lemma_remove_segments(cur, pat);
}

proof fn lemma_no_barcode_tag(r: Seq<char>, k: int)
    requires
        marker_free(r),
        0 <= k,
    ensures
        find_from(r, barcode_prefix(), k) == -1,
    decreases r.len() - k,
{
    if k < r.len() {
        if occurs_at(r, k, barcode_prefix()) {
            assert(r.subrange(k, k + 9)[0] == r[k]);
        }
        lemma_no_barcode_tag(r, k + 1);
    }
}

proof fn lemma_join_cons(a: Seq<char>, rest: Seq<Seq<char>>)
    ensures
        join(seq![a] + rest) == a + join(rest),
{
    reveal(join);
    assert((seq![a] + rest).skip(1) =~= rest);
}

/// A formatted line cut into its padding, the opening markers, the text and
/// the closing markers.
pub open spec fn line_segments(f: FormattingState, sp: Seq<char>, t: Seq<char>) -> Seq<Seq<char>> {
    let e = Seq::<char>::empty();
    let o1 = if f.bold { bold_mark() } else { e };
    let o2 = if f.underline > 0 { underline_mark() } else { e };
    let o3 = if f.inverse { inverse_open() } else { e };
    let c3 = if f.inverse { inverse_close() } else { e };
    let o4 = if f.double_width { wide_open() } else { e };
    let c4 = if f.double_width { wide_close() } else { e };
    let o5 = if f.double_height { tall_open() } else { e };
    let c5 = if f.double_height { tall_close() } else { e };
    seq![sp, o5, o4, o3, o2, o1, t, o1, o2, c3, c4, c5]
}

proof fn lemma_join_skip(x: Seq<Seq<char>>, k: int)
    requires
        0 <= k < x.len(),
    ensures
        join(x.skip(k)) == x[k] + join(x.skip(k + 1)),
{
    reveal(join);
    assert(x.skip(k).skip(1) =~= x.skip(k + 1));
}

proof fn lemma_join12(x: Seq<Seq<char>>)
    requires
        x.len() == 12,
    ensures
        join(x) == x[0] + (x[1] + (x[2] + (x[3] + (x[4] + (x[5] + x[6] + x[7]) + x[8]) + x[9])
            + x[10]) + x[11]),
{
    lemma_join_skip(x, 0);
    lemma_join_skip(x, 1);
    lemma_join_skip(x, 2);
    lemma_join_skip(x, 3);
    lemma_join_skip(x, 4);
    lemma_join_skip(x, 5);
    lemma_join_skip(x, 6);
    lemma_join_skip(x, 7);
    lemma_join_skip(x, 8);
    lemma_join_skip(x, 9);
    lemma_join_skip(x, 10);
    lemma_join_skip(x, 11);
    assert(join(x.skip(12)) == Seq::<char>::empty()) by {
        reveal(join);
    }
    assert(x.skip(0) =~= x);
    let j11 = join(x.skip(11));
    assert(j11 =~= x[11]);
    assert(join(x.skip(5)) =~= x[5] + x[6] + x[7] + join(x.skip(8)));
    assert(join(x.skip(4)) =~= x[4] + (x[5] + x[6] + x[7]) + x[8] + join(x.skip(9)));
    assert(join(x.skip(3)) =~= x[3] + (x[4] + (x[5] + x[6] + x[7]) + x[8]) + x[9] + join(
        x.skip(10),
    ));
    assert(join(x.skip(2)) =~= x[2] + (x[3] + (x[4] + (x[5] + x[6] + x[7]) + x[8]) + x[9])
        + x[10] + j11);
}

proof fn lemma_segments_join(f: FormattingState, sp: Seq<char>, t: Seq<char>)
    ensures
        join(line_segments(f, sp, t)) == sp + wrap(f, t),
{
    let x = line_segments(f, sp, t);
    lemma_join12(x);
    let a = x[5] + x[6] + x[7];
    let b = x[4] + a + x[8];
    let c = x[3] + b + x[9];
    let d = x[2] + c + x[10];
    let w = x[1] + d + x[11];
    assert(a =~= (if f.bold { bold_mark() + t + bold_mark() } else { t }));
    assert(b =~= (if f.underline > 0 { underline_mark() + a + underline_mark() } else { a }));
    assert(c =~= (if f.inverse { inverse_open() + b + inverse_close() } else { b }));
    assert(d =~= (if f.double_width { wide_open() + c + wide_close() } else { c }));
    assert(w =~= (if f.double_height { tall_open() + d + tall_close() } else { d }));
}

proof fn lemma_segments_well_cut(f: FormattingState, sp: Seq<char>, t: Seq<char>)
    requires
        marker_free(sp),
        marker_free(t),
    ensures
        well_cut(line_segments(f, sp, t)),
{
    let segs = line_segments(f, sp, t);
    assert forall|k: int| 0 <= k < segs.len() implies marker_free(#[trigger] segs[k]) || exists|
        a: int,
    | 0 <= a < 8 && segs[k] == markers()[a] by {
        if k == 1 && f.double_height {
            assert(segs[k] == markers()[6]);
        } else if k == 11 && f.double_height {
            assert(segs[k] == markers()[7]);
        } else if k == 2 && f.double_width {
            assert(segs[k] == markers()[4]);
        } else if k == 10 && f.double_width {
            assert(segs[k] == markers()[5]);
        } else if k == 3 && f.inverse {
            assert(segs[k] == markers()[2]);
        } else if k == 9 && f.inverse {
            assert(segs[k] == markers()[3]);
        } else if (k == 4 || k == 8) && f.underline > 0 {
            assert(segs[k] == markers()[1]);
        } else if (k == 5 || k == 7) && f.bold {
            assert(segs[k] == markers()[0]);
        }
    }
}

proof fn lemma_strip_chain(segs: Seq<Seq<char>>)
    requires
        well_cut(segs),
    ensures
        strip_style_markers(join(segs)) == join(drop_first(segs, 8)),
{
    lemma_strip_step(segs, 0);
    lemma_strip_step(segs, 1);
    lemma_strip_step(segs, 2);
    lemma_strip_step(segs, 3);
    lemma_strip_step(segs, 4);
    lemma_strip_step(segs, 5);
    lemma_strip_step(segs, 6);
    lemma_strip_step(segs, 7);
    assert(drop_first(segs, 0) == segs);
}

proof fn lemma_strip_line(f: FormattingState, sp: Seq<char>, t: Seq<char>)
    requires
        marker_free(sp),
        marker_free(t),
    ensures
        strip_style_markers(sp + wrap(f, t)) == sp + t,
{
    let segs = line_segments(f, sp, t);
    lemma_segments_join(f, sp, t);
    lemma_segments_well_cut(f, sp, t);
    lemma_strip_chain(segs);
    lemma_drop_first(segs, 8);
    let fin = drop_first(segs, 8);
    let plain = line_segments(default_formatting(), sp, t);
    assert forall|k: int| 0 <= k < 12 implies #[trigger] fin[k] == plain[k] by {
        if k == 1 && f.double_height {
            assert(segs[k] == markers()[6]);
        } else if k == 11 && f.double_height {
            assert(segs[k] == markers()[7]);
        } else if k == 2 && f.double_width {
            assert(segs[k] == markers()[4]);
        } else if k == 10 && f.double_width {
            assert(segs[k] == markers()[5]);
        } else if k == 3 && f.inverse {
            assert(segs[k] == markers()[2]);
        } else if k == 9 && f.inverse {
            assert(segs[k] == markers()[3]);
        } else if (k == 4 || k == 8) && f.underline > 0 {
            assert(segs[k] == markers()[1]);
        } else if (k == 5 || k == 7) && f.bold {
            assert(segs[k] == markers()[0]);
        } else {
            assert(marker_free(segs[k]));
        }
    }
    assert(fin =~= plain);
    lemma_segments_join(default_formatting(), sp, t);
    assert(wrap(default_formatting(), t) == t);
}

/// The plain rendering of a line the decoder formatted from text holding no
/// `*`, `_` or `[` is the line's padding followed by the text: no bold or
/// underline delimiter and no bracket marker is left.
pub proof fn lemma_plain_rendering_unmarked(f: FormattingState, width: nat, t: Seq<char>)
    requires
        marker_free(t),
    ensures
        plain_text(format_text(f, width, t)) == spaces(padding(f.alignment, width, wrap(f, t)))
            + t,
{
    let sp = spaces(padding(f.alignment, width, wrap(f, t)));
    assert(marker_free(sp));
    lemma_strip_line(f, sp, t);
    lemma_strip_line(default_formatting(), sp, t);
    assert(wrap(default_formatting(), t) == t);
    let x = sp + wrap(f, t);
    assert(strip_fully(sp + t) == sp + t);
    assert(strip_fully(x) == sp + t);
    lemma_no_barcode_tag(sp + t, 0);
}

/// The plain rendering of any line leaves no style marker: markers are
/// stripped until none is left, and where the line holds no barcode tag
/// nothing is added back.
pub proof fn lemma_plain_rendering_has_no_markers(s: Seq<char>)
    ensures
        no_style_markers(strip_fully(s)),
        find_from(strip_fully(s), barcode_prefix(), 0) < 0 ==> no_style_markers(plain_text(s)),
{
    lemma_strip_fully(s);
}

} // verus!
