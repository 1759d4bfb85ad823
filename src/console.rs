//! Measuring styled text as it shows on a terminal.
use vstd::prelude::*;

verus! {

/// Whether the character is alphabetic in Unicode's sense.
pub uninterp spec fn alphabetic(c: char) -> bool;

/// Relies on `char::is_alphabetic`: whether the character has Unicode's
/// Alphabetic property, a property of the character alone.
#[verifier::external_body]
fn is_alphabetic(c: char) -> (r: bool)
    ensures
        r == alphabetic(c),
{
    c.is_alphabetic()
}

/// First position at or after `k` holding an alphabetic character, or the length.
pub open spec fn alphabetic_from(s: Seq<char>, k: int) -> int
    decreases s.len() - k,
{
    if k < 0 || k >= s.len() {
        s.len() as int
    } else if alphabetic(s[k]) {
        k
    } else {
        alphabetic_from(s, k + 1)
    }
}

/// The text from position `i` on, with ANSI escape sequences removed: an ESC
/// followed by `[` is dropped with everything up to and including the next
/// alphabetic character; a lone ESC is dropped by itself.
pub open spec fn without_ansi(s: Seq<char>, i: int) -> Seq<char>
    decreases s.len() - i,
{
    if i < 0 || i >= s.len() {
        Seq::empty()
    } else if s[i] == '\x1b' {
        if i + 1 < s.len() && s[i + 1] == '[' {
            let e = alphabetic_from(s, i + 2);
            if i < e < s.len() {
                without_ansi(s, e + 1)
            } else {
                Seq::empty()
            }
        } else {
            without_ansi(s, i + 1)
        }
    } else {
        seq![s[i]] + without_ansi(s, i + 1)
    }
}

/// The text without its ANSI escape sequences.
pub fn strip_ansi_codes(s: &str) -> (r: String)
    ensures
        r@ == without_ansi(s@, 0),
{
    let v = crate::text::chars_of_str(s);
    let mut out: Vec<char> = Vec::new();
    let mut i: usize = 0;
    while i < v.len()
        invariant
            v@ == s@,
            i <= v@.len(),
            out@ + without_ansi(v@, i as int) == without_ansi(v@, 0),
        decreases v@.len() - i,
    {
        if v[i] == '\x1b' {
            if i + 1 < v.len() && v[i + 1] == '[' {
                let mut e: usize = i + 2;
                while e < v.len() && !is_alphabetic(v[e])
                    invariant
                        i + 2 <= e <= v@.len(),
                        alphabetic_from(v@, e as int) == alphabetic_from(v@, i + 2),
                    decreases v@.len() - e,
                {
                    e = e + 1;
                }
                if e < v.len() {
                    i = e + 1;
                } else {
                    i = v.len();
                    assert(out@ + Seq::<char>::empty() =~= out@);
                }
            } else {
                i = i + 1;
            }
        } else {
            let ghost prev = out@;
            out.push(v[i]);
            assert(out@ + without_ansi(v@, i + 1) =~= prev + without_ansi(v@, i as int));
            i = i + 1;
        }
    }
    assert(out@ + Seq::<char>::empty() =~= out@);
    crate::text::string_from_chars(&out)
}

} // verus!
