//! Where rendered receipts go.
use vstd::prelude::*;

use crate::text::chars_of_str;

verus! {

/// Destinations for rendered receipts.
#[derive(Clone, Copy, PartialEq, Eq, Structural, Debug)]
pub enum OutputMode {
    Console,
    File,
    Both,
}

/// The lower-case form of a text, character by character as Unicode defines it.
pub uninterp spec fn lower_of(s: Seq<char>) -> Seq<char>;

/// Relies on `str::to_lowercase`: the lower-case form depends on the characters alone.
#[verifier::external_body]
fn lowercase(s: &str) -> (r: String)
    ensures
        r@ == lower_of(s@),
{
    s.to_lowercase()
}

/// The mode named by an already lower-cased name: `file`, `both`, anything
/// else the console.
pub open spec fn mode_of_lower(l: Seq<char>) -> OutputMode {
    if l == seq!['f', 'i', 'l', 'e'] {
        OutputMode::File
    } else if l == seq!['b', 'o', 't', 'h'] {
        OutputMode::Both
    } else {
        OutputMode::Console
    }
}

fn same_chars(v: &Vec<char>, w: &Vec<char>) -> (r: bool)
    ensures
        r == (v@ == w@),
{
    if v.len() != w.len() {
        return false;
    }
    let mut k: usize = 0;
    while k < v.len()
        invariant
            v@.len() == w@.len(),
            k <= v@.len(),
            forall|j: int| 0 <= j < k ==> v@[j] == w@[j],
        decreases v@.len() - k,
    {
        if v[k] != w[k] {
            return false;
        }
        k = k + 1;
    }
    assert(v@ =~= w@);
    true
}

/// The mode named by a lower-cased name.
pub fn output_mode_of_lowercase(l: &str) -> (r: OutputMode)
    ensures
        r == mode_of_lower(l@),
{
    let v = chars_of_str(l);
    let file = vec!['f', 'i', 'l', 'e'];
    assert(file@ =~= seq!['f', 'i', 'l', 'e']);
    let both = vec!['b', 'o', 't', 'h'];
    assert(both@ =~= seq!['b', 'o', 't', 'h']);
    if same_chars(&v, &file) {
        OutputMode::File
    } else if same_chars(&v, &both) {
        OutputMode::Both
    } else {
        OutputMode::Console
    }
}

/// The mode named by `name`, in any letter case.
pub fn output_mode(name: &str) -> (r: OutputMode)
    ensures
        r == mode_of_lower(lower_of(name@)),
{
    let l = lowercase(name);
    output_mode_of_lowercase(l.as_str())
}

impl OutputMode {
    /// Whether receipts are shown on the console.
    pub fn to_console(&self) -> (r: bool)
        ensures
            r == (*self != OutputMode::File),
    {
        !matches!(self, OutputMode::File)
    }

    /// Whether receipts are saved to files.
    pub fn to_file(&self) -> (r: bool)
        ensures
            r == (*self != OutputMode::Console),
    {
        !matches!(self, OutputMode::Console)
    }
}

} // verus!
