//! Character-sequence helpers shared by the parser and the renderer.
use vstd::prelude::*;

verus! {

/// Left-to-right, non-overlapping replacement of every occurrence of `pat` by `rep`.
pub open spec fn replace_all(s: Seq<char>, pat: Seq<char>, rep: Seq<char>) -> Seq<char>
    decreases s.len(),
{
    if pat.len() == 0 || s.len() < pat.len() {
        s
    } else if s.take(pat.len() as int) == pat {
        rep + replace_all(s.skip(pat.len() as int), pat, rep)
    } else {
        seq![s[0]] + replace_all(s.skip(1), pat, rep)
    }
}

/// `replace_all` with an empty replacement.
pub open spec fn remove_all(s: Seq<char>, pat: Seq<char>) -> Seq<char> {
    replace_all(s, pat, Seq::empty())
}

/// `pat` occurs in `s` starting at index `i`.
pub open spec fn occurs_at(s: Seq<char>, i: int, pat: Seq<char>) -> bool {
    0 <= i && i + pat.len() <= s.len() && s.subrange(i, i + pat.len()) == pat
}

/// `n` spaces.
pub open spec fn spaces(n: nat) -> Seq<char> {
    Seq::new(n, |i: int| ' ')
}

/// Decimal digits of an integer, most significant first, without leading zeros.
pub open spec fn decimal(n: nat) -> Seq<char>
    decreases n,
{
    if n < 10 {
        seq![digit_char(n)]
    } else {
        decimal(n / 10).push(digit_char(n % 10))
    }
}

pub open spec fn digit_char(d: nat) -> char {
    ((d + 48) as u8) as char
}

/// Bytes read as characters one for one.
pub open spec fn bytes_as_chars(b: Seq<u8>) -> Seq<char> {
    b.map_values(|x: u8| x as char)
}

/// Text produced by decoding bytes as UTF-8, each invalid sequence replaced by U+FFFD.
pub uninterp spec fn utf8_lossy(b: Seq<u8>) -> Seq<char>;

proof fn lemma_replace_step(s: Seq<char>, i: int, pat: Seq<char>, rep: Seq<char>)
    requires
        0 <= i < s.len(),
        pat.len() > 0,
    ensures
        occurs_at(s, i, pat) ==> replace_all(s.skip(i), pat, rep) == rep + replace_all(
            s.skip(i + pat.len()),
            pat,
            rep,
        ),
        !occurs_at(s, i, pat) ==> replace_all(s.skip(i), pat, rep) == seq![s[i]] + replace_all(
            s.skip(i + 1),
            pat,
            rep,
        ),
{
    let t = s.skip(i);
    if occurs_at(s, i, pat) {
        assert(t.take(pat.len() as int) =~= s.subrange(i, i + pat.len()));
        assert(t.skip(pat.len() as int) =~= s.skip(i + pat.len()));
    } else {
        assert(t.skip(1) =~= s.skip(i + 1));
        if t.len() >= pat.len() {
            assert(t.take(pat.len() as int) =~= s.subrange(i, i + pat.len()));
        } else {
            let u = s.skip(i + 1);
            assert(u.len() < pat.len());
            assert(t =~= seq![s[i]] + u);
        }
    }
}

/// Removing a pattern never lengthens a text, and leaves its length unchanged
/// only where the pattern does not occur.
pub proof fn lemma_remove_len(s: Seq<char>, pat: Seq<char>)
    requires
        pat.len() > 0,
    ensures
        remove_all(s, pat).len() <= s.len(),
        remove_all(s, pat).len() == s.len() ==> remove_all(s, pat) == s && forall|i: int|
            !occurs_at(s, i, pat),
    decreases s.len(),
{
    let m = pat.len() as int;
    if s.len() < m {
    } else if s.take(m) == pat {
        lemma_remove_len(s.skip(m), pat);
    } else {
        let t = s.skip(1);
        lemma_remove_len(t, pat);
        if remove_all(s, pat).len() == s.len() {
            assert(remove_all(t, pat) == t);
            assert(seq![s[0]] + t =~= s);
            assert forall|i: int| !occurs_at(s, i, pat) by {
                if occurs_at(s, i, pat) {
                    if i == 0 {
                        assert(s.subrange(0, m) =~= s.take(m));
                    } else {
                        assert(t.subrange(i - 1, i - 1 + m) =~= s.subrange(i, i + m));
                        assert(occurs_at(t, i - 1, pat));
                    }
                }
            }
        }
    }
}

/// Whether `pat` occurs in `s` at index `i`.
pub fn occurs_at_exec(s: &Vec<char>, i: usize, pat: &Vec<char>) -> (r: bool)
    ensures
        r == occurs_at(s@, i as int, pat@),
{
    if i > s.len() || pat.len() > s.len() - i {
        return false;
    }
    let mut k: usize = 0;
    while k < pat.len()
        invariant
            i + pat@.len() <= s@.len(),
            s@.len() <= usize::MAX,
            k <= pat@.len(),
            forall|j: int| 0 <= j < k ==> s@[i + j] == pat@[j],
        decreases pat@.len() - k,
    {
        if s[i + k] != pat[k] {
            assert(s@.subrange(i as int, i + pat@.len())[k as int] != pat@[k as int]);
            return false;
        }
        k = k + 1;
    }
    assert(s@.subrange(i as int, i + pat@.len()) =~= pat@);
    true
}

/// Appends every character of `s` to `v`.
pub fn push_all(v: &mut Vec<char>, s: &Vec<char>)
    ensures
        final(v)@ == old(v)@ + s@,
{
    let mut k: usize = 0;
    while k < s.len()
        invariant
            k <= s@.len(),
            v@ == old(v)@ + s@.take(k as int),
        decreases s@.len() - k,
    {
        v.push(s[k]);
        k = k + 1;
        assert(s@.take(k as int) =~= s@.take(k - 1).push(s@[k - 1]));
    }
    assert(s@.take(k as int) =~= s@);
}

/// Replaces every occurrence of `pat` in `s` by `rep`, scanning left to right.
pub fn replace_all_exec(s: &Vec<char>, pat: &Vec<char>, rep: &Vec<char>) -> (r: Vec<char>)
    requires
        pat@.len() > 0,
    ensures
        r@ == replace_all(s@, pat@, rep@),
{
    let mut out: Vec<char> = Vec::new();
    let mut i: usize = 0;
    assert(s@.skip(0) =~= s@);
    while i < s.len()
        invariant
            pat@.len() > 0,
            i <= s@.len(),
            out@ + replace_all(s@.skip(i as int), pat@, rep@) == replace_all(s@, pat@, rep@),
        decreases s@.len() - i,
    {
        proof {
            lemma_replace_step(s@, i as int, pat@, rep@);
        }
        if occurs_at_exec(s, i, pat) {
            push_all(&mut out, rep);
            i = i + pat.len();
        } else {
            out.push(s[i]);
            i = i + 1;
        }
    }
    assert(s@.skip(i as int) =~= Seq::<char>::empty());
    assert(out@ + Seq::<char>::empty() =~= out@);
    out
}

/// Relies on `String::push`: appends one character to the string.
#[verifier::external_body]
pub(crate) fn push_char(s: &mut String, c: char)
    ensures
        final(s)@ == old(s)@.push(c),
{
    s.push(c)
}

/// A `String` holding the characters of `v`.
pub fn string_from_chars(v: &Vec<char>) -> (r: String)
    ensures
        r@ == v@,
{
    let mut r = String::new();
    let mut k: usize = 0;
    while k < v.len()
        invariant
            k <= v@.len(),
            r@ == v@.take(k as int),
        decreases v@.len() - k,
    {
        push_char(&mut r, v[k]);
        k = k + 1;
        assert(v@.take(k as int) =~= v@.take(k - 1).push(v@[k - 1]));
    }
    assert(v@.take(k as int) =~= v@);
    r
}

/// The characters of `s` in order.
pub fn chars_of_str(s: &str) -> (r: Vec<char>)
    ensures
        r@ == s@,
{
    let n = s.unicode_len();
    let mut r: Vec<char> = Vec::new();
    let mut k: usize = 0;
    while k < n
        invariant
            n == s@.len(),
            k <= n,
            r@ == s@.take(k as int),
        decreases n - k,
    {
        r.push(s.get_char(k));
        k = k + 1;
        assert(s@.take(k as int) =~= s@.take(k - 1).push(s@[k - 1]));
    }
    assert(s@.take(k as int) =~= s@);
    r
}

/// Decimal digits of a byte value.
pub fn decimal_u8(n: u8) -> (r: Vec<char>)
    ensures
        r@ == decimal(n as nat),
{
    let mut r: Vec<char> = Vec::new();
    if n >= 100 {
        r.push(((n / 100) + 48) as char);
    }
    if n >= 10 {
        r.push((((n / 10) % 10) + 48) as char);
    }
    r.push(((n % 10) + 48) as char);
    proof {
        let m = n as nat;
        if m >= 100 {
            assert(decimal(m / 100) == seq![digit_char(m / 100)]);
            assert(decimal(m / 10) == decimal(m / 100).push(digit_char((m / 10) % 10)));
        } else if m >= 10 {
            assert(decimal(m / 10) == seq![digit_char(m / 10)]);
        }
        assert(r@ =~= decimal(m));
    }
    r
}

/// Relies on `String::from_utf8_lossy`: decodes the bytes, replacing each
/// invalid sequence by U+FFFD; bytes below 0x80 are valid UTF-8 and decode
/// to the character of the same value.
#[verifier::external_body]
pub(crate) fn decode_lossy(b: &[u8]) -> (r: Vec<char>)
    ensures
        r@ == utf8_lossy(b@),
        (forall|i: int| 0 <= i < b@.len() ==> b@[i] < 0x80) ==> r@ == bytes_as_chars(b@),
{
    String::from_utf8_lossy(b).chars().collect()
}

} // verus!
