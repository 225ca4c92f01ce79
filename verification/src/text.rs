//! Character-level helpers shared by the dictionary logic. Every offset
//! here is a character offset (a position in the string's `Seq<char>`
//! view), never a byte offset.

use vstd::prelude::*;
use vstd::string::*;

verus! {

/// `t` is a suffix of `s`.
pub open spec fn seq_ends_with(s: Seq<char>, t: Seq<char>) -> bool {
    t.len() <= s.len() && s.subrange(s.len() - t.len(), s.len() as int) == t
}

/// `t` is a prefix of `s`.
pub open spec fn seq_starts_with(s: Seq<char>, t: Seq<char>) -> bool {
    t.len() <= s.len() && s.subrange(0, t.len() as int) == t
}

/// The characters of `s`, in order.
pub fn chars_of(s: &str) -> (v: Vec<char>)
    ensures
        v@ == s@,
{
    let n = s.unicode_len();
    let mut v: Vec<char> = Vec::new();
    let mut i: usize = 0;
    while i < n
        invariant
            n == s@.len(),
            i <= n,
            v@ == s@.subrange(0, i as int),
        decreases n - i,
    {
        let c = s.get_char(i);
        v.push(c);
        i = i + 1;
    }
    assert(v@ == s@);
    v
}

/// Builds a `String` from a sequence of characters (std's
/// `FromIterator<char>` for `String`). The claim is that the string holds
/// exactly the given characters in the given order.
#[verifier::external_body]
pub(crate) fn string_from_chars(chars: &[char]) -> (s: String)
    ensures
        s@ == chars@,
{
    chars.iter().collect()
}

/// Whether the character slice `t` is a suffix of `s`.
pub fn slice_ends_with(s: &[char], t: &[char]) -> (r: bool)
    ensures
        r == seq_ends_with(s@, t@),
{
    if t.len() > s.len() {
        return false;
    }
    let off = s.len() - t.len();
    let mut i: usize = 0;
    while i < t.len()
        invariant
            off == s@.len() - t@.len(),
            t@.len() <= s@.len(),
            s@.len() <= usize::MAX,
            i <= t@.len(),
            forall|j: int| 0 <= j < i ==> s@[off + j] == t@[j],
        decreases t.len() - i,
    {
        if s[off + i] != t[i] {
            assert(s@.subrange(off as int, s@.len() as int)[i as int] != t@[i as int]);
            return false;
        }
        i = i + 1;
    }
    assert(s@.subrange(off as int, s@.len() as int) =~= t@);
    true
}

/// Whether the character slice `t` is a prefix of `s`.
pub fn slice_starts_with(s: &[char], t: &[char]) -> (r: bool)
    ensures
        r == seq_starts_with(s@, t@),
{
    if t.len() > s.len() {
        return false;
    }
    let mut i: usize = 0;
    while i < t.len()
        invariant
            t@.len() <= s@.len(),
            i <= t@.len(),
            forall|j: int| 0 <= j < i ==> s@[j] == t@[j],
        decreases t.len() - i,
    {
        if s[i] != t[i] {
            assert(s@.subrange(0, t@.len() as int)[i as int] != t@[i as int]);
            return false;
        }
        i = i + 1;
    }
    assert(s@.subrange(0, t@.len() as int) =~= t@);
    true
}

/// Whether `s` ends with `t`, compared character by character.
pub fn str_ends_with(s: &str, t: &str) -> (r: bool)
    ensures
        r == seq_ends_with(s@, t@),
{
    let sv = chars_of(s);
    let tv = chars_of(t);
    slice_ends_with(sv.as_slice(), tv.as_slice())
}

/// Whether `s` starts with `t`, compared character by character.
pub fn str_starts_with(s: &str, t: &str) -> (r: bool)
    ensures
        r == seq_starts_with(s@, t@),
{
    let sv = chars_of(s);
    let tv = chars_of(t);
    slice_starts_with(sv.as_slice(), tv.as_slice())
}

/// Whether two strings hold the same characters.
pub fn str_eq(a: &str, b: &str) -> (r: bool)
    ensures
        r == (a@ == b@),
{
    let x = a.to_owned();
    let y = b.to_owned();
    x == y
}

/// Character count of `s`.
pub fn char_len(s: &str) -> (n: usize)
    ensures
        n == s@.len(),
{
    s.unicode_len()
}

/// `a` followed by `b`.
pub fn concat2(a: &str, b: &str) -> (r: String)
    ensures
        r@ == a@ + b@,
{
    let mut r = a.to_owned();
    r.append(b);
    r
}

/// `a`, `b` and `c` in order.
pub fn concat3(a: &str, b: &str, c: &str) -> (r: String)
    ensures
        r@ == a@ + b@ + c@,
{
    let mut r = a.to_owned();
    r.append(b);
    r.append(c);
    r
}

} // verus!
