//! Kana hints: splicing zero-width hint marks into a kana reading, and the
//! string helpers that hint rules use to locate hint positions.

use vstd::prelude::*;
use crate::text::{chars_of, string_from_chars};
use crate::word::{KaniHintKind, KaniWordDispatchEnum};

verus! {

/// The mark spliced in for a word-boundary space hint (zero-width space).
pub const KANA_HINT_SPACE: char = '\u{200B}';

/// The mark spliced in for a particle-modifier hint (zero-width non-joiner).
pub const KANA_HINT_MOD: char = '\u{200C}';

/// The mark character of a hint kind.
pub open spec fn spec_hint_char(kind: KaniHintKind) -> char {
    match kind {
        KaniHintKind::Space => KANA_HINT_SPACE,
        KaniHintKind::Mod => KANA_HINT_MOD,
    }
}

/// The mark character of a hint kind.
pub fn hint_char(kind: KaniHintKind) -> (c: char)
    ensures
        c == spec_hint_char(kind),
{
    match kind {
        KaniHintKind::Space => KANA_HINT_SPACE,
        KaniHintKind::Mod => KANA_HINT_MOD,
    }
}

/// The marks of the hints placed at position `pos`, in the order the hints
/// were supplied.
pub open spec fn marks_at(hints: Seq<(KaniHintKind, usize)>, pos: int) -> Seq<char>
    decreases hints.len(),
{
    if hints.len() == 0 {
        Seq::empty()
    } else {
        let rest = marks_at(hints.drop_last(), pos);
        if hints.last().1 == pos {
            rest.push(spec_hint_char(hints.last().0))
        } else {
            rest
        }
    }
}

/// The hinted rendering of the first `k` characters of `s`: before each
/// character come the marks placed at its position.
pub open spec fn hinted_prefix(s: Seq<char>, hints: Seq<(KaniHintKind, usize)>, k: int) -> Seq<char>
    decreases k,
{
    if k <= 0 {
        Seq::empty()
    } else {
        hinted_prefix(s, hints, k - 1) + marks_at(hints, k - 1) + seq![s[k - 1]]
    }
}

/// `s` with every in-range hint's mark spliced in before the character at
/// its position (a position equal to the length appends after the last
/// character); hints past the end are dropped.
pub open spec fn spec_insert_hints(s: Seq<char>, hints: Seq<(KaniHintKind, usize)>) -> Seq<char> {
    hinted_prefix(s, hints, s.len() as int) + marks_at(hints, s.len() as int)
}

/// No hint lands on a position: the rendering is the text itself.
pub proof fn lemma_no_marks(s: Seq<char>, hints: Seq<(KaniHintKind, usize)>, k: int)
    requires
        0 <= k <= s.len(),
        forall|i: int| 0 <= i < hints.len() ==> hints[i].1 > s.len(),
    ensures
        hinted_prefix(s, hints, k) == s.subrange(0, k),
        marks_at(hints, k) == Seq::<char>::empty(),
    decreases k,
{
    lemma_marks_empty(hints, k, s.len() as int);
    if k > 0 {
        lemma_no_marks(s, hints, k - 1);
        lemma_marks_empty(hints, k - 1, s.len() as int);
        assert(s.subrange(0, k - 1) + seq![s[k - 1]] =~= s.subrange(0, k));
    }
}

/// Hints that all fall past the end of `s` leave it unchanged.
pub proof fn law_insert_hints_out_of_range(s: Seq<char>, hints: Seq<(KaniHintKind, usize)>)
    requires
        forall|i: int| 0 <= i < hints.len() ==> hints[i].1 > s.len(),
    ensures
        spec_insert_hints(s, hints) == s,
{
    lemma_no_marks(s, hints, s.len() as int);
    assert(s.subrange(0, s.len() as int) =~= s);
}

/// Whether `c` is not a hint mark.
pub open spec fn not_mark(c: char) -> bool {
    c != KANA_HINT_SPACE && c != KANA_HINT_MOD
}

proof fn lemma_marks_are_marks(hints: Seq<(KaniHintKind, usize)>, pos: int)
    ensures
        marks_at(hints, pos).filter(|c: char| not_mark(c)) == Seq::<char>::empty(),
    decreases hints.len(),
{
    if hints.len() > 0 {
        lemma_marks_are_marks(hints.drop_last(), pos);
        let rest = marks_at(hints.drop_last(), pos);
        if hints.last().1 == pos {
            let m = spec_hint_char(hints.last().0);
            assert(!not_mark(m));
            Seq::filter_distributes_over_add(rest, seq![m], |c: char| not_mark(c));
            assert(seq![m].filter(|c: char| not_mark(c)) =~= Seq::<char>::empty()) by {
                reveal_with_fuel(Seq::filter, 2);
            }
            assert(rest.push(m) =~= rest + seq![m]);
        }
    }
}

proof fn lemma_prefix_unmarked(s: Seq<char>, hints: Seq<(KaniHintKind, usize)>, k: int)
    requires
        0 <= k <= s.len(),
        forall|i: int| 0 <= i < s.len() ==> not_mark(#[trigger] s[i]),
    ensures
        hinted_prefix(s, hints, k).filter(|c: char| not_mark(c)) == s.subrange(0, k),
    decreases k,
{
    if k > 0 {
        lemma_prefix_unmarked(s, hints, k - 1);
        lemma_marks_are_marks(hints, k - 1);
        let a = hinted_prefix(s, hints, k - 1);
        let b = marks_at(hints, k - 1);
        let c = seq![s[k - 1]];
        Seq::filter_distributes_over_add(a + b, c, |x: char| not_mark(x));
        Seq::filter_distributes_over_add(a, b, |x: char| not_mark(x));
        assert(c.filter(|x: char| not_mark(x)) =~= c) by {
            reveal_with_fuel(Seq::filter, 2);
        }
        assert(s.subrange(0, k - 1) + seq![s[k - 1]] =~= s.subrange(0, k));
    }
}

/// Inserting hints only adds marks: dropping the marks from the hinted
/// kana gives back the kana (when it held none).
pub proof fn law_insert_hints_only_adds_marks(s: Seq<char>, hints: Seq<(KaniHintKind, usize)>)
    requires
        forall|i: int| 0 <= i < s.len() ==> not_mark(#[trigger] s[i]),
    ensures
        spec_insert_hints(s, hints).filter(|c: char| not_mark(c)) == s,
{
    lemma_prefix_unmarked(s, hints, s.len() as int);
    lemma_marks_are_marks(hints, s.len() as int);
    Seq::filter_distributes_over_add(
        hinted_prefix(s, hints, s.len() as int),
        marks_at(hints, s.len() as int),
        |c: char| not_mark(c),
    );
    assert(s.subrange(0, s.len() as int) =~= s);
}

proof fn lemma_marks_empty(hints: Seq<(KaniHintKind, usize)>, pos: int, bound: int)
    requires
        pos <= bound,
        forall|i: int| 0 <= i < hints.len() ==> hints[i].1 > bound,
    ensures
        marks_at(hints, pos) == Seq::<char>::empty(),
    decreases hints.len(),
{
    if hints.len() > 0 {
        lemma_marks_empty(hints.drop_last(), pos, bound);
    }
}

/// Appends the marks of the hints at `pos` to `out`.
fn push_marks(out: &mut Vec<char>, hints: &[(KaniHintKind, usize)], pos: usize)
    ensures
        final(out)@ == old(out)@ + marks_at(hints@, pos as int),
{
    let mut j: usize = 0;
    while j < hints.len()
        invariant
            j <= hints@.len(),
            out@ == old(out)@ + marks_at(hints@.subrange(0, j as int), pos as int),
        decreases hints@.len() - j,
    {
        let ghost before = hints@.subrange(0, j as int);
        let ghost after = hints@.subrange(0, j + 1);
        assert(after.drop_last() =~= before);
        let (kind, p) = hints[j];
        if p == pos {
            out.push(hint_char(kind));
        }
        j = j + 1;
    }
    assert(hints@.subrange(0, hints@.len() as int) =~= hints@);
}

/// Splices hint marks into the kana `s` at the character positions named
/// by `hints`. Marks that share a position appear in the order the hints
/// were given; positions beyond the string's length are dropped.
pub fn insert_hints(s: &str, hints: &[(KaniHintKind, usize)]) -> (r: String)
    ensures
        r@ == spec_insert_hints(s@, hints@),
{
    let chars = chars_of(s);
    let len = chars.len();
    let mut out: Vec<char> = Vec::new();
    let mut i: usize = 0;
    while i < len
        invariant
            len == s@.len(),
            chars@ == s@,
            i <= len,
            out@ == hinted_prefix(s@, hints@, i as int),
        decreases len - i,
    {
        push_marks(&mut out, hints, i);
        out.push(chars[i]);
        i = i + 1;
    }
    push_marks(&mut out, hints, len);
    string_from_chars(out.as_slice())
}

/// Whether the last character of `s` is `c`.
pub fn ends_with_char(s: &str, c: char) -> (r: bool)
    ensures
        r == (s@.len() > 0 && s@.last() == c),
{
    let chars = chars_of(s);
    if chars.len() == 0 {
        false
    } else {
        chars[chars.len() - 1] == c
    }
}

/// The hinted kana of a simple hint: none when the reading has no kana,
/// else its kana with `hints` inserted.
pub fn finish_simple_hint(kana: Option<String>, hints: &[(KaniHintKind, usize)]) -> (r: Option<String>)
    ensures
        match kana {
            None => r is None,
            Some(k) => r matches Some(h) && h@ == spec_insert_hints(k@, hints@),
        },
{
    match kana {
        None => None,
        Some(k) => Some(insert_hints(k.as_str(), hints)),
    }
}

/// A reading's kana with its length in characters: none when the reading
/// has no kana.
pub fn true_kana_and_len(kana: Option<String>) -> (r: Option<(String, i64)>)
    requires
        kana matches Some(k) ==> k@.len() <= i64::MAX,
    ensures
        match kana {
            None => r is None,
            Some(k) => r matches Some(p) && p.0 == k && p.1 == k@.len(),
        },
{
    match kana {
        None => None,
        Some(k) => {
            let n = crate::text::char_len(k.as_str());
            Some((k, n as i64))
        },
    }
}

/// Whether an easy hint applies to a reading: only a kanji, kana or proxy
/// reading is hinted this way.
pub fn easy_hint_applies(reading: &KaniWordDispatchEnum) -> (r: bool)
    ensures
        r == (reading is Kanji || reading is Kana || reading is Proxy),
{
    match reading {
        KaniWordDispatchEnum::Kanji(_) | KaniWordDispatchEnum::Kana(_) | KaniWordDispatchEnum::Proxy(_) => true,
        _ => false,
    }
}

/// A hint at a signed position: negative positions produce no hint.
pub fn safe_hint(kind: KaniHintKind, pos: i64) -> (r: Option<(KaniHintKind, usize)>)
    ensures
        r == (if pos >= 0 {
            Some((kind, pos as usize))
        } else {
            None::<(KaniHintKind, usize)>
        }),
{
    if pos >= 0 {
        Some((kind, pos as usize))
    } else {
        None
    }
}

/// `needle` occurs in `haystack` starting at character position `i`.
pub open spec fn occurs_at(needle: Seq<char>, haystack: Seq<char>, i: int) -> bool {
    0 <= i && i + needle.len() <= haystack.len() && haystack.subrange(i, i + needle.len()) == needle
}

/// The result of searching `haystack` for `needle`: the first occurrence,
/// or the last one when `from_end`. An empty needle is found at the start
/// (or at the end when `from_end`).
pub open spec fn spec_search_chars(needle: Seq<char>, haystack: Seq<char>, from_end: bool) -> Option<usize> {
    if needle.len() == 0 {
        Some(if from_end { haystack.len() as usize } else { 0usize })
    } else if !(exists|i: int| occurs_at(needle, haystack, i)) {
        None
    } else if from_end {
        Some((choose|i: int| occurs_at(needle, haystack, i)
            && forall|j: int| occurs_at(needle, haystack, j) ==> j <= i) as usize)
    } else {
        Some((choose|i: int| occurs_at(needle, haystack, i)
            && forall|j: int| occurs_at(needle, haystack, j) ==> i <= j) as usize)
    }
}

proof fn lemma_search_last(n: Seq<char>, h: Seq<char>, w: int)
    requires
        n.len() > 0,
        occurs_at(n, h, w),
        forall|j: int| w < j ==> !occurs_at(n, h, j),
    ensures
        spec_search_chars(n, h, true) == Some(w as usize),
{
    let c = choose|i: int| occurs_at(n, h, i) && forall|j: int| occurs_at(n, h, j) ==> j <= i;
    assert(occurs_at(n, h, w) && forall|j: int| occurs_at(n, h, j) ==> j <= w);
    assert(occurs_at(n, h, c) && forall|j: int| occurs_at(n, h, j) ==> j <= c);
    assert(c == w);
}

proof fn lemma_search_first(n: Seq<char>, h: Seq<char>, w: int)
    requires
        n.len() > 0,
        occurs_at(n, h, w),
        forall|j: int| j < w ==> !occurs_at(n, h, j),
    ensures
        spec_search_chars(n, h, false) == Some(w as usize),
{
    let c = choose|i: int| occurs_at(n, h, i) && forall|j: int| occurs_at(n, h, j) ==> i <= j;
    assert(occurs_at(n, h, w) && forall|j: int| occurs_at(n, h, j) ==> w <= j);
    assert(occurs_at(n, h, c) && forall|j: int| occurs_at(n, h, j) ==> c <= j);
    assert(c == w);
}

fn occurs_at_exec(n: &[char], h: &[char], i: usize) -> (r: bool)
    requires
        i + n@.len() <= h@.len(),
    ensures
        r == occurs_at(n@, h@, i as int),
{
    let hl = h.len();
    let mut k: usize = 0;
    while k < n.len()
        invariant
            i + n@.len() <= h@.len(),
            hl == h@.len(),
            k <= n@.len(),
            forall|m: int| 0 <= m < k ==> h@[i + m] == n@[m],
        decreases n@.len() - k,
    {
        if h[i + k] != n[k] {
            assert(h@.subrange(i as int, i + n@.len())[k as int] != n@[k as int]);
            return false;
        }
        k = k + 1;
    }
    assert(h@.subrange(i as int, i + n@.len()) =~= n@);
    true
}

/// Character position of `needle` in `haystack`: the first occurrence, or
/// the last when `from_end`; an empty needle matches at the start (or the
/// end when `from_end`).
pub fn search_chars(needle: &str, haystack: &str, from_end: bool) -> (r: Option<usize>)
    ensures
        r == spec_search_chars(needle@, haystack@, from_end),
{
    let h = chars_of(haystack);
    let n = chars_of(needle);
    if n.len() == 0 {
        return Some(if from_end { h.len() } else { 0 });
    }
    if n.len() > h.len() {
        assert forall|i: int| !occurs_at(needle@, haystack@, i) by {}
        return None;
    }
    let last_start = h.len() - n.len();
    if from_end {
        let mut i: usize = last_start + 1;
        while i > 0
            invariant
                last_start == h@.len() - n@.len(),
                h@ == haystack@,
                n@ == needle@,
                n@.len() > 0,
                i <= last_start + 1,
                from_end,
                forall|j: int| i <= j ==> !occurs_at(n@, h@, j),
            decreases i,
        {
            i = i - 1;
            if occurs_at_exec(n.as_slice(), h.as_slice(), i) {
                proof {
                    lemma_search_last(needle@, haystack@, i as int);
                }
                return Some(i);
            }
        }
        None
    } else {
        let hl = h.len();
        let mut i: usize = 0;
        while i <= last_start
            invariant
                last_start == h@.len() - n@.len(),
                hl == h@.len(),
                h@ == haystack@,
                n@ == needle@,
                n@.len() > 0,
                i <= last_start + 1,
                !from_end,
                forall|j: int| j < i ==> !occurs_at(n@, h@, j),
            decreases last_start + 1 - i,
        {
            if occurs_at_exec(n.as_slice(), h.as_slice(), i) {
                proof {
                    lemma_search_first(needle@, haystack@, i as int);
                }
                return Some(i);
            }
            i = i + 1;
        }
        None
    }
}

/// `s` cut at every space: the pieces between spaces, in order (a string
/// without spaces is one piece; consecutive spaces give empty pieces).
pub open spec fn split_on_space(s: Seq<char>) -> Seq<Seq<char>>
    decreases s.len(),
{
    if s.len() == 0 {
        seq![Seq::<char>::empty()]
    } else {
        let p = split_on_space(s.drop_last());
        if s.last() == ' ' {
            p.push(Seq::<char>::empty())
        } else {
            p.update(p.len() - 1, p.last().push(s.last()))
        }
    }
}

/// Total number of characters in `parts`.
pub open spec fn total_len(parts: Seq<Seq<char>>) -> int
    decreases parts.len(),
{
    if parts.len() == 0 {
        0
    } else {
        total_len(parts.drop_last()) + parts.last().len()
    }
}

/// `parts` joined with nothing in between.
pub open spec fn join_parts(parts: Seq<Seq<char>>) -> Seq<char>
    decreases parts.len(),
{
    if parts.len() == 0 {
        Seq::empty()
    } else {
        join_parts(parts.drop_last()) + parts.last()
    }
}

/// The particle pieces that carry a modifier hint on their last character.
pub open spec fn is_mod_part(p: Seq<char>) -> bool {
    p == "は"@ || p == "へ"@ || p == "には"@ || p == "とは"@
}

/// Hints of a split kanji text: every piece that starts after at least
/// one character of the joined text gets a space hint at its start, and a
/// particle piece there also gets a modifier hint on its last character.
/// While the position is still 0 no hint is given. Positions count
/// characters of the joined text.
pub open spec fn easy_hints(parts: Seq<Seq<char>>) -> Seq<(KaniHintKind, usize)>
    decreases parts.len(),
{
    if parts.len() == 0 {
        Seq::empty()
    } else if total_len(parts.drop_last()) == 0 {
        easy_hints(parts.drop_last())
    } else {
        let prev = easy_hints(parts.drop_last());
        let pos = total_len(parts.drop_last());
        let with_space = prev.push((KaniHintKind::Space, pos as usize));
        if is_mod_part(parts.last()) {
            with_space.push((KaniHintKind::Mod, (pos + parts.last().len() - 1) as usize))
        } else {
            with_space
        }
    }
}

proof fn lemma_split_nonempty(s: Seq<char>)
    ensures
        split_on_space(s).len() >= 1,
        total_len(split_on_space(s)) <= s.len(),
    decreases s.len(),
{
    if s.len() == 0 {
        let q = split_on_space(s);
        assert(q.drop_last().len() == 0);
        assert(total_len(q) == total_len(q.drop_last()) + q.last().len());
    } else {
        lemma_split_nonempty(s.drop_last());
        let p = split_on_space(s.drop_last());
        let q = split_on_space(s);
        if s.last() == ' ' {
            assert(q.drop_last() =~= p);
            assert(total_len(q) == total_len(p) + 0);
        } else {
            assert(q.drop_last() =~= p.drop_last());
            assert(q.last() == p.last().push(s.last()));
            assert(total_len(p) == total_len(p.drop_last()) + p.last().len());
            assert(total_len(q) == total_len(p) + 1);
        }
    }
}

proof fn lemma_total_len_monotone(parts: Seq<Seq<char>>, n: int)
    requires
        0 <= n <= parts.len(),
    ensures
        total_len(parts.subrange(0, n)) <= total_len(parts),
        total_len(parts.subrange(0, n)) >= 0,
    decreases parts.len(),
{
    if n == parts.len() {
        assert(parts.subrange(0, n) =~= parts);
        lemma_total_len_nonneg(parts);
    } else {
        lemma_total_len_monotone(parts.drop_last(), n);
        assert(parts.drop_last().subrange(0, n) =~= parts.subrange(0, n));
    }
}

proof fn lemma_total_len_nonneg(parts: Seq<Seq<char>>)
    ensures
        total_len(parts) >= 0,
    decreases parts.len(),
{
    if parts.len() > 0 {
        lemma_total_len_nonneg(parts.drop_last());
    }
}

/// The character sequences held by a vector of character vectors.
pub open spec fn char_vec_views(v: Seq<Vec<char>>) -> Seq<Seq<char>> {
    Seq::new(v.len(), |i: int| v[i]@)
}

/// Cuts `chars` at every space.
fn split_spaces(chars: &Vec<char>) -> (r: Vec<Vec<char>>)
    ensures
        char_vec_views(r@) == split_on_space(chars@),
{
    let mut done: Vec<Vec<char>> = Vec::new();
    let mut cur: Vec<char> = Vec::new();
    let mut i: usize = 0;
    while i < chars.len()
        invariant
            i <= chars@.len(),
            char_vec_views(done@).push(cur@) == split_on_space(chars@.subrange(0, i as int)),
        decreases chars@.len() - i,
    {
        let ghost pre = chars@.subrange(0, i as int);
        let ghost post = chars@.subrange(0, i + 1);
        assert(post.drop_last() =~= pre);
        let c = chars[i];
        if c == ' ' {
            let finished = cur;
            done.push(finished);
            cur = Vec::new();
            assert(char_vec_views(done@).push(cur@) =~= split_on_space(post));
        } else {
            let ghost old_done = char_vec_views(done@);
            cur.push(c);
            assert(char_vec_views(done@).push(cur@) =~= split_on_space(post));
        }
        i = i + 1;
    }
    assert(chars@.subrange(0, chars@.len() as int) =~= chars@);
    let ghost before = char_vec_views(done@);
    done.push(cur);
    assert(char_vec_views(done@) =~= before.push(cur@));
    done
}

fn slice_eq(a: &[char], b: &[char]) -> (r: bool)
    ensures
        r == (a@ == b@),
{
    if a.len() != b.len() {
        return false;
    }
    let mut i: usize = 0;
    while i < a.len()
        invariant
            a@.len() == b@.len(),
            i <= a@.len(),
            forall|j: int| 0 <= j < i ==> a@[j] == b@[j],
        decreases a@.len() - i,
    {
        if a[i] != b[i] {
            return false;
        }
        i = i + 1;
    }
    assert(a@ =~= b@);
    true
}

fn is_mod_part_exec(p: &Vec<char>) -> (r: bool)
    ensures
        r == is_mod_part(p@),
{
    let ha = chars_of("は");
    let he = chars_of("へ");
    let niha = chars_of("には");
    let toha = chars_of("とは");
    slice_eq(p.as_slice(), ha.as_slice()) || slice_eq(p.as_slice(), he.as_slice())
        || slice_eq(p.as_slice(), niha.as_slice()) || slice_eq(p.as_slice(), toha.as_slice())
}

/// The text (spaces removed) and hint list of a space-separated kanji
/// split such as "郷 に 入って は 郷 に 従え".
pub open spec fn spec_parse_kanji_split(s: Seq<char>) -> (Seq<char>, Seq<(KaniHintKind, usize)>) {
    (join_parts(split_on_space(s)), easy_hints(split_on_space(s)))
}

/// Splits a space-separated kanji text into its joined text and the hints
/// at every piece boundary past the first character (plus a modifier hint
/// on the last character of the particles は, へ, には and とは there).
pub fn parse_kanji_split(kanji_split: &str) -> (r: (String, Vec<(KaniHintKind, usize)>))
    ensures
        r.0@ == spec_parse_kanji_split(kanji_split@).0,
        r.1@ == spec_parse_kanji_split(kanji_split@).1,
{
    let chars = chars_of(kanji_split);
    let n_chars = chars.len();
    let parts = split_spaces(&chars);
    let ghost ps = split_on_space(kanji_split@);
    proof {
        lemma_split_nonempty(kanji_split@);
    }
    let mut text: Vec<char> = Vec::new();
    let mut hints: Vec<(KaniHintKind, usize)> = Vec::new();
    let mut pos: usize = 0;
    let mut i: usize = 0;
    while i < parts.len()
        invariant
            char_vec_views(parts@) == ps,
            total_len(ps) <= kanji_split@.len(),
            kanji_split@.len() <= usize::MAX,
            i <= ps.len(),
            pos == total_len(ps.subrange(0, i as int)),
            text@ == join_parts(ps.subrange(0, i as int)),
            hints@ == easy_hints(ps.subrange(0, i as int)),
        decreases ps.len() - i,
    {
        let ghost pre = ps.subrange(0, i as int);
        let ghost post = ps.subrange(0, i + 1);
        assert(post.drop_last() =~= pre);
        assert(post.last() == parts@[i as int]@);
        proof {
            lemma_total_len_monotone(ps, i + 1);
        }
        let part = &parts[i];
        let part_len = part.len();
        if pos > 0 {
            hints.push((KaniHintKind::Space, pos));
            if is_mod_part_exec(part) {
                proof {
                    reveal_strlit("は");
                    reveal_strlit("へ");
                    reveal_strlit("には");
                    reveal_strlit("とは");
                }
                assert(part_len > 0);
                hints.push((KaniHintKind::Mod, pos + part_len - 1));
            }
        }
        let mut k: usize = 0;
        let ghost text_before = text@;
        while k < part_len
            invariant
                k <= part_len,
                part_len == part@.len(),
                part_len >= 0,
                text@ == text_before + part@.subrange(0, k as int),
            decreases part_len - k,
        {
            text.push(part[k]);
            k = k + 1;
        }
        assert(part@.subrange(0, part_len as int) =~= part@);
        pos = pos + part_len;
        i = i + 1;
    }
    assert(ps.subrange(0, ps.len() as int) =~= ps);
    (string_from_chars(text.as_slice()), hints)
}

/// An easy hint: an entry and its kanji text with a space at every
/// boundary the reading is hinted at.
#[derive(Debug, Clone, Copy)]
pub struct EasyHint {
    pub seq: i32,
    pub kanji_split: &'static str,
}

/// The joined text and hint list of an easy hint.
#[derive(Debug)]
pub struct ParsedEasyHint {
    pub text: String,
    pub hints: Vec<(KaniHintKind, usize)>,
}

/// The joined text and hint list of `hint`'s kanji split.
pub fn parsed_easy_hint(hint: &EasyHint) -> (r: ParsedEasyHint)
    ensures
        r.text@ == spec_parse_kanji_split(hint.kanji_split@).0,
        r.hints@ == spec_parse_kanji_split(hint.kanji_split@).1,
{
    let (text, hints) = parse_kanji_split(hint.kanji_split);
    ParsedEasyHint { text, hints }
}

/// Splitting on spaces and joining the pieces drops exactly the spaces.
proof fn lemma_join_split(s: Seq<char>)
    ensures
        join_parts(split_on_space(s)) == s.filter(|c: char| c != ' '),
    decreases s.len(),
{
    if s.len() == 0 {
        assert(join_parts(split_on_space(s)) =~= Seq::<char>::empty()) by {
            reveal_with_fuel(join_parts, 2);
        }
    } else {
        lemma_join_split(s.drop_last());
        lemma_split_nonempty(s.drop_last());
        let p = split_on_space(s.drop_last());
        let c = s.last();
        assert(s =~= s.drop_last().push(c));
        Seq::filter_distributes_over_add(s.drop_last(), seq![c], |x: char| x != ' ');
        assert(s.drop_last() + seq![c] =~= s);
        if c == ' ' {
            assert(seq![c].filter(|x: char| x != ' ') =~= Seq::<char>::empty()) by {
                reveal_with_fuel(Seq::filter, 2);
            }
            assert(p.push(Seq::<char>::empty()).drop_last() =~= p);
            assert(join_parts(p.push(Seq::<char>::empty())) =~= join_parts(p));
        } else {
            assert(seq![c].filter(|x: char| x != ' ') =~= seq![c]) by {
                reveal_with_fuel(Seq::filter, 2);
            }
            let q = p.update(p.len() - 1, p.last().push(c));
            assert(q.drop_last() =~= p.drop_last());
            assert(join_parts(q) =~= join_parts(p.drop_last()) + p.last().push(c));
            assert(join_parts(p) == join_parts(p.drop_last()) + p.last());
            assert(join_parts(q) =~= join_parts(p) + seq![c]);
        }
    }
}

/// The text of a kanji split is the split without its spaces.
pub proof fn law_kanji_split_text(s: Seq<char>)
    ensures
        spec_parse_kanji_split(s).0 == s.filter(|c: char| c != ' '),
{
    lemma_join_split(s);
}

/// How the hints of a split kanji text grow piece by piece: a piece that
/// starts at position 0 adds nothing; a piece that starts later adds a
/// space hint at its start and, when the piece is the particle は, へ,
/// には or とは, a modifier hint on its last character.
pub proof fn law_easy_hints_extend(parts: Seq<Seq<char>>, p: Seq<char>)
    ensures
        total_len(parts) == 0 ==> easy_hints(parts.push(p)) == easy_hints(parts),
        total_len(parts) != 0 ==> easy_hints(parts.push(p)) == easy_hints(parts) + seq![
            (KaniHintKind::Space, total_len(parts) as usize),
        ] + if p == "は"@ || p == "へ"@ || p == "には"@ || p == "とは"@ {
            seq![(KaniHintKind::Mod, (total_len(parts) + p.len() - 1) as usize)]
        } else {
            Seq::<(KaniHintKind, usize)>::empty()
        },
{
    assert(parts.push(p).drop_last() =~= parts);
    let prev = easy_hints(parts);
    let pos = total_len(parts);
    if pos != 0 {
        let sp = seq![(KaniHintKind::Space, pos as usize)];
        if is_mod_part(p) {
            assert(prev.push((KaniHintKind::Space, pos as usize)).push((KaniHintKind::Mod, (pos + p.len() - 1) as usize))
                =~= prev + sp + seq![(KaniHintKind::Mod, (pos + p.len() - 1) as usize)]);
        } else {
            assert(prev.push((KaniHintKind::Space, pos as usize)) =~= prev + sp + Seq::<(KaniHintKind, usize)>::empty());
        }
    }
}

} // verus!
