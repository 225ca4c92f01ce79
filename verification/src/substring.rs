//! Enumerating the substrings of a sentence that are looked up as words,
//! and collecting the kanji-break positions of the words found.

use vstd::prelude::*;
use crate::loader::{keep_last, keep_last_prefix};
use crate::segment::Segment;
use crate::word::KaniWordDispatchEnum;

verus! {

/// The substring `[start, end)` (in characters) to look up, whether it is
/// a whole katakana group (looked up as hiragana too), and the length of
/// the number group it starts with when that group ends inside it and is
/// at most 20 characters long (looked up as a counter).
#[derive(Debug, Clone, Copy, PartialEq, Eq, Structural)]
pub struct SubstringQuery {
    pub start: usize,
    pub end: usize,
    pub as_hiragana: bool,
    pub counter: Option<usize>,
}

/// The end of the group starting at `start`, if any.
pub open spec fn group_end(groups: Seq<(usize, usize)>, start: usize) -> Option<usize>
    decreases groups.len(),
{
    if groups.len() == 0 {
        None
    } else if groups[0].0 == start {
        Some(groups[0].1)
    } else {
        group_end(groups.drop_first(), start)
    }
}

/// The query for `[start, end)`.
pub open spec fn query_for(
    start: usize,
    end: usize,
    katakana_groups: Seq<(usize, usize)>,
    number_groups: Seq<(usize, usize)>,
) -> SubstringQuery {
    SubstringQuery {
        start,
        end,
        as_hiragana: group_end(katakana_groups, start) == Some(end),
        counter: match group_end(number_groups, start) {
            Some(g) => if g <= end && g - start <= 20 {
                Some((g - start) as usize)
            } else {
                None
            },
            None => None,
        },
    }
}

/// The last end position tried for `start`.
pub open spec fn end_cap(length: int, start: int, max_len: int) -> int {
    if start + max_len < length { start + max_len } else { length }
}

/// The queries for the substrings starting at `start` whose end is at most
/// `upto`, in order of end.
pub open spec fn queries_from(
    start: usize,
    upto: int,
    sticky: Seq<usize>,
    katakana_groups: Seq<(usize, usize)>,
    number_groups: Seq<(usize, usize)>,
) -> Seq<SubstringQuery>
    decreases upto - start,
{
    if upto <= start {
        Seq::empty()
    } else {
        let rest = queries_from(start, upto - 1, sticky, katakana_groups, number_groups);
        if sticky.contains(upto as usize) {
            rest
        } else {
            rest.push(query_for(start, upto as usize, katakana_groups, number_groups))
        }
    }
}

/// The queries for the substrings starting before `n`, by start and then
/// by end; no substring starts or ends at a sticky position.
pub open spec fn all_queries(
    n: int,
    length: int,
    max_len: int,
    sticky: Seq<usize>,
    katakana_groups: Seq<(usize, usize)>,
    number_groups: Seq<(usize, usize)>,
) -> Seq<SubstringQuery>
    decreases n,
{
    if n <= 0 {
        Seq::empty()
    } else {
        let rest = all_queries(n - 1, length, max_len, sticky, katakana_groups, number_groups);
        let start = (n - 1) as usize;
        if sticky.contains(start) {
            rest
        } else {
            rest + queries_from(start, end_cap(length, n - 1, max_len), sticky, katakana_groups, number_groups)
        }
    }
}

/// Groups are well formed: each ends no earlier than it starts.
pub open spec fn groups_ordered(groups: Seq<(usize, usize)>) -> bool {
    forall|i: int| 0 <= i < groups.len() ==> (#[trigger] groups[i]).0 <= groups[i].1
}

proof fn lemma_group_end_ordered(groups: Seq<(usize, usize)>, start: usize)
    requires
        groups_ordered(groups),
    ensures
        group_end(groups, start) matches Some(g) ==> start <= g,
    decreases groups.len(),
{
    if groups.len() > 0 && groups[0].0 != start {
        assert forall|i: int| 0 <= i < groups.drop_first().len() implies (#[trigger] groups.drop_first()[i]).0 <= groups.drop_first()[i].1 by {
            assert(groups.drop_first()[i] == groups[i + 1]);
        }
        lemma_group_end_ordered(groups.drop_first(), start);
    }
}

/// The end of the group starting at `start`, if any.
fn find_group_end(groups: &[(usize, usize)], start: usize) -> (r: Option<usize>)
    ensures
        r == group_end(groups@, start),
{
    let mut i: usize = 0;
    assert(groups@.skip(0) =~= groups@);
    while i < groups.len()
        invariant
            i <= groups@.len(),
            group_end(groups@, start) == group_end(groups@.skip(i as int), start),
        decreases groups@.len() - i,
    {
        assert(groups@.skip(i as int).drop_first() =~= groups@.skip(i + 1));
        assert(groups@.skip(i as int)[0] == groups@[i as int]);
        if groups[i].0 == start {
            return Some(groups[i].1);
        }
        i = i + 1;
    }
    None
}

/// Whether `positions` holds `p`.
fn holds(positions: &[usize], p: usize) -> (r: bool)
    ensures
        r == positions@.contains(p),
{
    let mut i: usize = 0;
    while i < positions.len()
        invariant
            i <= positions@.len(),
            forall|j: int| 0 <= j < i ==> positions@[j] != p,
        decreases positions@.len() - i,
    {
        if positions[i] == p {
            assert(positions@[i as int] == p);
            return true;
        }
        i = i + 1;
    }
    false
}

/// Every substring of a sentence of `length` characters to look up, by
/// start and then by end: substrings of at most `max_word_length`
/// characters that neither start nor end at a sticky position, each
/// flagged for the katakana and number groups that start with it.
pub fn substring_queries(
    length: usize,
    sticky: &[usize],
    katakana_groups: &[(usize, usize)],
    number_groups: &[(usize, usize)],
    max_word_length: usize,
) -> (r: Vec<SubstringQuery>)
    requires
        groups_ordered(number_groups@),
    ensures
        r@ == all_queries(length as int, length as int, max_word_length as int, sticky@, katakana_groups@, number_groups@),
{
    let mut out: Vec<SubstringQuery> = Vec::new();
    let mut start: usize = 0;
    while start < length
        invariant
            start <= length,
            groups_ordered(number_groups@),
            out@ == all_queries(start as int, length as int, max_word_length as int, sticky@, katakana_groups@, number_groups@),
        decreases length - start,
    {
        let kg = find_group_end(katakana_groups, start);
        let ng = find_group_end(number_groups, start);
        proof {
            lemma_group_end_ordered(number_groups@, start);
        }
        if !holds(sticky, start) {
            let cap = if max_word_length < length - start { start + max_word_length } else { length };
            let ghost base = out@;
            let mut end: usize = start;
            while end < cap
                invariant
                    start <= end <= cap,
                    cap == end_cap(length as int, start as int, max_word_length as int),
                    kg == group_end(katakana_groups@, start),
                    ng == group_end(number_groups@, start),
                    ng matches Some(g) ==> start <= g,
                    out@ == base + queries_from(start, end as int, sticky@, katakana_groups@, number_groups@),
                decreases cap - end,
            {
                end = end + 1;
                if !holds(sticky, end) {
                    let counter = match ng {
                        Some(g) => if g <= end && g - start <= 20 {
                            Some(g - start)
                        } else {
                            None
                        },
                        None => None,
                    };
                    let as_hiragana = match kg {
                        Some(k) => k == end,
                        None => false,
                    };
                    let q = SubstringQuery { start, end, as_hiragana, counter };
                    assert(q == query_for(start, end, katakana_groups@, number_groups@));
                    out.push(q);
                }
            }
        }
        start = start + 1;
    }
    out
}

/// Whether `items[from..]` holds `p`.
fn occurs_from(items: &[usize], from: usize, p: usize) -> (r: bool)
    requires
        from <= items@.len(),
    ensures
        r == items@.subrange(from as int, items@.len() as int).contains(p),
{
    let ghost tail = items@.subrange(from as int, items@.len() as int);
    let mut j: usize = from;
    while j < items.len()
        invariant
            from <= j <= items@.len(),
            tail == items@.subrange(from as int, items@.len() as int),
            forall|k: int| 0 <= k < j - from ==> tail[k] != p,
        decreases items@.len() - j,
    {
        if items[j] == p {
            assert(tail[j - from] == p);
            return true;
        }
        j = j + 1;
    }
    false
}

/// `items` without the earlier occurrences of repeated positions: a
/// position stays where it occurs for the last time.
pub fn remove_duplicates(items: &[usize]) -> (r: Vec<usize>)
    ensures
        r@ == keep_last(items@),
{
    let mut out: Vec<usize> = Vec::new();
    let mut i: usize = 0;
    while i < items.len()
        invariant
            i <= items@.len(),
            out@ == keep_last_prefix(items@, i as int),
        decreases items@.len() - i,
    {
        let p = items[i];
        let later = occurs_from(items, i + 1, p);
        if !later {
            out.push(p);
        }
        i = i + 1;
    }
    out
}

/// How a substring that was found contributes kanji-break positions.
#[derive(Debug, Clone, Copy, PartialEq, Eq, Structural)]
pub enum BreakRule {
    /// A break at every interior position.
    Force,
    /// No break.
    NoBreak,
    /// The breaks between its sequential kanji.
    Sequential,
}

/// The kanji-break positions a found substring `[start, end)` gives:
/// every interior position, none, or the given sequential-kanji positions.
pub fn break_positions(rule: BreakRule, start: usize, end: usize, sequential: Vec<usize>) -> (r: Vec<usize>)
    requires
        start <= end,
    ensures
        r@ == match rule {
            BreakRule::Force => Seq::new((if end > start + 1 { end - start - 1 } else { 0 }) as nat, |k: int| (start + 1 + k) as usize),
            BreakRule::NoBreak => Seq::empty(),
            BreakRule::Sequential => sequential@,
        },
{
    match rule {
        BreakRule::Force => {
            let mut r: Vec<usize> = Vec::new();
            if start < end {
                let mut p: usize = start + 1;
                while p < end
                    invariant
                        start + 1 <= p <= end,
                        r@ == Seq::new((p - start - 1) as nat, |k: int| (start + 1 + k) as usize),
                    decreases end - p,
                {
                    r.push(p);
                    assert(r@ =~= Seq::new((p + 1 - start - 1) as nat, |k: int| (start + 1 + k) as usize));
                    p = p + 1;
                }
            }
            assert(r@ =~= Seq::new((if end > start + 1 { end - start - 1 } else { 0 }) as nat, |k: int| (start + 1 + k) as usize));
            r
        },
        BreakRule::NoBreak => Vec::new(),
        BreakRule::Sequential => sequential,
    }
}

/// The kanji-break positions collected so far and the end positions of
/// the substrings found so far (latest first).
#[derive(Debug)]
pub struct KanjiBreaks {
    pub kanji_break: Vec<usize>,
    pub ends: Vec<usize>,
}

impl KanjiBreaks {
    /// Nothing found yet.
    pub fn new() -> (r: Self)
        ensures
            r.kanji_break@.len() == 0,
            r.ends@.len() == 0,
    {
        KanjiBreaks { kanji_break: Vec::new(), ends: Vec::new() }
    }

    /// Records that words were found for `[start, end)`: when the
    /// substring starts the sentence or starts where an earlier one ended,
    /// its break positions go in front of those collected; its end is
    /// recorded once.
    pub fn record_hit(&mut self, start: usize, end: usize, positions: Vec<usize>)
        ensures
            final(self).kanji_break@ == if start == 0 || old(self).ends@.contains(start) {
                positions@ + old(self).kanji_break@
            } else {
                old(self).kanji_break@
            },
            final(self).ends@ == if old(self).ends@.contains(end) {
                old(self).ends@
            } else {
                seq![end] + old(self).ends@
            },
    {
        if start == 0 || holds(self.ends.as_slice(), start) {
            let mut combined = positions;
            let mut rest = Vec::new();
            std::mem::swap(&mut rest, &mut self.kanji_break);
            combined.append(&mut rest);
            self.kanji_break = combined;
        }
        if !holds(self.ends.as_slice(), end) {
            self.ends.insert(0, end);
        }
    }

    /// The collected positions, each kept where it occurs last.
    pub fn finish(&self) -> (r: Vec<usize>)
        ensures
            r@ == keep_last(self.kanji_break@),
    {
        remove_duplicates(self.kanji_break.as_slice())
    }
}

/// A query stays inside the sentence, spans one to `max_len` characters,
/// and neither starts nor ends at a sticky position.
pub open spec fn query_ok(q: SubstringQuery, length: int, max_len: int, sticky: Seq<usize>) -> bool {
    &&& q.start < q.end <= length
    &&& q.end - q.start <= max_len
    &&& !sticky.contains(q.start)
    &&& !sticky.contains(q.end)
}

proof fn lemma_queries_from_ok(
    start: usize,
    upto: int,
    length: int,
    max_len: int,
    sticky: Seq<usize>,
    katakana_groups: Seq<(usize, usize)>,
    number_groups: Seq<(usize, usize)>,
)
    requires
        upto <= length <= usize::MAX,
        upto - start <= max_len,
        !sticky.contains(start),
    ensures
        forall|i: int| 0 <= i < queries_from(start, upto, sticky, katakana_groups, number_groups).len()
            ==> query_ok(#[trigger] queries_from(start, upto, sticky, katakana_groups, number_groups)[i], length, max_len, sticky),
    decreases upto - start,
{
    if upto > start {
        lemma_queries_from_ok(start, upto - 1, length, max_len, sticky, katakana_groups, number_groups);
        let rest = queries_from(start, upto - 1, sticky, katakana_groups, number_groups);
        let all = queries_from(start, upto, sticky, katakana_groups, number_groups);
        assert forall|i: int| 0 <= i < all.len() implies query_ok(#[trigger] all[i], length, max_len, sticky) by {
            if i < rest.len() {
                assert(all[i] == rest[i]);
            }
        }
    }
}

/// Every substring looked up stays inside the sentence, is at most
/// `max_word_length` characters long, and neither starts nor ends at a
/// sticky position.
pub proof fn law_substring_queries_ok(
    n: int,
    length: int,
    max_len: int,
    sticky: Seq<usize>,
    katakana_groups: Seq<(usize, usize)>,
    number_groups: Seq<(usize, usize)>,
)
    requires
        0 <= n <= length <= usize::MAX,
        0 <= max_len,
    ensures
        forall|i: int| 0 <= i < all_queries(n, length, max_len, sticky, katakana_groups, number_groups).len()
            ==> query_ok(#[trigger] all_queries(n, length, max_len, sticky, katakana_groups, number_groups)[i], length, max_len, sticky),
    decreases n,
{
    if n > 0 {
        law_substring_queries_ok(n - 1, length, max_len, sticky, katakana_groups, number_groups);
        let start = (n - 1) as usize;
        if !sticky.contains(start) {
            lemma_queries_from_ok(start, end_cap(length, n - 1, max_len), length, max_len, sticky, katakana_groups, number_groups);
            let rest = all_queries(n - 1, length, max_len, sticky, katakana_groups, number_groups);
            let more = queries_from(start, end_cap(length, n - 1, max_len), sticky, katakana_groups, number_groups);
            assert(all_queries(n, length, max_len, sticky, katakana_groups, number_groups) == rest + more);
            assert forall|i: int| 0 <= i < (rest + more).len() implies query_ok(#[trigger] (rest + more)[i], length, max_len, sticky) by {
                if i >= rest.len() {
                    assert((rest + more)[i] == more[i - rest.len()]);
                } else {
                    assert((rest + more)[i] == rest[i]);
                }
            }
        } else {
            assert(all_queries(n, length, max_len, sticky, katakana_groups, number_groups)
                == all_queries(n - 1, length, max_len, sticky, katakana_groups, number_groups));
        }
    }
}

/// Recording a hit never records an end position twice: the ends stay
/// free of repeats.
pub proof fn law_record_hit_ends_unique(old_ends: Seq<usize>, end: usize, new_ends: Seq<usize>)
    requires
        old_ends.no_duplicates(),
        new_ends == if old_ends.contains(end) { old_ends } else { seq![end] + old_ends },
    ensures
        new_ends.no_duplicates(),
        new_ends.contains(end),
        forall|e: usize| old_ends.contains(e) ==> new_ends.contains(e),
{
    if !old_ends.contains(end) {
        assert forall|i: int, j: int| 0 <= i < j < new_ends.len() implies new_ends[i] != new_ends[j] by {
            if i == 0 {
                assert(new_ends[j] == old_ends[j - 1]);
            } else {
                assert(new_ends[i] == old_ends[i - 1] && new_ends[j] == old_ends[j - 1]);
            }
        }
        assert(new_ends[0] == end);
        assert forall|e: usize| old_ends.contains(e) implies new_ends.contains(e) by {
            let k = choose|k: int| 0 <= k < old_ends.len() && old_ends[k] == e;
            assert(new_ends[k + 1] == e);
        }
    }
}

/// The kanji-break positions of the sentence that fall on the edges of
/// `[start, end)`, relative to `start`: the end first, then the start.
pub fn local_kanji_breaks(kanji_break: &[usize], start: usize, end: usize) -> (r: Vec<usize>)
    requires
        start <= end,
    ensures
        r@ == (if kanji_break@.contains(end) { seq![(end - start) as usize] } else { Seq::empty() })
            + (if kanji_break@.contains(start) { seq![0usize] } else { Seq::empty() }),
{
    let mut r: Vec<usize> = Vec::new();
    if holds(kanji_break, end) {
        r.push(end - start);
    }
    if holds(kanji_break, start) {
        r.push(0);
    }
    assert(r@ =~= (if kanji_break@.contains(end) { seq![(end - start) as usize] } else { Seq::empty() })
        + (if kanji_break@.contains(start) { seq![0usize] } else { Seq::empty() }));
    r
}

/// Whether a segment ending at `end` ends the sentence of `length`
/// characters: at its end, or just before a final long-vowel mark.
pub fn is_final_segment(end: usize, length: usize, ends_with_long_vowel: bool) -> (r: bool)
    ensures
        r == (end == length || (ends_with_long_vowel && end + 1 == length)),
{
    end == length || (ends_with_long_vowel && length > 0 && end == length - 1)
}

/// A segment over `[start, end)` for `word`, not yet scored.
pub open spec fn bare_segment(start: usize, end: usize, word: KaniWordDispatchEnum) -> Segment {
    Segment { start, end, word, score: None, info: None, top: None, text: None }
}

/// After the looked-up substrings `qs` with the words found for each
/// (`ws`) and the break positions each would give (`ps`): the substrings
/// kept (those with words, in order, with their words), the kanji-break
/// positions collected (latest first) and the ends recorded (latest
/// first). A found substring that starts the sentence or starts where an
/// earlier found one ended puts its break positions in front.
pub open spec fn join_state(
    qs: Seq<SubstringQuery>,
    ws: Seq<Seq<KaniWordDispatchEnum>>,
    ps: Seq<Seq<usize>>,
) -> (Seq<(usize, usize, Seq<KaniWordDispatchEnum>)>, Seq<usize>, Seq<usize>)
    decreases qs.len(),
{
    if qs.len() == 0 || ws.len() < qs.len() || ps.len() < qs.len() {
        (Seq::empty(), Seq::empty(), Seq::empty())
    } else {
        let n = qs.len() - 1;
        let prev = join_state(qs.drop_last(), ws.subrange(0, n), ps.subrange(0, n));
        let q = qs.last();
        if ws[n].len() == 0 {
            prev
        } else {
            let kb = if q.start == 0 || prev.2.contains(q.start) { ps[n] + prev.1 } else { prev.1 };
            let ends = if prev.2.contains(q.end) { prev.2 } else { seq![q.end] + prev.2 };
            (prev.0.push((q.start, q.end, ws[n])), kb, ends)
        }
    }
}

/// Word lists as values.
pub open spec fn word_lists(ws: Seq<Vec<KaniWordDispatchEnum>>) -> Seq<Seq<KaniWordDispatchEnum>> {
    ws.map_values(|v: Vec<KaniWordDispatchEnum>| v@)
}

/// Position lists as values.
pub open spec fn position_lists(ps: Seq<Vec<usize>>) -> Seq<Seq<usize>> {
    ps.map_values(|v: Vec<usize>| v@)
}

/// `segs` are the bare segments over `[start, end)` of `words`, in order.
pub open spec fn segments_of(segs: Seq<Segment>, start: usize, end: usize, words: Seq<KaniWordDispatchEnum>) -> bool {
    &&& segs.len() == words.len()
    &&& forall|j: int| 0 <= j < segs.len() ==> #[trigger] segs[j] == bare_segment(start, end, words[j])
}

/// The bare segments over `[start, end)` of `words`, in order.
fn make_segments(start: usize, end: usize, words: Vec<KaniWordDispatchEnum>) -> (r: Vec<Segment>)
    ensures
        segments_of(r@, start, end, words@),
{
    let ghost all = words@;
    let n = words.len();
    let mut rest = words;
    let mut out: Vec<Segment> = Vec::new();
    let mut i: usize = 0;
    assert(rest@ =~= all.subrange(0, n as int));
    while i < n
        invariant
            n == all.len(),
            i <= n,
            rest@ =~= all.subrange(i as int, n as int),
            out@.len() == i,
            forall|j: int| 0 <= j < i ==> #[trigger] out@[j] == bare_segment(start, end, all[j]),
        decreases n - i,
    {
        let w = rest.remove(0);
        assert(w == all[i as int]);
        out.push(Segment { start, end, word: w, score: None, info: None, top: None, text: None });
        assert(rest@ =~= all.subrange(i + 1, n as int));
        i = i + 1;
    }
    out
}

/// The found substrings of a sentence and its kanji-break positions, from
/// the looked-up substrings `queries` (in lookup order), the words found
/// for each (`words`) and the break positions each would give
/// (`breaks`): every substring with words, in order, with one unscored
/// segment per word; and the break positions collected, each kept where
/// it occurs last.
pub fn join_found_substrings(
    queries: &[SubstringQuery],
    words: Vec<Vec<KaniWordDispatchEnum>>,
    breaks: Vec<Vec<usize>>,
) -> (r: (Vec<(usize, usize, Vec<Segment>)>, Vec<usize>))
    requires
        words@.len() == queries@.len(),
        breaks@.len() == queries@.len(),
    ensures
        r.0@.len() == join_state(queries@, word_lists(words@), position_lists(breaks@)).0.len(),
        forall|i: int|
            0 <= i < r.0@.len() ==> {
                let k = join_state(queries@, word_lists(words@), position_lists(breaks@)).0[i];
                &&& (#[trigger] r.0@[i]).0 == k.0
                &&& r.0@[i].1 == k.1
                &&& segments_of(r.0@[i].2@, k.0, k.1, k.2)
            },
        r.1@ == keep_last(join_state(queries@, word_lists(words@), position_lists(breaks@)).1),
{
    let ghost qs = queries@;
    let ghost ws = word_lists(words@);
    let ghost ps = position_lists(breaks@);
    let n = queries.len();
    let mut wrest = words;
    let mut prest = breaks;
    let ghost wall = wrest@;
    let ghost pall = prest@;
    let mut kb = KanjiBreaks::new();
    let mut out: Vec<(usize, usize, Vec<Segment>)> = Vec::new();
    let mut i: usize = 0;
    assert(wrest@ =~= wall.subrange(0, n as int));
    assert(prest@ =~= pall.subrange(0, n as int));
    proof {
        assert(qs.subrange(0, 0).len() == 0);
    }
    while i < n
        invariant
            n == qs.len(),
            qs == queries@,
            wall.len() == n,
            pall.len() == n,
            ws == word_lists(wall),
            ps == position_lists(pall),
            i <= n,
            wrest@ =~= wall.subrange(i as int, n as int),
            prest@ =~= pall.subrange(i as int, n as int),
            ({
                let st = join_state(qs.subrange(0, i as int), ws.subrange(0, i as int), ps.subrange(0, i as int));
                &&& kb.kanji_break@ == st.1
                &&& kb.ends@ == st.2
                &&& out@.len() == st.0.len()
                &&& forall|j: int|
                    0 <= j < out@.len() ==> {
                        &&& (#[trigger] out@[j]).0 == st.0[j].0
                        &&& out@[j].1 == st.0[j].1
                        &&& segments_of(out@[j].2@, st.0[j].0, st.0[j].1, st.0[j].2)
                    }
            }),
        decreases n - i,
    {
        let ghost qpre = qs.subrange(0, i as int);
        let ghost wpre = ws.subrange(0, i as int);
        let ghost ppre = ps.subrange(0, i as int);
        let ghost prev = join_state(qpre, wpre, ppre);
        let ghost qpost = qs.subrange(0, i + 1);
        let ghost wpost = ws.subrange(0, i + 1);
        let ghost ppost = ps.subrange(0, i + 1);
        assert(qpost.drop_last() =~= qpre);
        assert(wpost.subrange(0, i as int) =~= wpre);
        assert(ppost.subrange(0, i as int) =~= ppre);
        assert(qpost.last() == qs[i as int]);
        let w = wrest.remove(0);
        let p = prest.remove(0);
        assert(w == wall[i as int]);
        assert(p == pall[i as int]);
        assert(wpost[i as int] == w@);
        assert(ppost[i as int] == p@);
        let q = queries[i];
        if w.len() > 0 {
            kb.record_hit(q.start, q.end, p);
            let segs = make_segments(q.start, q.end, w);
            out.push((q.start, q.end, segs));
        }
        assert(wrest@ =~= wall.subrange(i + 1, n as int));
        assert(prest@ =~= pall.subrange(i + 1, n as int));
        i = i + 1;
    }
    assert(qs.subrange(0, n as int) =~= qs);
    assert(ws.subrange(0, n as int) =~= ws);
    assert(ps.subrange(0, n as int) =~= ps);
    let positions = kb.finish();
    (out, positions)
}

/// Span `a` comes before span `b`: it starts earlier, or starts at the same
/// place and ends earlier.
pub open spec fn span_before(a_start: usize, a_end: usize, b_start: usize, b_end: usize) -> bool {
    a_start < b_start || (a_start == b_start && a_end < b_end)
}

proof fn lemma_queries_from_sorted(
    start: usize,
    upto: int,
    sticky: Seq<usize>,
    katakana_groups: Seq<(usize, usize)>,
    number_groups: Seq<(usize, usize)>,
)
    requires
        upto <= usize::MAX,
    ensures
        forall|i: int| 0 <= i < queries_from(start, upto, sticky, katakana_groups, number_groups).len() ==> {
            let q = #[trigger] queries_from(start, upto, sticky, katakana_groups, number_groups)[i];
            q.start == start && start < q.end <= upto
        },
        forall|i: int, j: int| 0 <= i < j < queries_from(start, upto, sticky, katakana_groups, number_groups).len()
            ==> (#[trigger] queries_from(start, upto, sticky, katakana_groups, number_groups)[i]).end
                < (#[trigger] queries_from(start, upto, sticky, katakana_groups, number_groups)[j]).end,
    decreases upto - start,
{
    if upto > start {
        lemma_queries_from_sorted(start, upto - 1, sticky, katakana_groups, number_groups);
        let rest = queries_from(start, upto - 1, sticky, katakana_groups, number_groups);
        let all = queries_from(start, upto, sticky, katakana_groups, number_groups);
        assert forall|i: int| 0 <= i < all.len() implies {
            let q = #[trigger] all[i];
            q.start == start && start < q.end <= upto
        } by {
            if i < rest.len() {
                assert(all[i] == rest[i]);
            }
        }
        assert forall|i: int, j: int| 0 <= i < j < all.len() implies (#[trigger] all[i]).end < (#[trigger] all[j]).end by {
            assert(all[i] == rest[i]);
            if j < rest.len() {
                assert(all[j] == rest[j]);
            }
        }
    }
}

proof fn lemma_all_queries_sorted(
    n: int,
    length: int,
    max_len: int,
    sticky: Seq<usize>,
    katakana_groups: Seq<(usize, usize)>,
    number_groups: Seq<(usize, usize)>,
)
    requires
        0 <= n <= length <= usize::MAX,
        0 <= max_len,
    ensures
        forall|i: int| 0 <= i < all_queries(n, length, max_len, sticky, katakana_groups, number_groups).len()
            ==> (#[trigger] all_queries(n, length, max_len, sticky, katakana_groups, number_groups)[i]).start < n,
        forall|i: int, j: int| 0 <= i < j < all_queries(n, length, max_len, sticky, katakana_groups, number_groups).len()
            ==> span_before(
                (#[trigger] all_queries(n, length, max_len, sticky, katakana_groups, number_groups)[i]).start,
                all_queries(n, length, max_len, sticky, katakana_groups, number_groups)[i].end,
                (#[trigger] all_queries(n, length, max_len, sticky, katakana_groups, number_groups)[j]).start,
                all_queries(n, length, max_len, sticky, katakana_groups, number_groups)[j].end,
            ),
    decreases n,
{
    if n > 0 {
        lemma_all_queries_sorted(n - 1, length, max_len, sticky, katakana_groups, number_groups);
        let start = (n - 1) as usize;
        let rest = all_queries(n - 1, length, max_len, sticky, katakana_groups, number_groups);
        let all = all_queries(n, length, max_len, sticky, katakana_groups, number_groups);
        if !sticky.contains(start) {
            let cap = end_cap(length, n - 1, max_len);
            lemma_queries_from_sorted(start, cap, sticky, katakana_groups, number_groups);
            let more = queries_from(start, cap, sticky, katakana_groups, number_groups);
            assert(all == rest + more);
            assert forall|i: int| 0 <= i < all.len() implies (#[trigger] all[i]).start < n by {
                if i < rest.len() {
                    assert(all[i] == rest[i]);
                } else {
                    assert(all[i] == more[i - rest.len()]);
                }
            }
            assert forall|i: int, j: int| 0 <= i < j < all.len() implies span_before(
                (#[trigger] all[i]).start,
                all[i].end,
                (#[trigger] all[j]).start,
                all[j].end,
            ) by {
                if j < rest.len() {
                    assert(all[i] == rest[i] && all[j] == rest[j]);
                } else if i < rest.len() {
                    assert(all[i] == rest[i]);
                    assert(all[j] == more[j - rest.len()]);
                } else {
                    assert(all[i] == more[i - rest.len()]);
                    assert(all[j] == more[j - rest.len()]);
                }
            }
        } else {
            assert(all == rest);
        }
    }
}

/// The found substrings come from the looked-up ones, in the same order.
proof fn lemma_join_from_queries(
    qs: Seq<SubstringQuery>,
    ws: Seq<Seq<KaniWordDispatchEnum>>,
    ps: Seq<Seq<usize>>,
)
    requires
        ws.len() == qs.len(),
        ps.len() == qs.len(),
        forall|i: int, j: int| 0 <= i < j < qs.len() ==> span_before(
            (#[trigger] qs[i]).start,
            qs[i].end,
            (#[trigger] qs[j]).start,
            qs[j].end,
        ),
    ensures
        forall|i: int| 0 <= i < join_state(qs, ws, ps).0.len() ==> exists|k: int| {
            &&& 0 <= k < qs.len()
            &&& (#[trigger] join_state(qs, ws, ps).0[i]).0 == (#[trigger] qs[k]).start
            &&& join_state(qs, ws, ps).0[i].1 == qs[k].end
            &&& join_state(qs, ws, ps).0[i].2 == ws[k]
            &&& ws[k].len() > 0
        },
        forall|i: int, j: int| 0 <= i < j < join_state(qs, ws, ps).0.len() ==> span_before(
            (#[trigger] join_state(qs, ws, ps).0[i]).0,
            join_state(qs, ws, ps).0[i].1,
            (#[trigger] join_state(qs, ws, ps).0[j]).0,
            join_state(qs, ws, ps).0[j].1,
        ),
    decreases qs.len(),
{
    if qs.len() > 0 {
        let n = qs.len() - 1;
        let q0 = qs.drop_last();
        let w0 = ws.subrange(0, n);
        let p0 = ps.subrange(0, n);
        assert forall|i: int, j: int| 0 <= i < j < q0.len() implies span_before(
            (#[trigger] q0[i]).start,
            q0[i].end,
            (#[trigger] q0[j]).start,
            q0[j].end,
        ) by {
            assert(q0[i] == qs[i] && q0[j] == qs[j]);
        }
        lemma_join_from_queries(q0, w0, p0);
        let prev = join_state(q0, w0, p0);
        let st = join_state(qs, ws, ps);
        // Every earlier found substring comes from a query before the last.
        assert forall|i: int| 0 <= i < prev.0.len() implies exists|k: int| {
            &&& 0 <= k < n
            &&& (#[trigger] prev.0[i]).0 == (#[trigger] qs[k]).start
            &&& prev.0[i].1 == qs[k].end
            &&& prev.0[i].2 == ws[k]
            &&& ws[k].len() > 0
        } by {
            let k = choose|k: int| {
                &&& 0 <= k < q0.len()
                &&& (#[trigger] prev.0[i]).0 == (#[trigger] q0[k]).start
                &&& prev.0[i].1 == q0[k].end
                &&& prev.0[i].2 == w0[k]
                &&& w0[k].len() > 0
            };
            assert(q0[k] == qs[k] && w0[k] == ws[k]);
        }
        if ws[n].len() > 0 {
            assert(st.0 == prev.0.push((qs[n].start, qs[n].end, ws[n])));
            assert forall|i: int| 0 <= i < st.0.len() implies exists|k: int| {
                &&& 0 <= k < qs.len()
                &&& (#[trigger] st.0[i]).0 == (#[trigger] qs[k]).start
                &&& st.0[i].1 == qs[k].end
                &&& st.0[i].2 == ws[k]
                &&& ws[k].len() > 0
            } by {
                if i < prev.0.len() {
                    assert(st.0[i] == prev.0[i]);
                    let k = choose|k: int| {
                        &&& 0 <= k < n
                        &&& (#[trigger] prev.0[i]).0 == (#[trigger] qs[k]).start
                        &&& prev.0[i].1 == qs[k].end
                        &&& prev.0[i].2 == ws[k]
                        &&& ws[k].len() > 0
                    };
                    assert(st.0[i].0 == qs[k].start);
                } else {
                    assert(st.0[i].0 == qs[n].start);
                }
            }
            assert forall|i: int, j: int| 0 <= i < j < st.0.len() implies span_before(
                (#[trigger] st.0[i]).0,
                st.0[i].1,
                (#[trigger] st.0[j]).0,
                st.0[j].1,
            ) by {
                assert(st.0[i] == prev.0[i]);
                if j < prev.0.len() {
                    assert(st.0[j] == prev.0[j]);
                } else {
                    let k = choose|k: int| {
                        &&& 0 <= k < n
                        &&& (#[trigger] prev.0[i]).0 == (#[trigger] qs[k]).start
                        &&& prev.0[i].1 == qs[k].end
                        &&& prev.0[i].2 == ws[k]
                        &&& ws[k].len() > 0
                    };
                    assert(span_before(qs[k].start, qs[k].end, qs[n].start, qs[n].end));
                }
            }
        } else {
            assert(st == prev);
            assert forall|i: int| 0 <= i < st.0.len() implies exists|k: int| {
                &&& 0 <= k < qs.len()
                &&& (#[trigger] st.0[i]).0 == (#[trigger] qs[k]).start
                &&& st.0[i].1 == qs[k].end
                &&& st.0[i].2 == ws[k]
                &&& ws[k].len() > 0
            } by {
                let k = choose|k: int| {
                    &&& 0 <= k < n
                    &&& (#[trigger] prev.0[i]).0 == (#[trigger] qs[k]).start
                    &&& prev.0[i].1 == qs[k].end
                    &&& prev.0[i].2 == ws[k]
                    &&& ws[k].len() > 0
                };
                assert(st.0[i].0 == qs[k].start);
            }
        }
    }
}

/// The substring join of a sentence of `length` characters, looking up
/// `substring_queries` and keeping what `join_found_substrings` keeps,
/// gives spans in order (by start, then by end), each non-empty, inside
/// the sentence, at most `max_len` long, neither starting nor ending at a
/// sticky position and with at least one word, each unscored segment
/// spanning it; the kanji-break positions it returns hold no repeats.
pub proof fn law_substring_join(
    length: int,
    max_len: int,
    sticky: Seq<usize>,
    katakana_groups: Seq<(usize, usize)>,
    number_groups: Seq<(usize, usize)>,
    ws: Seq<Seq<KaniWordDispatchEnum>>,
    ps: Seq<Seq<usize>>,
)
    requires
        0 <= length <= usize::MAX,
        0 <= max_len,
        ws.len() == all_queries(length, length, max_len, sticky, katakana_groups, number_groups).len(),
        ps.len() == all_queries(length, length, max_len, sticky, katakana_groups, number_groups).len(),
    ensures
        ({
            let found = join_state(all_queries(length, length, max_len, sticky, katakana_groups, number_groups), ws, ps).0;
            &&& forall|i: int| 0 <= i < found.len() ==> {
                let f = #[trigger] found[i];
                &&& f.0 < f.1 <= length
                &&& f.1 - f.0 <= max_len
                &&& !sticky.contains(f.0)
                &&& !sticky.contains(f.1)
                &&& f.2.len() > 0
            }
            &&& forall|i: int, j: int| 0 <= i < j < found.len() ==> span_before(
                (#[trigger] found[i]).0,
                found[i].1,
                (#[trigger] found[j]).0,
                found[j].1,
            )
        }),
        keep_last(join_state(all_queries(length, length, max_len, sticky, katakana_groups, number_groups), ws, ps).1).no_duplicates(),
{
    let qs = all_queries(length, length, max_len, sticky, katakana_groups, number_groups);
    law_substring_queries_ok(length, length, max_len, sticky, katakana_groups, number_groups);
    lemma_all_queries_sorted(length, length, max_len, sticky, katakana_groups, number_groups);
    lemma_join_from_queries(qs, ws, ps);
    let st = join_state(qs, ws, ps);
    assert forall|i: int| 0 <= i < st.0.len() implies {
        let f = #[trigger] st.0[i];
        &&& f.0 < f.1 <= length
        &&& f.1 - f.0 <= max_len
        &&& !sticky.contains(f.0)
        &&& !sticky.contains(f.1)
        &&& f.2.len() > 0
    } by {
        let k = choose|k: int| {
            &&& 0 <= k < qs.len()
            &&& (#[trigger] st.0[i]).0 == (#[trigger] qs[k]).start
            &&& st.0[i].1 == qs[k].end
            &&& st.0[i].2 == ws[k]
            &&& ws[k].len() > 0
        };
        assert(query_ok(qs[k], length, max_len, sticky));
    }
    crate::loader::law_keep_last(st.1);
}

} // verus!
