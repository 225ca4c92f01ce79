//! Finding grammatical suffixes in a word: the suffix matches of each
//! tail, the suffix map of a sentence, the unique-match gate and the
//! suffix rules a word asks for.

use vstd::prelude::*;
use crate::alist::alist_get;
use crate::context::KaniranContext;
use crate::suffix::{
    items_view, lookup_suffix_fn, suffix_list_view, unique_only_kind, unique_only_view, SuffixCache,
    SuffixClass, SuffixFn, SuffixUniqueOnly,
};
use crate::text::char_len;
use crate::word::{KanaText, KaniWordDispatchEnum};
use std::collections::HashMap;

verus! {

/// A suffix match as values: (suffix text, suffix key, kana form).
pub type SuffixTriple = (Seq<char>, Seq<char>, Option<KanaText>);

/// The kana form behind an optional reference.
pub open spec fn ref_kf(o: Option<&KanaText>) -> Option<KanaText> {
    match o {
        Some(k) => Some(*k),
        None => None,
    }
}

/// Borrowed suffix matches as values.
pub open spec fn ref_triples(r: Seq<(&str, &str, Option<&KanaText>)>) -> Seq<SuffixTriple> {
    Seq::new(r.len(), |i: int| (r[i].0@, r[i].1@, ref_kf(r[i].2)))
}

/// Owned suffix matches as values.
pub open spec fn owned_triples(r: Seq<(String, String, Option<KanaText>)>) -> Seq<SuffixTriple> {
    Seq::new(r.len(), |i: int| (r[i].0@, r[i].1@, r[i].2))
}

/// The suffix matches of the substring `sub` given what is cached under it.
pub open spec fn parse_view(sub: Seq<char>, val: Option<Seq<(Seq<char>, Option<KanaText>)>>) -> Seq<SuffixTriple> {
    match val {
        Some(v) => Seq::new(v.len(), |i: int| (sub, v[i].0, v[i].1)),
        None => Seq::empty(),
    }
}

/// The suffix matches of the substring `w[start..end]`.
pub open spec fn matches_at(cache: SuffixCache, w: Seq<char>, start: int, end: int) -> Seq<SuffixTriple> {
    parse_view(w.subrange(start, end), cache.spec_get(w.subrange(start, end)))
}

/// The matches of the tails of `w` that start at `k` or later, the tails
/// that start latest (the shortest) first.
pub open spec fn suffixes_from(cache: SuffixCache, w: Seq<char>, k: int) -> Seq<SuffixTriple>
    decreases w.len() - k,
{
    if k >= w.len() {
        Seq::empty()
    } else {
        suffixes_from(cache, w, k + 1) + matches_at(cache, w, k, w.len() as int)
    }
}

/// The items the suffix map holds for `end` once the substrings starting
/// before `k` are read: each item read goes in front.
pub open spec fn map_items(cache: SuffixCache, w: Seq<char>, end: int, k: int) -> Seq<SuffixTriple>
    decreases k,
{
    if k <= 0 {
        Seq::empty()
    } else {
        matches_at(cache, w, k - 1, end).reverse() + map_items(cache, w, end, k - 1)
    }
}

/// Whether something is cached.
pub open spec fn cache_loaded(cache: SuffixCache) -> bool {
    exists|k: Seq<char>| #[trigger] cache.spec_get(k) is Some
}

/// Pairs `substr` with each cache entry cached under it.
pub fn parse_suffix_val<'a, 'b>(
    substr: &'a str,
    val: Option<&'b [(String, Option<KanaText>)]>,
) -> (r: Vec<(&'a str, &'b str, Option<&'b KanaText>)>)
    ensures
        ref_triples(r@) == parse_view(
            substr@,
            match val {
                Some(v) => Some(items_view(v@)),
                None => None,
            },
        ),
{
    let mut r: Vec<(&'a str, &'b str, Option<&'b KanaText>)> = Vec::new();
    match val {
        None => {
            assert(ref_triples(r@) =~= Seq::<SuffixTriple>::empty());
        },
        Some(entries) => {
            let mut i: usize = 0;
            while i < entries.len()
                invariant
                    i <= entries@.len(),
                    ref_triples(r@) == parse_view(substr@, Some(items_view(entries@))).subrange(0, i as int),
                decreases entries@.len() - i,
            {
                let kf = opt_ref(&entries[i].1);
                let key = entries[i].0.as_str();
                let ghost before = r@;
                r.push((substr, key, kf));
                assert(ref_triples(r@) =~= ref_triples(before).push((substr@, key@, ref_kf(kf))));
                assert(ref_triples(r@) =~= parse_view(substr@, Some(items_view(entries@))).subrange(0, i + 1));
                i = i + 1;
            }
            assert(parse_view(substr@, Some(items_view(entries@))).subrange(0, i as int)
                =~= parse_view(substr@, Some(items_view(entries@))));
        },
    }
    r
}

/// A reference to the kana form of an optional one.
fn opt_ref(o: &Option<KanaText>) -> (r: Option<&KanaText>)
    ensures
        ref_kf(r) == *o,
{
    match o {
        Some(k) => Some(k),
        None => None,
    }
}

/// The cached items under `text`, as a slice.
fn cached_items<'a>(cache: &'a SuffixCache, text: &str) -> (r: Option<&'a [(String, Option<KanaText>)]>)
    ensures
        match r {
            Some(v) => cache.spec_get(text@) == Some(items_view(v@)),
            None => cache.spec_get(text@) is None,
        },
{
    match cache.get(text) {
        Some(v) => Some(v.as_slice()),
        None => None,
    }
}

/// Every suffix match of a tail of `word` that starts at position 1 or
/// later, the shortest tails first.
pub fn get_suffixes<'a, 'b>(ctx: &'a KaniranContext, word: &'b str) -> (r: Vec<(&'b str, &'a str, Option<&'a KanaText>)>)
    requires
        cache_loaded(ctx.suffix_cache),
    ensures
        ref_triples(r@) == suffixes_from(ctx.suffix_cache, word@, 1),
{
    let len = char_len(word);
    let mut out: Vec<(&'b str, &'a str, Option<&'a KanaText>)> = Vec::new();
    let mut k: usize = if len > 0 { len } else { 1 };
    assert(ref_triples(out@) =~= suffixes_from(ctx.suffix_cache, word@, k as int));
    while k > 1
        invariant
            len == word@.len(),
            1 <= k,
            k <= len || k == 1,
            ref_triples(out@) == suffixes_from(ctx.suffix_cache, word@, k as int),
        decreases k,
    {
        k = k - 1;
        let substr = word.substring_char(k, len);
        let val = cached_items(&ctx.suffix_cache, substr);
        let mut parsed = parse_suffix_val(substr, val);
        let ghost before = out@;
        out.append(&mut parsed);
        assert(ref_triples(out@) =~= ref_triples(before) + matches_at(ctx.suffix_cache, word@, k as int, len as int));
    }
    out
}

/// The suffix matches of a sentence by end position (in characters).
#[derive(Debug)]
pub struct SuffixMap {
    by_end: HashMap<usize, Vec<(String, String, Option<KanaText>)>>,
}

impl SuffixMap {
    /// The matches that end at `end`.
    pub closed spec fn spec_get(&self, end: usize) -> Option<Seq<SuffixTriple>> {
        if self.by_end@.contains_key(end) {
            Some(owned_triples(self.by_end@[end]@))
        } else {
            None
        }
    }

    /// The end positions with matches.
    pub closed spec fn ends(&self) -> Set<usize> {
        self.by_end@.dom()
    }

    /// The matches that end at `end`.
    pub fn get(&self, end: usize) -> (r: Option<&Vec<(String, String, Option<KanaText>)>>)
        ensures
            match r {
                Some(v) => self.spec_get(end) == Some(owned_triples(v@)),
                None => self.spec_get(end) is None,
            },
    {
        broadcast use vstd::std_specs::hash::group_hash_axioms;
        self.by_end.get(&end)
    }

    /// The number of end positions with matches.
    pub fn len(&self) -> (n: usize)
        ensures
            n == self.ends().len(),
            forall|e: usize| self.ends().contains(e) <==> #[trigger] self.spec_get(e) is Some,
    {
        broadcast use vstd::std_specs::hash::group_hash_axioms;
        self.by_end.len()
    }

    /// Whether no position has matches.
    pub fn is_empty(&self) -> (b: bool)
        ensures
            b == (forall|e: usize| #[trigger] self.spec_get(e) is None),
    {
        broadcast use vstd::std_specs::hash::group_hash_axioms;
        let b = self.by_end.is_empty();
        proof {
            if !b {
                let e = choose|e: usize| self.by_end@.contains_key(e);
                assert(self.spec_get(e) is Some);
            }
        }
        b
    }
}

/// An owned copy of a borrowed suffix match.
fn own_triple(t: (&str, &str, Option<&KanaText>)) -> (r: (String, String, Option<KanaText>))
    ensures
        (r.0@, r.1@, r.2) == (t.0@, t.1@, ref_kf(t.2)),
{
    let kf = match t.2 {
        Some(k) => Some(k.duplicate()),
        None => None,
    };
    (t.0.to_owned(), t.1.to_owned(), kf)
}

/// Puts owned copies of `parsed`, one by one, in front of `items`.
fn prepend_all(items: &mut Vec<(String, String, Option<KanaText>)>, parsed: &Vec<(&str, &str, Option<&KanaText>)>)
    ensures
        owned_triples(final(items)@) == ref_triples(parsed@).reverse() + owned_triples(old(items)@),
{
    let ghost m = ref_triples(parsed@);
    let ghost base = owned_triples(items@);
    let mut j: usize = 0;
    assert(owned_triples(items@) =~= m.subrange(0, 0).reverse() + base);
    while j < parsed.len()
        invariant
            j <= parsed@.len(),
            m == ref_triples(parsed@),
            owned_triples(items@) == m.subrange(0, j as int).reverse() + base,
        decreases parsed@.len() - j,
    {
        let t = own_triple(parsed[j]);
        let ghost before = owned_triples(items@);
        items.insert(0, t);
        assert(owned_triples(items@) =~= seq![m[j as int]] + before);
        assert(m.subrange(0, j + 1).reverse() =~= seq![m[j as int]] + m.subrange(0, j as int).reverse());
        j = j + 1;
    }
    assert(m.subrange(0, j as int) =~= m);
}

/// The items for `end`: the matches of every substring ending there,
/// each read item put in front.
fn items_ending_at(cache: &SuffixCache, s: &str, end: usize) -> (r: Vec<(String, String, Option<KanaText>)>)
    requires
        end <= s@.len(),
    ensures
        owned_triples(r@) == map_items(*cache, s@, end as int, end as int),
{
    let mut items: Vec<(String, String, Option<KanaText>)> = Vec::new();
    let mut start: usize = 0;
    assert(owned_triples(items@) =~= map_items(*cache, s@, end as int, 0));
    while start < end
        invariant
            start <= end,
            end <= s@.len(),
            owned_triples(items@) == map_items(*cache, s@, end as int, start as int),
        decreases end - start,
    {
        let substr = s.substring_char(start, end);
        let val = cached_items(cache, substr);
        let parsed = parse_suffix_val(substr, val);
        let ghost m = matches_at(*cache, s@, start as int, end as int);
        let ghost base = owned_triples(items@);
        prepend_all(&mut items, &parsed);
        assert(owned_triples(items@) == m.reverse() + base);
        start = start + 1;
    }
    items
}

/// The suffix matches of every substring of `s`, by end position; at one
/// end, the matches of later-starting (shorter) substrings come first.
pub fn get_suffix_map(ctx: &KaniranContext, s: &str) -> (r: SuffixMap)
    requires
        cache_loaded(ctx.suffix_cache),
    ensures
        forall|end: usize|
            #[trigger] r.spec_get(end) == if 1 <= end <= s@.len()
                && map_items(ctx.suffix_cache, s@, end as int, end as int).len() > 0 {
                Some(map_items(ctx.suffix_cache, s@, end as int, end as int))
            } else {
                None::<Seq<SuffixTriple>>
            },
{
    broadcast use vstd::std_specs::hash::group_hash_axioms;
    let len = char_len(s);
    let mut result = SuffixMap { by_end: HashMap::new() };
    let mut done: usize = 0;
    while done < len
        invariant
            len == s@.len(),
            done <= len,
            forall|e: usize|
                #[trigger] result.spec_get(e) == if 1 <= e <= done
                    && map_items(ctx.suffix_cache, s@, e as int, e as int).len() > 0 {
                    Some(map_items(ctx.suffix_cache, s@, e as int, e as int))
                } else {
                    None::<Seq<SuffixTriple>>
                },
        decreases len - done,
    {
        let end = done + 1;
        let items = items_ending_at(&ctx.suffix_cache, s, end);
        let ghost old_result = result;
        assert(owned_triples(items@).len() == items@.len());
        if items.len() > 0 {
            result.by_end.insert(end, items);
        }
        assert forall|e: usize| #[trigger] result.spec_get(e) == if 1 <= e <= end
            && map_items(ctx.suffix_cache, s@, e as int, e as int).len() > 0 {
            Some(map_items(ctx.suffix_cache, s@, e as int, e as int))
        } else {
            None::<Seq<SuffixTriple>>
        } by {
            if e != end {
                assert(result.spec_get(e) == old_result.spec_get(e));
                assert(old_result.spec_get(e) is Some ==> e <= done);
            }
        }
        done = end;
    }
    result
}

/// How a suffix class that suppresses suffix expansion matched.
#[derive(Debug, Clone, PartialEq, Eq)]
pub enum MatchUniqueResult {
    Bare,
    Sa(Vec<i32>),
    Desu,
}

/// The seq lookup that the unique-match gate of a suffix class needs.
#[derive(Debug, Clone, PartialEq, Eq)]
pub enum UniqueQuery {
    /// Nothing to look up.
    Nothing,
    /// The seqs among these that are conjugations of じゃない (2755350).
    Desu(Vec<i32>),
    /// The seqs among these whose entry is a root entry.
    Sa(Vec<i32>),
}

/// The single seqs of the words, in order.
pub open spec fn seqs_of(ms: Seq<KaniWordDispatchEnum>) -> Seq<i32>
    decreases ms.len(),
{
    if ms.len() == 0 {
        Seq::empty()
    } else {
        match ms[0].spec_single_seq() {
            Some(s) => seq![s] + seqs_of(ms.drop_first()),
            None => seqs_of(ms.drop_first()),
        }
    }
}

/// None of the words is a compound.
pub open spec fn no_compounds(ms: Seq<KaniWordDispatchEnum>) -> bool {
    forall|i: int| 0 <= i < ms.len() ==> !(#[trigger] ms[i] is Compound)
}

proof fn lemma_seqs_of_prefix(ms: Seq<KaniWordDispatchEnum>, i: int)
    requires
        0 <= i < ms.len(),
    ensures
        seqs_of(ms.subrange(0, i + 1)) == seqs_of(ms.subrange(0, i)) + match ms[i].spec_single_seq() {
            Some(s) => seq![s],
            None => Seq::<i32>::empty(),
        },
    decreases i,
{
    let a = ms.subrange(0, i + 1);
    let b = ms.subrange(0, i);
    if i == 0 {
        assert(b.len() == 0);
        assert(a.drop_first().len() == 0);
        assert(seqs_of(a.drop_first()) == Seq::<i32>::empty());
    } else {
        lemma_seqs_of_prefix(ms.drop_first(), i - 1);
        assert(a.drop_first() =~= ms.drop_first().subrange(0, i));
        assert(b.drop_first() =~= ms.drop_first().subrange(0, i - 1));
        assert(a[0] == ms[0]);
        assert(b[0] == ms[0]);
        match ms[0].spec_single_seq() {
            Some(s) => {
                assert(seqs_of(a) == seq![s] + seqs_of(a.drop_first()));
                assert(seqs_of(b) == seq![s] + seqs_of(b.drop_first()));
            },
            None => {},
        }
        assert(ms.drop_first()[i - 1] == ms[i]);
    }
}

/// The seqs of the words that have a single seq, in order.
pub fn collect_seqs(matches: &[KaniWordDispatchEnum]) -> (r: Vec<i32>)
    requires
        no_compounds(matches@),
    ensures
        r@ == seqs_of(matches@),
{
    let mut r: Vec<i32> = Vec::new();
    let mut i: usize = 0;
    assert(matches@.subrange(0, 0).len() == 0);
    while i < matches.len()
        invariant
            i <= matches@.len(),
            r@ == seqs_of(matches@.subrange(0, i as int)),
        decreases matches@.len() - i,
    {
        proof {
            lemma_seqs_of_prefix(matches@, i as int);
        }
        match matches[i].single_seq() {
            Some(s) => {
                r.push(s);
            },
            None => {},
        }
        i = i + 1;
    }
    assert(matches@.subrange(0, i as int) =~= matches@);
    r
}

/// Whether the unique-match gate of `suffix_class` reads the seqs of the
/// words (the です and さ classes); every other class answers without
/// looking at them.
pub open spec fn reads_seqs(suffix_class: Seq<char>) -> bool {
    alist_get(unique_only_view(), suffix_class) == Some(SuffixUniqueOnly::Desu)
        || alist_get(unique_only_view(), suffix_class) == Some(SuffixUniqueOnly::Sa)
}

/// The lookup that the unique-match gate of `suffix_class` needs for
/// `matches`: none for a class outside the unique-only table, a bare
/// class, or words without seqs.
pub fn unique_query(suffix_class: &str, matches: &[KaniWordDispatchEnum]) -> (r: UniqueQuery)
    requires
        reads_seqs(suffix_class@) ==> no_compounds(matches@),
    ensures
        match alist_get(unique_only_view(), suffix_class@) {
            Some(SuffixUniqueOnly::Desu) => if seqs_of(matches@).len() > 0 {
                r matches UniqueQuery::Desu(v) && v@ == seqs_of(matches@)
            } else {
                r == UniqueQuery::Nothing
            },
            Some(SuffixUniqueOnly::Sa) => if seqs_of(matches@).len() > 0 {
                r matches UniqueQuery::Sa(v) && v@ == seqs_of(matches@)
            } else {
                r == UniqueQuery::Nothing
            },
            _ => r == UniqueQuery::Nothing,
        },
{
    match unique_only_kind(suffix_class) {
        Some(SuffixUniqueOnly::Desu) => {
            let seqs = collect_seqs(matches);
            if seqs.len() > 0 {
                UniqueQuery::Desu(seqs)
            } else {
                UniqueQuery::Nothing
            }
        },
        Some(SuffixUniqueOnly::Sa) => {
            let seqs = collect_seqs(matches);
            if seqs.len() > 0 {
                UniqueQuery::Sa(seqs)
            } else {
                UniqueQuery::Nothing
            }
        },
        _ => UniqueQuery::Nothing,
    }
}

/// The unique-match gate of `suffix_class` for `matches`, given the seqs
/// `rows` that the lookup named by [`unique_query`] returned (empty when
/// it names none): a bare class always matches; the です class matches
/// when fewer rows than words came back; the さ class matches with the
/// root seqs found.
pub fn match_unique(suffix_class: &str, matches: &[KaniWordDispatchEnum], rows: &[i32]) -> (r: Option<MatchUniqueResult>)
    requires
        reads_seqs(suffix_class@) ==> no_compounds(matches@),
    ensures
        match alist_get(unique_only_view(), suffix_class@) {
            None => r is None,
            Some(SuffixUniqueOnly::Bare) => r == Some(MatchUniqueResult::Bare),
            Some(SuffixUniqueOnly::Desu) => {
                let count = if seqs_of(matches@).len() > 0 { rows@.len() } else { 0 };
                r == if count < matches@.len() { Some(MatchUniqueResult::Desu) } else { None }
            },
            Some(SuffixUniqueOnly::Sa) => if seqs_of(matches@).len() > 0 && rows@.len() > 0 {
                r matches Some(MatchUniqueResult::Sa(v)) && v@ == rows@
            } else {
                r is None
            },
        },
{
    match unique_only_kind(suffix_class) {
        None => None,
        Some(SuffixUniqueOnly::Bare) => Some(MatchUniqueResult::Bare),
        Some(SuffixUniqueOnly::Desu) => {
            let seqs = collect_seqs(matches);
            let count = if seqs.len() > 0 { rows.len() } else { 0 };
            if count < matches.len() {
                Some(MatchUniqueResult::Desu)
            } else {
                None
            }
        },
        Some(SuffixUniqueOnly::Sa) => {
            let seqs = collect_seqs(matches);
            if seqs.len() == 0 || rows.len() == 0 {
                None
            } else {
                let mut v: Vec<i32> = Vec::new();
                let mut i: usize = 0;
                while i < rows.len()
                    invariant
                        i <= rows@.len(),
                        v@ == rows@.subrange(0, i as int),
                    decreases rows@.len() - i,
                {
                    v.push(rows[i]);
                    i = i + 1;
                }
                assert(v@ =~= rows@);
                Some(MatchUniqueResult::Sa(v))
            }
        },
    }
}

/// A suffix rule that a word asks for: the rule, the root it runs on, the
/// suffix text and kana form matched, the suffix class that the
/// unique-match gate checks, and the end position the rule runs with.
#[derive(Debug)]
pub struct SuffixCandidate {
    pub rule: SuffixFn,
    pub root: String,
    pub suffix: String,
    pub kf: Option<KanaText>,
    pub class: String,
    pub next_end: Option<i32>,
}

/// A candidate as values.
pub type CandidateView = (SuffixFn, Seq<char>, Seq<char>, Option<KanaText>, Seq<char>, Option<int>);

/// A candidate as values.
pub open spec fn cand_view(c: SuffixCandidate) -> CandidateView {
    (c.rule, c.root@, c.suffix@, c.kf, c.class@, match c.next_end {
        Some(e) => Some(e as int),
        None => None,
    })
}

/// Candidates as values.
pub open spec fn cand_views(cs: Seq<SuffixCandidate>) -> Seq<CandidateView> {
    Seq::new(cs.len(), |i: int| cand_view(cs[i]))
}

/// The candidate a suffix match of `w` gives, if any: the keyword must
/// name a rule and the suffix must leave a non-empty root.
pub open spec fn candidate_of(
    classes: SuffixClass,
    w: Seq<char>,
    next_end: Option<i32>,
    t: SuffixTriple,
) -> Option<CandidateView> {
    match alist_get(suffix_list_view(), t.1) {
        None => None,
        Some(rule) => if t.0.len() >= w.len() {
            None
        } else {
            let class = match t.2 {
                Some(kf) => match classes.spec_get(kf.seq) {
                    Some(c) => c,
                    None => t.1,
                },
                None => t.1,
            };
            let ne = match next_end {
                Some(e) => Some(e - t.0.len()),
                None => None,
            };
            Some((rule, w.subrange(0, w.len() - t.0.len()), t.0, t.2, class, ne))
        },
    }
}

/// The candidates of the suffix matches `ts`, in order.
pub open spec fn candidates(
    classes: SuffixClass,
    w: Seq<char>,
    next_end: Option<i32>,
    ts: Seq<SuffixTriple>,
) -> Seq<CandidateView>
    decreases ts.len(),
{
    if ts.len() == 0 {
        Seq::empty()
    } else {
        let rest = candidates(classes, w, next_end, ts.drop_first());
        match candidate_of(classes, w, next_end, ts[0]) {
            Some(c) => seq![c] + rest,
            None => rest,
        }
    }
}

proof fn lemma_candidates_prefix(classes: SuffixClass, w: Seq<char>, next_end: Option<i32>, ts: Seq<SuffixTriple>, i: int)
    requires
        0 <= i < ts.len(),
    ensures
        candidates(classes, w, next_end, ts.subrange(0, i + 1)) == candidates(classes, w, next_end, ts.subrange(0, i))
            + match candidate_of(classes, w, next_end, ts[i]) {
                Some(c) => seq![c],
                None => Seq::<CandidateView>::empty(),
            },
    decreases i,
{
    let a = ts.subrange(0, i + 1);
    let b = ts.subrange(0, i);
    if i == 0 {
        assert(a.drop_first().len() == 0);
        assert(candidates(classes, w, next_end, a.drop_first()) == Seq::<CandidateView>::empty());
    } else {
        lemma_candidates_prefix(classes, w, next_end, ts.drop_first(), i - 1);
        assert(a.drop_first() =~= ts.drop_first().subrange(0, i));
        assert(b.drop_first() =~= ts.drop_first().subrange(0, i - 1));
        assert(a[0] == ts[0]);
        assert(b[0] == ts[0]);
        assert(ts.drop_first()[i - 1] == ts[i]);
    }
}

/// The suffix matches a word is resolved against: those of the bound
/// suffix map at the bound end position, or else those of the word's own
/// tails.
pub open spec fn suffix_source(ctx: KaniranContext, w: Seq<char>) -> Seq<SuffixTriple> {
    match ctx.suffix_map_temp {
        Some(m) => match ctx.suffix_next_end {
            Some(e) => if e >= 0 {
                match m.spec_get(e as usize) {
                    Some(v) => v,
                    None => Seq::empty(),
                }
            } else {
                Seq::empty()
            },
            None => Seq::empty(),
        },
        None => suffixes_from(ctx.suffix_cache, w, 1),
    }
}

/// The candidate one suffix match gives.
fn plan_one(ctx: &KaniranContext, word: &str, word_len: usize, suffix: &str, keyword: &str, kf: Option<&KanaText>) -> (r: Option<SuffixCandidate>)
    requires
        word_len == word@.len(),
        word@.len() <= i32::MAX,
        ctx.suffix_next_end matches Some(e) ==> e - word@.len() >= i32::MIN,
    ensures
        match r {
            Some(c) => candidate_of(ctx.suffix_class, word@, ctx.suffix_next_end, (suffix@, keyword@, ref_kf(kf))) == Some(cand_view(c)),
            None => candidate_of(ctx.suffix_class, word@, ctx.suffix_next_end, (suffix@, keyword@, ref_kf(kf))) is None,
        },
{
    let rule = match lookup_suffix_fn(keyword) {
        Some(f) => f,
        None => {
            return None;
        },
    };
    let suffix_len = char_len(suffix);
    if suffix_len >= word_len {
        return None;
    }
    let offset = word_len - suffix_len;
    let class = match kf {
        Some(k) => match ctx.suffix_class.get(k.seq) {
            Some(c) => c.as_str().to_owned(),
            None => keyword.to_owned(),
        },
        None => keyword.to_owned(),
    };
    let next_end = match ctx.suffix_next_end {
        Some(e) => Some(e - suffix_len as i32),
        None => None,
    };
    let root = word.substring_char(0, offset).to_owned();
    let kf_owned = match kf {
        Some(k) => Some(k.duplicate()),
        None => None,
    };
    Some(SuffixCandidate { rule, root, suffix: suffix.to_owned(), kf: kf_owned, class, next_end })
}

/// The suffix rules that `word` asks for, in the order they run: one per
/// suffix match whose keyword names a rule and that leaves a non-empty
/// root. Each is still subject to the unique-match gate ([`match_unique`])
/// when the word already has matches.
pub fn find_word_suffix(ctx: &KaniranContext, word: &str) -> (r: Vec<SuffixCandidate>)
    requires
        ctx.suffix_map_temp is None ==> cache_loaded(ctx.suffix_cache),
        word@.len() <= i32::MAX,
        ctx.suffix_next_end matches Some(e) ==> e - word@.len() >= i32::MIN,
    ensures
        cand_views(r@) == candidates(ctx.suffix_class, word@, ctx.suffix_next_end, suffix_source(*ctx, word@)),
{
    let word_len = char_len(word);
    let mut out: Vec<SuffixCandidate> = Vec::new();
    match &ctx.suffix_map_temp {
        Some(map) => {
            let found = match ctx.suffix_next_end {
                Some(e) => if e >= 0 {
                    map.get(e as usize)
                } else {
                    None
                },
                None => None,
            };
            match found {
                Some(triples) => {
                    let ghost ts = owned_triples(triples@);
                    let mut i: usize = 0;
                    assert(cand_views(out@) =~= candidates(ctx.suffix_class, word@, ctx.suffix_next_end, ts.subrange(0, 0)));
                    while i < triples.len()
                        invariant
                            i <= triples@.len(),
                            ts == owned_triples(triples@),
                            word_len == word@.len(),
                            word@.len() <= i32::MAX,
                            ctx.suffix_next_end matches Some(e) ==> e - word@.len() >= i32::MIN,
                            cand_views(out@) == candidates(ctx.suffix_class, word@, ctx.suffix_next_end, ts.subrange(0, i as int)),
                        decreases triples@.len() - i,
                    {
                        proof {
                            lemma_candidates_prefix(ctx.suffix_class, word@, ctx.suffix_next_end, ts, i as int);
                        }
                        let t = &triples[i];
                        let kf = opt_ref(&t.2);
                        let ghost before = cand_views(out@);
                        match plan_one(ctx, word, word_len, t.0.as_str(), t.1.as_str(), kf) {
                            Some(c) => {
                                out.push(c);
                                assert(cand_views(out@) =~= before.push(cand_view(c)));
                            },
                            None => {},
                        }
                        i = i + 1;
                    }
                    assert(ts.subrange(0, i as int) =~= ts);
                },
                None => {
                    assert(cand_views(out@) =~= Seq::<CandidateView>::empty());
                },
            }
        },
        None => {
            let triples = get_suffixes(ctx, word);
            let ghost ts = ref_triples(triples@);
            let mut i: usize = 0;
            assert(cand_views(out@) =~= candidates(ctx.suffix_class, word@, ctx.suffix_next_end, ts.subrange(0, 0)));
            while i < triples.len()
                invariant
                    i <= triples@.len(),
                    ts == ref_triples(triples@),
                    word_len == word@.len(),
                    word@.len() <= i32::MAX,
                    ctx.suffix_next_end matches Some(e) ==> e - word@.len() >= i32::MIN,
                    cand_views(out@) == candidates(ctx.suffix_class, word@, ctx.suffix_next_end, ts.subrange(0, i as int)),
                decreases triples@.len() - i,
            {
                proof {
                    lemma_candidates_prefix(ctx.suffix_class, word@, ctx.suffix_next_end, ts, i as int);
                }
                let t = triples[i];
                let ghost before = cand_views(out@);
                match plan_one(ctx, word, word_len, t.0, t.1, t.2) {
                    Some(c) => {
                        out.push(c);
                        assert(cand_views(out@) =~= before.push(cand_view(c)));
                    },
                    None => {},
                }
                i = i + 1;
            }
            assert(ts.subrange(0, i as int) =~= ts);
        },
    }
    out
}

/// `t` matched a proper tail of `w`: a non-empty suffix shorter than `w`.
pub open spec fn proper_tail(w: Seq<char>, t: SuffixTriple) -> bool {
    &&& 0 < t.0.len() < w.len()
    &&& t.0 == w.subrange(w.len() - t.0.len(), w.len() as int)
}

proof fn lemma_suffixes_are_tails(cache: SuffixCache, w: Seq<char>, k: int)
    requires
        k >= 1,
    ensures
        forall|i: int| 0 <= i < suffixes_from(cache, w, k).len() ==> proper_tail(w, #[trigger] suffixes_from(cache, w, k)[i]),
    decreases w.len() - k,
{
    if k < w.len() {
        lemma_suffixes_are_tails(cache, w, k + 1);
        let rest = suffixes_from(cache, w, k + 1);
        let m = matches_at(cache, w, k, w.len() as int);
        assert forall|i: int| 0 <= i < suffixes_from(cache, w, k).len() implies proper_tail(w, #[trigger] suffixes_from(cache, w, k)[i]) by {
            if i >= rest.len() {
                assert(suffixes_from(cache, w, k)[i] == m[i - rest.len()]);
            } else {
                assert(suffixes_from(cache, w, k)[i] == rest[i]);
            }
        }
    }
}

proof fn lemma_candidates_split(classes: SuffixClass, w: Seq<char>, next_end: Option<i32>, ts: Seq<SuffixTriple>)
    requires
        forall|i: int| 0 <= i < ts.len() ==> proper_tail(w, #[trigger] ts[i]),
    ensures
        forall|i: int| 0 <= i < candidates(classes, w, next_end, ts).len()
            ==> (#[trigger] candidates(classes, w, next_end, ts)[i]).1 + candidates(classes, w, next_end, ts)[i].2 == w,
    decreases ts.len(),
{
    if ts.len() > 0 {
        assert forall|i: int| 0 <= i < ts.drop_first().len() implies proper_tail(w, #[trigger] ts.drop_first()[i]) by {
            assert(ts.drop_first()[i] == ts[i + 1]);
        }
        lemma_candidates_split(classes, w, next_end, ts.drop_first());
        let t = ts[0];
        assert(proper_tail(w, t));
        match candidate_of(classes, w, next_end, t) {
            Some(c) => {
                assert(c.1 + c.2 =~= w);
                let all = candidates(classes, w, next_end, ts);
                assert forall|i: int| 0 <= i < all.len() implies (#[trigger] all[i]).1 + all[i].2 == w by {
                    if i > 0 {
                        assert(all[i] == candidates(classes, w, next_end, ts.drop_first())[i - 1]);
                    }
                }
            },
            None => {},
        }
    }
}

/// Without a bound suffix map, every suffix rule a word asks for runs on a
/// root that, followed by the matched suffix, is the word again.
pub proof fn law_suffix_candidates_split_word(ctx: KaniranContext, w: Seq<char>)
    requires
        ctx.suffix_map_temp is None,
    ensures
        forall|i: int| 0 <= i < candidates(ctx.suffix_class, w, ctx.suffix_next_end, suffix_source(ctx, w)).len()
            ==> (#[trigger] candidates(ctx.suffix_class, w, ctx.suffix_next_end, suffix_source(ctx, w))[i]).1
                + candidates(ctx.suffix_class, w, ctx.suffix_next_end, suffix_source(ctx, w))[i].2 == w,
{
    lemma_suffixes_are_tails(ctx.suffix_cache, w, 1);
    lemma_candidates_split(ctx.suffix_class, w, ctx.suffix_next_end, suffix_source(ctx, w));
}

/// Every suffix match of a word's tails is a proper tail of the word.
pub proof fn law_suffix_matches_are_tails(cache: SuffixCache, w: Seq<char>)
    ensures
        forall|i: int| 0 <= i < suffixes_from(cache, w, 1).len() ==> proper_tail(w, #[trigger] suffixes_from(cache, w, 1)[i]),
{
    lemma_suffixes_are_tails(cache, w, 1);
}

/// Whether a suffix candidate runs: always when the word has no earlier
/// matches, else only when the unique-match gate of its class found none.
pub open spec fn keeps(has_matches: bool, gate: Option<MatchUniqueResult>) -> bool {
    !has_matches || gate is None
}

/// Whether the suffix candidate with gate answer `gate` runs.
pub fn keeps_candidate(has_matches: bool, gate: &Option<MatchUniqueResult>) -> (r: bool)
    ensures
        r == keeps(has_matches, *gate),
{
    !has_matches || gate.is_none()
}

/// The results of the candidates that run, concatenated in candidate order.
pub open spec fn kept_results(
    has_matches: bool,
    gates: Seq<Option<MatchUniqueResult>>,
    results: Seq<Seq<KaniWordDispatchEnum>>,
) -> Seq<KaniWordDispatchEnum>
    decreases results.len(),
{
    if results.len() == 0 {
        Seq::empty()
    } else {
        let n = results.len() - 1;
        kept_results(has_matches, gates.subrange(0, n), results.drop_last()) + if keeps(has_matches, gates[n]) {
            results.last()
        } else {
            Seq::empty()
        }
    }
}

/// Result lists as values.
pub open spec fn result_views(rs: Seq<Vec<KaniWordDispatchEnum>>) -> Seq<Seq<KaniWordDispatchEnum>> {
    rs.map_values(|v: Vec<KaniWordDispatchEnum>| v@)
}

/// The words a word's suffix candidates give: for each candidate, in
/// order, the results of its suffix rule (`results`, one list per
/// candidate) when it runs under its unique-match gate answer (`gates`);
/// a candidate that does not run adds nothing.
pub fn suffix_results(
    has_matches: bool,
    gates: &[Option<MatchUniqueResult>],
    results: Vec<Vec<KaniWordDispatchEnum>>,
) -> (r: Vec<KaniWordDispatchEnum>)
    requires
        gates@.len() == results@.len(),
    ensures
        r@ == kept_results(has_matches, gates@, result_views(results@)),
{
    let ghost all = results@;
    let n = results.len();
    let mut rest = results;
    let mut out: Vec<KaniWordDispatchEnum> = Vec::new();
    let mut i: usize = 0;
    assert(rest@ =~= all.subrange(0, n as int));
    assert(result_views(all.subrange(0, 0)) =~= Seq::<Seq<KaniWordDispatchEnum>>::empty());
    while i < n
        invariant
            n == all.len(),
            gates@.len() == n,
            i <= n,
            rest@ =~= all.subrange(i as int, n as int),
            out@ == kept_results(has_matches, gates@.subrange(0, i as int), result_views(all.subrange(0, i as int))),
        decreases n - i,
    {
        let mut next = rest.remove(0);
        assert(next == all[i as int]);
        let ghost pre = result_views(all.subrange(0, i as int));
        let ghost post = result_views(all.subrange(0, i + 1));
        assert(post.drop_last() =~= pre);
        assert(post.last() == next@);
        assert(gates@.subrange(0, i + 1).subrange(0, i as int) =~= gates@.subrange(0, i as int));
        assert(gates@.subrange(0, i + 1)[i as int] == gates@[i as int]);
        if keeps_candidate(has_matches, &gates[i]) {
            out.append(&mut next);
        } else {
            assert(out@ =~= out@ + Seq::<KaniWordDispatchEnum>::empty());
        }
        assert(rest@ =~= all.subrange(i + 1, n as int));
        i = i + 1;
    }
    assert(all.subrange(0, n as int) =~= all);
    assert(gates@.subrange(0, n as int) =~= gates@);
    out
}

/// What a word's suffix matches `ts` resolve to, in match order: for each
/// match that gives a candidate (its keyword names a rule and it leaves a
/// non-empty root), the output `run` of its rule when the candidate runs
/// under the unique-match gate answer `gate` of its class.
pub open spec fn resolved(
    classes: SuffixClass,
    w: Seq<char>,
    next_end: Option<i32>,
    ts: Seq<SuffixTriple>,
    has_matches: bool,
    gate: spec_fn(Seq<char>) -> Option<MatchUniqueResult>,
    run: spec_fn(CandidateView) -> Seq<KaniWordDispatchEnum>,
) -> Seq<KaniWordDispatchEnum>
    decreases ts.len(),
{
    if ts.len() == 0 {
        Seq::empty()
    } else {
        let rest = resolved(classes, w, next_end, ts.drop_first(), has_matches, gate, run);
        match candidate_of(classes, w, next_end, ts[0]) {
            Some(c) => (if keeps(has_matches, gate(c.4)) {
                run(c)
            } else {
                Seq::empty()
            }) + rest,
            None => rest,
        }
    }
}

proof fn lemma_kept_results_front(
    has_matches: bool,
    gates: Seq<Option<MatchUniqueResult>>,
    results: Seq<Seq<KaniWordDispatchEnum>>,
)
    requires
        gates.len() == results.len(),
        results.len() > 0,
    ensures
        kept_results(has_matches, gates, results) == (if keeps(has_matches, gates[0]) {
            results[0]
        } else {
            Seq::empty()
        }) + kept_results(has_matches, gates.drop_first(), results.drop_first()),
    decreases results.len(),
{
    let n = results.len() - 1;
    if n == 0 {
        assert(results.drop_last().len() == 0);
        assert(results.drop_first().len() == 0);
        assert(kept_results(has_matches, gates.subrange(0, 0), results.drop_last()) == Seq::<KaniWordDispatchEnum>::empty());
        assert(kept_results(has_matches, gates.drop_first(), results.drop_first()) == Seq::<KaniWordDispatchEnum>::empty());
        assert(results.last() == results[0]);
        assert(gates[n] == gates[0]);
    } else {
        let g0 = gates.subrange(0, n);
        let r0 = results.drop_last();
        lemma_kept_results_front(has_matches, g0, r0);
        assert(g0[0] == gates[0]);
        assert(r0[0] == results[0]);
        let gd = gates.drop_first();
        let rd = results.drop_first();
        assert(gd.subrange(0, n - 1) =~= g0.drop_first());
        assert(rd.drop_last() =~= r0.drop_first());
        assert(gd[n - 1] == gates[n]);
        assert(rd.last() == results.last());
        let tail = if keeps(has_matches, gates[n]) { results.last() } else { Seq::empty() };
        assert(kept_results(has_matches, gd, rd) == kept_results(has_matches, gd.subrange(0, n - 1), rd.drop_last()) + tail);
        let head = if keeps(has_matches, gates[0]) { results[0] } else { Seq::<KaniWordDispatchEnum>::empty() };
        assert(kept_results(has_matches, gates, results) == kept_results(has_matches, g0, r0) + tail);
        assert(head + kept_results(has_matches, g0.drop_first(), r0.drop_first()) + tail
            =~= head + (kept_results(has_matches, g0.drop_first(), r0.drop_first()) + tail));
    }
}

/// What the unique-match gate gives for each candidate, by its class.
pub open spec fn gate_outcomes(cs: Seq<CandidateView>, gate: spec_fn(Seq<char>) -> Option<MatchUniqueResult>) -> Seq<Option<MatchUniqueResult>> {
    cs.map_values(|c: CandidateView| gate(c.4))
}

/// The rule outputs of candidates.
pub open spec fn rule_outputs(cs: Seq<CandidateView>, run: spec_fn(CandidateView) -> Seq<KaniWordDispatchEnum>) -> Seq<Seq<KaniWordDispatchEnum>> {
    cs.map_values(|c: CandidateView| run(c))
}

proof fn lemma_resolved_is_kept(
    classes: SuffixClass,
    w: Seq<char>,
    next_end: Option<i32>,
    ts: Seq<SuffixTriple>,
    has_matches: bool,
    gate: spec_fn(Seq<char>) -> Option<MatchUniqueResult>,
    run: spec_fn(CandidateView) -> Seq<KaniWordDispatchEnum>,
)
    ensures
        resolved(classes, w, next_end, ts, has_matches, gate, run) == kept_results(
            has_matches,
            gate_outcomes(candidates(classes, w, next_end, ts), gate),
            rule_outputs(candidates(classes, w, next_end, ts), run),
        ),
    decreases ts.len(),
{
    let cs = candidates(classes, w, next_end, ts);
    if ts.len() == 0 {
        assert(cs.len() == 0);
        assert(rule_outputs(cs, run).len() == 0);
    } else {
        lemma_resolved_is_kept(classes, w, next_end, ts.drop_first(), has_matches, gate, run);
        let rest = candidates(classes, w, next_end, ts.drop_first());
        match candidate_of(classes, w, next_end, ts[0]) {
            Some(c) => {
                assert(cs == seq![c] + rest);
                let g = gate_outcomes(cs, gate);
                let r = rule_outputs(cs, run);
                lemma_kept_results_front(has_matches, g, r);
                assert(g.drop_first() =~= gate_outcomes(rest, gate));
                assert(r.drop_first() =~= rule_outputs(rest, run));
                assert(g[0] == gate(c.4));
                assert(r[0] == run(c));
            },
            None => {
                assert(cs == rest);
            },
        }
    }
}

/// A word's suffix results, composed: when the candidates are those
/// `find_word_suffix` gives for `w`, each gate answer is that of the
/// candidate's class and each result list is its rule's output, what
/// `suffix_results` returns is, in the order of the word's suffix
/// matches, the outputs of the rules of the matches that name a rule,
/// leave a non-empty root and pass the unique-match gate.
pub proof fn law_suffix_resolution(
    ctx: KaniranContext,
    w: Seq<char>,
    cands: Seq<CandidateView>,
    has_matches: bool,
    gate: spec_fn(Seq<char>) -> Option<MatchUniqueResult>,
    run: spec_fn(CandidateView) -> Seq<KaniWordDispatchEnum>,
    gates: Seq<Option<MatchUniqueResult>>,
    results: Seq<Seq<KaniWordDispatchEnum>>,
)
    requires
        cands == candidates(ctx.suffix_class, w, ctx.suffix_next_end, suffix_source(ctx, w)),
        gates == gate_outcomes(cands, gate),
        results == rule_outputs(cands, run),
    ensures
        kept_results(has_matches, gates, results) == resolved(
            ctx.suffix_class,
            w,
            ctx.suffix_next_end,
            suffix_source(ctx, w),
            has_matches,
            gate,
            run,
        ),
{
    lemma_resolved_is_kept(ctx.suffix_class, w, ctx.suffix_next_end, suffix_source(ctx, w), has_matches, gate, run);
}

} // verus!
