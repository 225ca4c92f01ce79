//! The decisions of the dictionary loader: which reading rows an entry
//! gets, which conjugated readings a conjugation inserts, which entry a
//! conjugation targets, and the SQL each reading table is written with.

use vstd::prelude::*;
use crate::text::str_eq;

verus! {

/// The tables the dictionary is stored in.
pub const TABLE_NAMES: [&'static str; 10] = [
    "entry",
    "kanji_text",
    "kana_text",
    "sense",
    "gloss",
    "sense_prop",
    "conjugation",
    "conj_prop",
    "conj_source_reading",
    "restricted_readings",
];

/// Which reading table a batch of readings goes to.
#[derive(Debug, Clone, Copy, PartialEq, Eq, Structural)]
pub enum ReadingTable {
    KanaText,
    KanjiText,
}

impl ReadingTable {
    /// The statement that inserts one reading row.
    pub fn insert_sql(self) -> (r: &'static str)
        ensures
            r@ == match self {
                ReadingTable::KanaText => "INSERT INTO kana_text (seq, text, ord, common, common_tags, conjugate_p, nokanji, best_kanji) VALUES ($1, $2, $3, $4, $5, TRUE, $6, NULL)"@,
                ReadingTable::KanjiText => "INSERT INTO kanji_text (seq, text, ord, common, common_tags, conjugate_p, nokanji, best_kana) VALUES ($1, $2, $3, $4, $5, TRUE, $6, NULL)"@,
            },
    {
        match self {
            ReadingTable::KanaText => "INSERT INTO kana_text (seq, text, ord, common, common_tags, conjugate_p, nokanji, best_kanji) VALUES ($1, $2, $3, $4, $5, TRUE, $6, NULL)",
            ReadingTable::KanjiText => "INSERT INTO kanji_text (seq, text, ord, common, common_tags, conjugate_p, nokanji, best_kana) VALUES ($1, $2, $3, $4, $5, TRUE, $6, NULL)",
        }
    }

    /// The statement that records the entry's reading count and
    /// primary-nokanji flag.
    pub fn update_sql(self) -> (r: &'static str)
        ensures
            r@ == match self {
                ReadingTable::KanaText => "UPDATE entry SET primary_nokanji = $1, n_kana = $2 WHERE seq = $3"@,
                ReadingTable::KanjiText => "UPDATE entry SET primary_nokanji = $1, n_kanji = $2 WHERE seq = $3"@,
            },
    {
        match self {
            ReadingTable::KanaText => "UPDATE entry SET primary_nokanji = $1, n_kana = $2 WHERE seq = $3",
            ReadingTable::KanjiText => "UPDATE entry SET primary_nokanji = $1, n_kanji = $2 WHERE seq = $3",
        }
    }
}

/// The elements of `s` that do not occur again later, among its first
/// `n`, in order.
pub open spec fn keep_last_prefix<T>(s: Seq<T>, n: int) -> Seq<T>
    decreases n,
{
    if n <= 0 {
        Seq::empty()
    } else {
        let rest = keep_last_prefix(s, n - 1);
        if s.subrange(n, s.len() as int).contains(s[n - 1]) {
            rest
        } else {
            rest.push(s[n - 1])
        }
    }
}

/// `s` without the earlier occurrences of repeated elements: an element
/// stays where it occurs for the last time.
pub open spec fn keep_last<T>(s: Seq<T>) -> Seq<T> {
    keep_last_prefix(s, s.len() as int)
}

/// Position `i` of `s` is the last occurrence of its element.
pub open spec fn last_occurrence<T>(s: Seq<T>, i: int) -> bool {
    !s.subrange(i + 1, s.len() as int).contains(s[i])
}

proof fn lemma_keep_last_prefix<T>(s: Seq<T>, n: int)
    requires
        0 <= n <= s.len(),
    ensures
        forall|x: T|
            keep_last_prefix(s, n).contains(x) <==> exists|i: int| 0 <= i < n && s[i] == x && #[trigger] last_occurrence(s, i),
        keep_last_prefix(s, n).no_duplicates(),
    decreases n,
{
    if n > 0 {
        lemma_keep_last_prefix(s, n - 1);
        let rest = keep_last_prefix(s, n - 1);
        let x0 = s[n - 1];
        if s.subrange(n, s.len() as int).contains(x0) {
            assert forall|x: T| keep_last_prefix(s, n).contains(x) <==> exists|i: int| 0 <= i < n && s[i] == x && #[trigger] last_occurrence(s, i) by {
                if exists|i: int| 0 <= i < n && s[i] == x && #[trigger] last_occurrence(s, i) {
                    let i = choose|i: int| 0 <= i < n && s[i] == x && #[trigger] last_occurrence(s, i);
                    if i == n - 1 {
                        assert(s.subrange(i + 1, s.len() as int) =~= s.subrange(n, s.len() as int));
                    }
                }
            }
        } else {
            assert(last_occurrence(s, n - 1)) by {
                assert(s.subrange(n, s.len() as int) =~= s.subrange(n - 1 + 1, s.len() as int));
            }
            assert forall|x: T| keep_last_prefix(s, n).contains(x) <==> exists|i: int| 0 <= i < n && s[i] == x && #[trigger] last_occurrence(s, i) by {
                if keep_last_prefix(s, n).contains(x) {
                    let j = choose|j: int| 0 <= j < keep_last_prefix(s, n).len() && keep_last_prefix(s, n)[j] == x;
                    if j < rest.len() {
                        assert(rest[j] == x);
                        assert(rest.contains(x));
                    } else {
                        assert(x == x0);
                        assert(last_occurrence(s, n - 1));
                    }
                }
                if exists|i: int| 0 <= i < n && s[i] == x && #[trigger] last_occurrence(s, i) {
                    let i = choose|i: int| 0 <= i < n && s[i] == x && #[trigger] last_occurrence(s, i);
                    if i == n - 1 {
                        assert(keep_last_prefix(s, n)[rest.len() as int] == x);
                    } else {
                        assert(rest.contains(x));
                        let j = choose|j: int| 0 <= j < rest.len() && rest[j] == x;
                        assert(keep_last_prefix(s, n)[j] == x);
                    }
                }
            }
            assert(!rest.contains(x0)) by {
                if rest.contains(x0) {
                    let i = choose|i: int| 0 <= i < n - 1 && s[i] == x0 && #[trigger] last_occurrence(s, i);
                    assert(s.subrange(i + 1, s.len() as int)[n - 1 - (i + 1)] == x0);
                }
            }
            assert forall|a: int, b: int| 0 <= a < b < keep_last_prefix(s, n).len() implies keep_last_prefix(s, n)[a] != keep_last_prefix(s, n)[b] by {
                if b == rest.len() {
                    assert(keep_last_prefix(s, n)[a] == rest[a]);
                }
            }
        }
    }
}

/// Dropping the earlier occurrences of repeated elements keeps exactly
/// the elements of the input, each once.
pub proof fn law_keep_last<T>(s: Seq<T>)
    ensures
        forall|x: T| keep_last(s).contains(x) <==> s.contains(x),
        keep_last(s).no_duplicates(),
{
    lemma_keep_last_prefix(s, s.len() as int);
    assert forall|x: T| keep_last(s).contains(x) <==> s.contains(x) by {
        if s.contains(x) {
            let i0 = choose|i: int| 0 <= i < s.len() && s[i] == x;
            lemma_last_occurrence_exists(s, x, i0);
        }
    }
}

proof fn lemma_last_occurrence_exists<T>(s: Seq<T>, x: T, i: int)
    requires
        0 <= i < s.len(),
        s[i] == x,
    ensures
        exists|j: int| 0 <= j < s.len() && s[j] == x && #[trigger] last_occurrence(s, j),
    decreases s.len() - i,
{
    if last_occurrence(s, i) {
    } else {
        let tail = s.subrange(i + 1, s.len() as int);
        let k = choose|k: int| 0 <= k < tail.len() && tail[k] == s[i];
        assert(s[i + 1 + k] == x);
        lemma_last_occurrence_exists(s, x, i + 1 + k);
    }
}

/// Whether `v[from..]` holds `x`.
fn occurs_after_str(v: &Vec<String>, from: usize, x: &str) -> (r: bool)
    requires
        from <= v@.len(),
    ensures
        r == v@.subrange(from as int, v@.len() as int).map_values(|s: String| s@).contains(x@),
{
    let ghost tail = v@.subrange(from as int, v@.len() as int).map_values(|s: String| s@);
    let mut j: usize = from;
    while j < v.len()
        invariant
            from <= j <= v@.len(),
            tail == v@.subrange(from as int, v@.len() as int).map_values(|s: String| s@),
            forall|k: int| 0 <= k < j - from ==> tail[k] != x@,
        decreases v@.len() - j,
    {
        if str_eq(v[j].as_str(), x) {
            assert(tail[j - from] == x@);
            return true;
        }
        j = j + 1;
    }
    false
}

/// Drops the earlier occurrences of repeated strings, keeping the last.
pub fn dedupe_keep_last(v: Vec<String>) -> (r: Vec<String>)
    ensures
        r@.map_values(|s: String| s@) == keep_last(v@.map_values(|s: String| s@)),
{
    let ghost sv = v@.map_values(|s: String| s@);
    let mut r: Vec<String> = Vec::new();
    let mut i: usize = 0;
    while i < v.len()
        invariant
            i <= v@.len(),
            sv == v@.map_values(|s: String| s@),
            r@.map_values(|s: String| s@) == keep_last_prefix(sv, i as int),
        decreases v@.len() - i,
    {
        let later = occurs_after_str(&v, i + 1, v[i].as_str());
        assert(v@.subrange(i + 1, v@.len() as int).map_values(|s: String| s@) =~= sv.subrange(i + 1, sv.len() as int));
        if !later {
            let ghost before = r@.map_values(|s: String| s@);
            r.push(v[i].clone());
            assert(r@.map_values(|s: String| s@) =~= before.push(sv[i as int]));
        }
        i = i + 1;
    }
    r
}

/// Whether `v[from..]` holds the pair `x`.
fn pair_occurs_after(v: &Vec<(String, String)>, from: usize, x: &(String, String)) -> (r: bool)
    requires
        from <= v@.len(),
    ensures
        r == v@.subrange(from as int, v@.len() as int).map_values(|p: (String, String)| (p.0@, p.1@)).contains((x.0@, x.1@)),
{
    let ghost tail = v@.subrange(from as int, v@.len() as int).map_values(|p: (String, String)| (p.0@, p.1@));
    let mut j: usize = from;
    while j < v.len()
        invariant
            from <= j <= v@.len(),
            tail == v@.subrange(from as int, v@.len() as int).map_values(|p: (String, String)| (p.0@, p.1@)),
            forall|k: int| 0 <= k < j - from ==> tail[k] != (x.0@, x.1@),
        decreases v@.len() - j,
    {
        if str_eq(v[j].0.as_str(), x.0.as_str()) && str_eq(v[j].1.as_str(), x.1.as_str()) {
            assert(tail[j - from] == (x.0@, x.1@));
            return true;
        }
        j = j + 1;
    }
    false
}

/// Pairs as values.
pub open spec fn pair_views(v: Seq<(String, String)>) -> Seq<(Seq<char>, Seq<char>)> {
    v.map_values(|p: (String, String)| (p.0@, p.1@))
}

/// Drops the earlier occurrences of repeated pairs, keeping the last.
pub fn dedupe_keep_last_pairs(v: Vec<(String, String)>) -> (r: Vec<(String, String)>)
    ensures
        pair_views(r@) == keep_last(pair_views(v@)),
{
    let ghost sv = pair_views(v@);
    let mut r: Vec<(String, String)> = Vec::new();
    let mut i: usize = 0;
    while i < v.len()
        invariant
            i <= v@.len(),
            sv == pair_views(v@),
            pair_views(r@) == keep_last_prefix(sv, i as int),
        decreases v@.len() - i,
    {
        let later = pair_occurs_after(&v, i + 1, &v[i]);
        assert(v@.subrange(i + 1, v@.len() as int).map_values(|p: (String, String)| (p.0@, p.1@)) =~= sv.subrange(i + 1, sv.len() as int));
        if !later {
            let ghost before = pair_views(r@);
            r.push((v[i].0.clone(), v[i].1.clone()));
            assert(pair_views(r@) =~= before.push(sv[i as int]));
        }
        i = i + 1;
    }
    r
}

/// One cell of a conjugation matrix: (conjugated reading, kanji flag
/// (1 for a kanji reading), source reading, ord, onum).
pub type ConjMatrixEntry = (String, i32, String, i32, i32);

/// A matrix cell as values.
pub type EntryView = (Seq<char>, i32, Seq<char>, i32, i32);

/// Matrix cells as values.
pub open spec fn entry_views(v: Seq<ConjMatrixEntry>) -> Seq<EntryView> {
    v.map_values(|e: ConjMatrixEntry| (e.0@, e.1, e.2@, e.3, e.4))
}

/// `a` sorts before `b`: by ord, then by onum.
pub open spec fn key_lt(a: EntryView, b: EntryView) -> bool {
    a.3 < b.3 || (a.3 == b.3 && a.4 < b.4)
}

/// Where `e` goes in the sorted `s` when it came after all of it: before
/// the first element that sorts after it.
pub open spec fn insert_pos(s: Seq<EntryView>, e: EntryView) -> int
    decreases s.len(),
{
    if s.len() == 0 {
        0
    } else if key_lt(e, s[0]) {
        0
    } else {
        1 + insert_pos(s.drop_first(), e)
    }
}

/// `s` sorted by (ord, onum), equal keys keeping their order.
pub open spec fn sort_entries(s: Seq<EntryView>) -> Seq<EntryView>
    decreases s.len(),
{
    if s.len() == 0 {
        s
    } else {
        let t = sort_entries(s.drop_last());
        t.insert(insert_pos(t, s.last()), s.last())
    }
}

proof fn lemma_insert_pos(s: Seq<EntryView>, e: EntryView, k: int)
    requires
        0 <= k <= s.len(),
        forall|j: int| 0 <= j < k ==> !key_lt(e, #[trigger] s[j]),
        k == s.len() || key_lt(e, s[k]),
    ensures
        insert_pos(s, e) == k,
    decreases s.len(),
{
    if s.len() > 0 && k > 0 {
        assert(!key_lt(e, s[0]));
        assert forall|j: int| 0 <= j < k - 1 implies !key_lt(e, #[trigger] s.drop_first()[j]) by {
            assert(s.drop_first()[j] == s[j + 1]);
        }
        lemma_insert_pos(s.drop_first(), e, k - 1);
    }
}

/// The matrix cells sorted by (ord, onum); cells with equal keys keep
/// their order.
pub fn sort_conj_readings(readings: &[ConjMatrixEntry]) -> (r: Vec<ConjMatrixEntry>)
    ensures
        entry_views(r@) == sort_entries(entry_views(readings@)),
{
    let ghost all = entry_views(readings@);
    let mut sorted: Vec<ConjMatrixEntry> = Vec::new();
    let mut i: usize = 0;
    assert(all.subrange(0, 0) =~= Seq::<EntryView>::empty());
    while i < readings.len()
        invariant
            i <= readings@.len(),
            all == entry_views(readings@),
            entry_views(sorted@) == sort_entries(all.subrange(0, i as int)),
        decreases readings@.len() - i,
    {
        let e = &readings[i];
        let ghost ev = all[i as int];
        let ghost t = entry_views(sorted@);
        let mut k: usize = 0;
        while k < sorted.len()
            invariant
                k <= sorted@.len(),
                t == entry_views(sorted@),
                ev == (e.0@, e.1, e.2@, e.3, e.4),
                forall|j: int| 0 <= j < k ==> !key_lt(ev, #[trigger] t[j]),
            ensures
                k <= sorted@.len(),
                t == entry_views(sorted@),
                forall|j: int| 0 <= j < k ==> !key_lt(ev, #[trigger] t[j]),
                k == sorted@.len() || key_lt(ev, t[k as int]),
            decreases sorted@.len() - k,
        {
            let s = &sorted[k];
            if e.3 < s.3 || (e.3 == s.3 && e.4 < s.4) {
                break;
            }
            k = k + 1;
        }
        proof {
            lemma_insert_pos(t, ev, k as int);
        }
        let copy: ConjMatrixEntry = (e.0.clone(), e.1, e.2.clone(), e.3, e.4);
        sorted.insert(k, copy);
        assert(all.subrange(0, i + 1).drop_last() =~= all.subrange(0, i as int));
        assert(entry_views(sorted@) =~= t.insert(k as int, ev));
        i = i + 1;
    }
    assert(all.subrange(0, i as int) =~= all);
    sorted
}

/// Matrix cells in (ord, onum) order.
pub open spec fn entries_sorted(s: Seq<EntryView>) -> bool {
    forall|i: int, j: int| 0 <= i < j < s.len() ==> !key_lt(#[trigger] s[j], #[trigger] s[i])
}

proof fn lemma_insert_pos_splits(s: Seq<EntryView>, e: EntryView)
    ensures
        0 <= insert_pos(s, e) <= s.len(),
        forall|i: int| 0 <= i < insert_pos(s, e) ==> !key_lt(e, #[trigger] s[i]),
        insert_pos(s, e) < s.len() ==> key_lt(e, s[insert_pos(s, e)]),
    decreases s.len(),
{
    if s.len() > 0 && !key_lt(e, s[0]) {
        lemma_insert_pos_splits(s.drop_first(), e);
        assert forall|i: int| 0 <= i < insert_pos(s, e) implies !key_lt(e, #[trigger] s[i]) by {
            if i > 0 {
                assert(s[i] == s.drop_first()[i - 1]);
            }
        }
    }
}

/// Sorting the cells of a conjugation puts them in (ord, onum) order and
/// keeps every cell.
pub proof fn law_sort_entries(s: Seq<EntryView>)
    ensures
        entries_sorted(sort_entries(s)),
        sort_entries(s).to_multiset() == s.to_multiset(),
    decreases s.len(),
{
    broadcast use vstd::seq_lib::to_multiset_insert, vstd::seq_lib::to_multiset_build;
    if s.len() > 0 {
        let t = sort_entries(s.drop_last());
        law_sort_entries(s.drop_last());
        let e = s.last();
        let p = insert_pos(t, e);
        lemma_insert_pos_splits(t, e);
        let r = t.insert(p, e);
        assert forall|i: int, j: int| 0 <= i < j < r.len() implies !key_lt(#[trigger] r[j], #[trigger] r[i]) by {
            if j < p {
                assert(r[i] == t[i] && r[j] == t[j]);
            } else if j == p {
                assert(r[i] == t[i]);
            } else if i < p {
                assert(r[i] == t[i] && r[j] == t[j - 1]);
                assert(!key_lt(e, t[i]));
                assert(key_lt(e, t[p]));
                if j - 1 > p {
                    assert(!key_lt(t[j - 1], t[p]));
                }
            } else if i == p {
                assert(r[j] == t[j - 1]);
                assert(key_lt(e, t[p]));
                if j - 1 > p {
                    assert(!key_lt(t[j - 1], t[p]));
                }
            } else {
                assert(r[i] == t[i - 1] && r[j] == t[j - 1]);
            }
        }
        assert(s =~= s.drop_last().push(e));
    }
}

/// The readings a conjugation is made of.
#[derive(Debug)]
pub struct ConjReadings {
    /// (conjugated reading, source reading) of every cell, in sorted order.
    pub source_readings: Vec<(String, String)>,
    /// The kanji readings, without earlier repeats.
    pub kanji_readings: Vec<String>,
    /// The kana readings, without earlier repeats.
    pub kana_readings: Vec<String>,
}

/// The conjugated readings of the sorted cells whose kanji flag is (or,
/// with `kanji` false, is not) 1.
pub open spec fn readings_of(s: Seq<EntryView>, kanji: bool) -> Seq<Seq<char>> {
    s.filter(|e: EntryView| (e.1 == 1) == kanji).map_values(|e: EntryView| e.0)
}

/// The readings of the cells of one conjugation: `None` when no cell is a
/// kana reading.
pub fn conj_readings(readings: &[ConjMatrixEntry]) -> (r: Option<ConjReadings>)
    ensures
        ({
            let sorted = sort_entries(entry_views(readings@));
            match r {
                None => readings_of(sorted, false).len() == 0,
                Some(c) => {
                    &&& readings_of(sorted, false).len() > 0
                    &&& pair_views(c.source_readings@) == sorted.map_values(|e: EntryView| (e.0, e.2))
                    &&& c.kanji_readings@.map_values(|s: String| s@) == keep_last(readings_of(sorted, true))
                    &&& c.kana_readings@.map_values(|s: String| s@) == keep_last(readings_of(sorted, false))
                },
            }
        }),
{
    let sorted = sort_conj_readings(readings);
    let ghost sv = entry_views(sorted@);
    let mut source_readings: Vec<(String, String)> = Vec::new();
    let mut kanji_raw: Vec<String> = Vec::new();
    let mut kana_raw: Vec<String> = Vec::new();
    let mut i: usize = 0;
    while i < sorted.len()
        invariant
            i <= sorted@.len(),
            sv == entry_views(sorted@),
            pair_views(source_readings@) == sv.subrange(0, i as int).map_values(|e: EntryView| (e.0, e.2)),
            kanji_raw@.map_values(|s: String| s@) == readings_of(sv.subrange(0, i as int), true),
            kana_raw@.map_values(|s: String| s@) == readings_of(sv.subrange(0, i as int), false),
        decreases sorted@.len() - i,
    {
        let e = &sorted[i];
        let ghost pre = sv.subrange(0, i as int);
        let ghost next = sv.subrange(0, i + 1);
        assert(next =~= pre.push(sv[i as int]));
        assert(next.drop_last() =~= pre);
        let ghost sr0 = pair_views(source_readings@);
        source_readings.push((e.0.clone(), e.2.clone()));
        assert(pair_views(source_readings@) =~= sr0.push((sv[i as int].0, sv[i as int].2)));
        assert(next.map_values(|x: EntryView| (x.0, x.2)) =~= pre.map_values(|x: EntryView| (x.0, x.2)).push((sv[i as int].0, sv[i as int].2)));
        proof {
            assert(next.filter(|x: EntryView| (x.1 == 1) == true) == {
                let f = pre.filter(|x: EntryView| (x.1 == 1) == true);
                if (sv[i as int].1 == 1) == true { f.push(sv[i as int]) } else { f }
            }) by {
                reveal_with_fuel(Seq::filter, 2);
            }
            assert(next.filter(|x: EntryView| (x.1 == 1) == false) == {
                let f = pre.filter(|x: EntryView| (x.1 == 1) == false);
                if (sv[i as int].1 == 1) == false { f.push(sv[i as int]) } else { f }
            }) by {
                reveal_with_fuel(Seq::filter, 2);
            }
        }
        let ghost k0 = kanji_raw@.map_values(|s: String| s@);
        let ghost n0 = kana_raw@.map_values(|s: String| s@);
        if e.1 == 1 {
            kanji_raw.push(e.0.clone());
            assert(kanji_raw@.map_values(|s: String| s@) =~= k0.push(sv[i as int].0));
            assert(readings_of(next, true) =~= readings_of(pre, true).push(sv[i as int].0));
            assert(readings_of(next, false) =~= readings_of(pre, false));
        } else {
            kana_raw.push(e.0.clone());
            assert(kana_raw@.map_values(|s: String| s@) =~= n0.push(sv[i as int].0));
            assert(readings_of(next, false) =~= readings_of(pre, false).push(sv[i as int].0));
            assert(readings_of(next, true) =~= readings_of(pre, true));
        }
        i = i + 1;
    }
    assert(sv.subrange(0, i as int) =~= sv);
    if kana_raw.len() == 0 {
        return None;
    }
    let kanji_readings = dedupe_keep_last(kanji_raw);
    let kana_readings = dedupe_keep_last(kana_raw);
    Some(ConjReadings { source_readings, kanji_readings, kana_readings })
}

/// Which entry a conjugation goes to.
#[derive(Debug, Clone, Copy, PartialEq, Eq, Structural)]
pub enum ConjTarget {
    /// The conjugation is the source entry itself (or the entry it goes
    /// via): nothing is inserted.
    Skip,
    /// An existing entry with exactly these readings.
    Existing(i32),
    /// A new entry with the given seq.
    New(i32),
}

/// The entry a conjugation goes to, given the seqs of the entries that
/// have exactly its readings (in ascending order): none when they include
/// the source entry or the via entry; the first of them when there are
/// any; else a new entry with `seq`.
pub fn conj_target(seq_candidates: &[i32], from: i32, via: Option<i32>, seq: i32) -> (r: ConjTarget)
    ensures
        r == if seq_candidates@.contains(from) || (via matches Some(v) && seq_candidates@.contains(v)) {
            ConjTarget::Skip
        } else if seq_candidates@.len() > 0 {
            ConjTarget::Existing(seq_candidates@[0])
        } else {
            ConjTarget::New(seq)
        },
{
    let mut i: usize = 0;
    while i < seq_candidates.len()
        invariant
            i <= seq_candidates@.len(),
            forall|j: int| 0 <= j < i ==> seq_candidates@[j] != from && (via matches Some(v) ==> seq_candidates@[j] != v),
        decreases seq_candidates@.len() - i,
    {
        let c = seq_candidates[i];
        let hit = match via {
            Some(v) => c == v,
            None => false,
        };
        if c == from || hit {
            proof {
                if c == from {
                    assert(seq_candidates@.contains(from));
                } else {
                    assert(seq_candidates@.contains(via.unwrap()));
                }
            }
            return ConjTarget::Skip;
        }
        i = i + 1;
    }
    if seq_candidates.len() > 0 {
        ConjTarget::Existing(seq_candidates[0])
    } else {
        ConjTarget::New(seq)
    }
}

/// Whether the conjugation made a new entry.
pub fn made_new_entry(target: ConjTarget) -> (r: bool)
    ensures
        r == target is New,
{
    match target {
        ConjTarget::New(_) => true,
        _ => false,
    }
}

/// The (reading, source reading) pairs still to record: those not
/// recorded already, without earlier repeats.
pub fn new_source_readings(source_readings: &Vec<(String, String)>, old: &Vec<(String, String)>) -> (r: Vec<(String, String)>)
    ensures
        pair_views(r@) == keep_last(pair_views(source_readings@).filter(|p: (Seq<char>, Seq<char>)| !pair_views(old@).contains(p))),
{
    let ghost sv = pair_views(source_readings@);
    let ghost ov = pair_views(old@);
    let mut diff: Vec<(String, String)> = Vec::new();
    let mut i: usize = 0;
    while i < source_readings.len()
        invariant
            i <= source_readings@.len(),
            sv == pair_views(source_readings@),
            ov == pair_views(old@),
            pair_views(diff@) == sv.subrange(0, i as int).filter(|p: (Seq<char>, Seq<char>)| !ov.contains(p)),
        decreases source_readings@.len() - i,
    {
        let p = &source_readings[i];
        let known = pair_occurs_after(old, 0, p);
        assert(old@.subrange(0, old@.len() as int) =~= old@);
        let ghost pre = sv.subrange(0, i as int);
        let ghost next = sv.subrange(0, i + 1);
        assert(next =~= pre.push(sv[i as int]));
        assert(next.drop_last() =~= pre);
        proof {
            assert(next.filter(|q: (Seq<char>, Seq<char>)| !ov.contains(q)) == {
                let f = pre.filter(|q: (Seq<char>, Seq<char>)| !ov.contains(q));
                if !ov.contains(sv[i as int]) { f.push(sv[i as int]) } else { f }
            }) by {
                reveal_with_fuel(Seq::filter, 2);
            }
        }
        if !known {
            let ghost before = pair_views(diff@);
            diff.push((p.0.clone(), p.1.clone()));
            assert(pair_views(diff@) =~= before.push(sv[i as int]));
        }
        i = i + 1;
    }
    assert(sv.subrange(0, i as int) =~= sv);
    dedupe_keep_last_pairs(diff)
}

/// The value of a string of decimal digits.
pub open spec fn digits_value(s: Seq<char>) -> int
    decreases s.len(),
{
    if s.len() == 0 {
        0
    } else {
        digits_value(s.drop_last()) * 10 + (s.last() as int - '0' as int)
    }
}

/// Every character is a decimal digit.
pub open spec fn all_digits(s: Seq<char>) -> bool {
    forall|i: int| 0 <= i < s.len() ==> '0' <= #[trigger] s[i] <= '9'
}

/// The integer `s` spells: an optional sign and at least one digit.
pub open spec fn int_of(s: Seq<char>) -> Option<int> {
    if s.len() > 0 && (s[0] == '+' || s[0] == '-') {
        let d = s.drop_first();
        if d.len() > 0 && all_digits(d) {
            Some(if s[0] == '-' { -digits_value(d) } else { digits_value(d) })
        } else {
            None
        }
    } else if s.len() > 0 && all_digits(s) {
        Some(digits_value(s))
    } else {
        None
    }
}

/// `s` spells an integer that fits in an `i32`.
pub open spec fn parses_i32(s: Seq<char>) -> bool {
    int_of(s) matches Some(v) && i32::MIN <= v <= i32::MAX
}

proof fn lemma_digits_mono(s: Seq<char>, k: int)
    requires
        all_digits(s),
        0 <= k <= s.len(),
    ensures
        0 <= digits_value(s.subrange(0, k)) <= digits_value(s),
    decreases s.len(),
{
    if k == s.len() {
        assert(s.subrange(0, k) =~= s);
        lemma_digits_nonneg(s);
    } else {
        lemma_digits_mono(s.drop_last(), k);
        assert(s.drop_last().subrange(0, k) =~= s.subrange(0, k));
        lemma_digits_nonneg(s.drop_last());
    }
}

proof fn lemma_digits_nonneg(s: Seq<char>)
    requires
        all_digits(s),
    ensures
        digits_value(s) >= 0,
    decreases s.len(),
{
    if s.len() > 0 {
        lemma_digits_nonneg(s.drop_last());
    }
}

/// The value of `s` read as an `i32` (an optional sign and decimal digits).
fn parse_i32(s: &str) -> (r: i32)
    requires
        parses_i32(s@),
    ensures
        int_of(s@) == Some(r as int),
{
    let chars = crate::text::chars_of(s);
    let n = chars.len();
    let mut start: usize = 0;
    let neg = chars[0] == '-';
    if chars[0] == '+' || chars[0] == '-' {
        start = 1;
    }
    let ghost d = chars@.subrange(start as int, n as int);
    assert(all_digits(d)) by {
        if start == 1 {
            assert(d =~= s@.drop_first());
        } else {
            assert(d =~= s@);
        }
    }
    let ghost total = digits_value(d);
    assert(if neg { -total >= i32::MIN } else { total <= i32::MAX }) by {
        if start == 1 {
            assert(d =~= s@.drop_first());
        } else {
            assert(d =~= s@);
        }
    }
    let mut acc: i64 = 0;
    let mut i: usize = start;
    while i < n
        invariant
            start <= i <= n,
            n == chars@.len(),
            d == chars@.subrange(start as int, n as int),
            all_digits(d),
            total == digits_value(d),
            total <= 0x8000_0000,
            acc as int == digits_value(chars@.subrange(start as int, i as int)),
        decreases n - i,
    {
        proof {
            assert(chars@.subrange(start as int, i + 1).drop_last() =~= chars@.subrange(start as int, i as int));
            assert(chars@.subrange(start as int, i + 1) =~= d.subrange(0, i + 1 - start));
            lemma_digits_mono(d, i + 1 - start);
            assert(d[i - start] == chars@[i as int]);
        }
        let digit = (chars[i] as u32 - '0' as u32) as i64;
        acc = acc * 10 + digit;
        i = i + 1;
    }
    assert(chars@.subrange(start as int, n as int) =~= d);
    proof {
        if start == 1 {
            assert(d =~= s@.drop_first());
        } else {
            assert(d =~= s@);
        }
    }
    if neg {
        (-acc) as i32
    } else {
        acc as i32
    }
}

/// Whether `s` spells an integer that fits in an `i32`.
pub fn parses_i32_exec(s: &str) -> (r: bool)
    ensures
        r == parses_i32(s@),
{
    let chars = crate::text::chars_of(s);
    let n = chars.len();
    if n == 0 {
        return false;
    }
    let signed = chars[0] == '+' || chars[0] == '-';
    let neg = chars[0] == '-';
    let start: usize = if signed { 1 } else { 0 };
    let ghost d = chars@.subrange(start as int, n as int);
    assert(d =~= if signed { s@.drop_first() } else { s@ });
    if start == n {
        return false;
    }
    let mut acc: i64 = 0;
    let mut i: usize = start;
    while i < n
        invariant
            start <= i <= n,
            n == chars@.len(),
            chars@ == s@,
            n > 0,
            signed == (s@[0] == '+' || s@[0] == '-'),
            neg == (s@[0] == '-'),
            start == (if signed { 1usize } else { 0usize }),
            d == chars@.subrange(start as int, n as int),
            d == (if signed { s@.drop_first() } else { s@ }),
            start < n,
            all_digits(chars@.subrange(start as int, i as int)),
            acc as int == digits_value(chars@.subrange(start as int, i as int)),
            0 <= acc <= 0x8000_0000,
        decreases n - i,
    {
        let c = chars[i];
        if !('0' <= c && c <= '9') {
            assert(!all_digits(d)) by {
                assert(d[i - start] == c);
            }
            assert(int_of(s@) is None);
            return false;
        }
        proof {
            assert(chars@.subrange(start as int, i + 1).drop_last() =~= chars@.subrange(start as int, i as int));
            assert(chars@.subrange(start as int, i + 1).last() == c);
        }
        let digit = (c as u32 - '0' as u32) as i64;
        acc = acc * 10 + digit;
        assert(all_digits(chars@.subrange(start as int, i + 1))) by {
            assert forall|k: int| 0 <= k < i + 1 - start implies '0' <= #[trigger] chars@.subrange(start as int, i + 1)[k] <= '9' by {
                if k < i - start {
                    assert(chars@.subrange(start as int, i + 1)[k] == chars@.subrange(start as int, i as int)[k]);
                }
            }
        }
        if acc > 0x8000_0000 {
            proof {
                if all_digits(d) {
                    assert(chars@.subrange(start as int, i + 1) =~= d.subrange(0, i + 1 - start));
                    lemma_digits_mono(d, i + 1 - start);
                    assert(digits_value(d) > 0x8000_0000);
                }
            }
            return false;
        }
        i = i + 1;
    }
    assert(chars@.subrange(start as int, n as int) =~= d);
    if neg {
        acc <= 0x8000_0000
    } else {
        acc <= 0x7fff_ffff
    }
}

/// Whether every `nf` tag among `priorities` has a number that parses.
pub fn nf_tags_ok(priorities: &Vec<String>) -> (r: bool)
    ensures
        r == nf_tags_parse(str_views(priorities@)),
{
    let ghost pv = str_views(priorities@);
    let mut i: usize = 0;
    while i < priorities.len()
        invariant
            i <= priorities@.len(),
            pv == str_views(priorities@),
            forall|k: int| 0 <= k < i && pv[k].len() >= 2 && pv[k][0] == 'n' && pv[k][1] == 'f'
                ==> parses_i32(#[trigger] pv[k].subrange(2, pv[k].len() as int)),
        decreases priorities@.len() - i,
    {
        let p = priorities[i].as_str();
        assert(pv[i as int] == p@);
        let n = crate::text::char_len(p);
        if n >= 2 && p.get_char(0) == 'n' && p.get_char(1) == 'f' {
            if !parses_i32_exec(p.substring_char(2, n)) {
                return false;
            }
        }
        i = i + 1;
    }
    true
}

/// One reading element of an entry as the dictionary source gives it.
#[derive(Debug)]
pub struct ReadingElement {
    /// The reading text.
    pub reading: String,
    /// The reading-information tags.
    pub infos: Vec<String>,
    /// Whether the reading is marked as not a true reading of the kanji.
    pub nokanji: bool,
    /// The kanji readings this reading is restricted to.
    pub restrictions: Vec<String>,
    /// The priority tags.
    pub priorities: Vec<String>,
}

/// One reading row to insert.
#[derive(Debug)]
pub struct ReadingRow {
    pub text: String,
    pub ord: i32,
    pub common: Option<i32>,
    pub common_tags: String,
    pub nokanji: bool,
}

/// The rows to write for the readings of an entry.
#[derive(Debug)]
pub struct ReadingsPlan {
    /// (reading, restricted-to text) rows, in order.
    pub restrictions: Vec<(String, String)>,
    /// The reading rows, in order, each with its position as `ord`.
    pub rows: Vec<ReadingRow>,
    /// Whether any inserted reading is a nokanji reading.
    pub primary_nokanji: bool,
    /// The number of reading rows.
    pub n_added: i32,
}

/// Strings as values.
pub open spec fn str_views(v: Seq<String>) -> Seq<Seq<char>> {
    v.map_values(|s: String| s@)
}

/// An element is skipped when one of its information tags is `ok`.
pub open spec fn skipped(e: ReadingElement) -> bool {
    str_views(e.infos@).contains("ok"@)
}

/// The commonness of a reading with priority tags `ps`: none without
/// tags; the number of the last `nf` tag if any; else 0.
pub open spec fn common_of(ps: Seq<Seq<char>>) -> Option<int>
    decreases ps.len(),
{
    if ps.len() == 0 {
        None
    } else {
        let prev = common_of(ps.drop_last());
        let p = ps.last();
        if p.len() >= 2 && p[0] == 'n' && p[1] == 'f' {
            int_of(p.subrange(2, p.len() as int))
        } else if prev is None {
            Some(0)
        } else {
            prev
        }
    }
}

/// Every `nf` tag's number parses.
pub open spec fn nf_tags_parse(ps: Seq<Seq<char>>) -> bool {
    forall|i: int| 0 <= i < ps.len() && ps[i].len() >= 2 && ps[i][0] == 'n' && ps[i][1] == 'f'
        ==> parses_i32(#[trigger] ps[i].subrange(2, ps[i].len() as int))
}

/// The tags, each in square brackets, one after the other.
pub open spec fn tags_string(ps: Seq<Seq<char>>) -> Seq<char>
    decreases ps.len(),
{
    if ps.len() == 0 {
        Seq::empty()
    } else {
        tags_string(ps.drop_last()) + seq!['['] + ps.last() + seq![']']
    }
}

/// The elements that are not skipped.
pub open spec fn kept_elements(es: Seq<ReadingElement>) -> Seq<ReadingElement> {
    es.filter(|e: ReadingElement| !skipped(e))
}

/// A reading row as values: (text, ord, common, tags, nokanji).
pub type RowView = (Seq<char>, int, Option<int>, Seq<char>, bool);

/// The row of the `j`-th kept element.
pub open spec fn row_of(e: ReadingElement, j: int) -> RowView {
    (e.reading@, j, common_of(str_views(e.priorities@)), tags_string(str_views(e.priorities@)), e.nokanji)
}

/// The restriction rows of kept elements, in order.
pub open spec fn restrictions_of(ks: Seq<ReadingElement>) -> Seq<(Seq<char>, Seq<char>)>
    decreases ks.len(),
{
    if ks.len() == 0 {
        Seq::empty()
    } else {
        let e = ks.last();
        restrictions_of(ks.drop_last()) + str_views(e.restrictions@).map_values(|r: Seq<char>| (e.reading@, r))
    }
}

/// Rows as values.
pub open spec fn row_views(rows: Seq<ReadingRow>) -> Seq<RowView> {
    rows.map_values(|r: ReadingRow| (r.text@, r.ord as int, match r.common {
        Some(c) => Some(c as int),
        None => None,
    }, r.common_tags@, r.nokanji))
}

/// The commonness and tag string of a reading's priority tags.
fn priority_info(ps: &Vec<String>) -> (r: (Option<i32>, String))
    requires
        nf_tags_parse(str_views(ps@)),
    ensures
        (match r.0 {
            Some(c) => Some(c as int),
            None => None,
        }) == common_of(str_views(ps@)),
        r.1@ == tags_string(str_views(ps@)),
{
    let ghost pv = str_views(ps@);
    let mut common: Option<i32> = None;
    let mut tags = String::new();
    let mut i: usize = 0;
    assert(pv.subrange(0, 0) =~= Seq::<Seq<char>>::empty());
    while i < ps.len()
        invariant
            i <= ps@.len(),
            pv == str_views(ps@),
            nf_tags_parse(pv),
            (match common {
                Some(c) => Some(c as int),
                None => None,
            }) == common_of(pv.subrange(0, i as int)),
            tags@ == tags_string(pv.subrange(0, i as int)),
        decreases ps@.len() - i,
    {
        let p = ps[i].as_str();
        let ghost pre = pv.subrange(0, i as int);
        assert(pv.subrange(0, i + 1).drop_last() =~= pre);
        assert(pv.subrange(0, i + 1).last() == p@);
        let n = crate::text::char_len(p);
        if common.is_none() {
            common = Some(0);
        }
        if n >= 2 && p.get_char(0) == 'n' && p.get_char(1) == 'f' {
            let rest = p.substring_char(2, n);
            assert(pv[i as int] == p@);
            common = Some(parse_i32(rest));
        }
        let mut t = tags.clone();
        t.append("[");
        t.append(p);
        t.append("]");
        proof {
            reveal_strlit("[");
            reveal_strlit("]");
        }
        assert(t@ =~= tags_string(pre) + seq!['['] + p@ + seq![']']);
        tags = t;
        i = i + 1;
    }
    assert(pv.subrange(0, i as int) =~= pv);
    (common, tags)
}

/// The rows an entry's reading elements give: elements tagged `ok` are
/// skipped; the others each give a reading row (numbered in order) and a
/// restriction row per restriction.
pub fn plan_readings(elements: &[ReadingElement]) -> (r: ReadingsPlan)
    requires
        elements@.len() <= i32::MAX,
        forall|i: int| 0 <= i < elements@.len() && !skipped(#[trigger] elements@[i]) ==> nf_tags_parse(str_views(elements@[i].priorities@)),
    ensures
        row_views(r.rows@) == Seq::new(kept_elements(elements@).len(), |j: int| row_of(kept_elements(elements@)[j], j)),
        pair_views(r.restrictions@) == restrictions_of(kept_elements(elements@)),
        r.primary_nokanji == exists|j: int| 0 <= j < kept_elements(elements@).len() && (#[trigger] kept_elements(elements@)[j]).nokanji,
        r.n_added as int == kept_elements(elements@).len(),
{
    let mut rows: Vec<ReadingRow> = Vec::new();
    let mut restrictions: Vec<(String, String)> = Vec::new();
    let mut primary_nokanji = false;
    let mut i: usize = 0;
    while i < elements.len()
        invariant
            i <= elements@.len(),
            elements@.len() <= i32::MAX,
            forall|k: int| 0 <= k < elements@.len() && !skipped(#[trigger] elements@[k]) ==> nf_tags_parse(str_views(elements@[k].priorities@)),
            rows@.len() == kept_elements(elements@.subrange(0, i as int)).len(),
            rows@.len() <= i,
            row_views(rows@) == Seq::new(rows@.len(), |j: int| row_of(kept_elements(elements@.subrange(0, i as int))[j], j)),
            pair_views(restrictions@) == restrictions_of(kept_elements(elements@.subrange(0, i as int))),
            primary_nokanji == exists|j: int| 0 <= j < rows@.len() && (#[trigger] kept_elements(elements@.subrange(0, i as int))[j]).nokanji,
        decreases elements@.len() - i,
    {
        let e = &elements[i];
        let ghost pre = elements@.subrange(0, i as int);
        let ghost next = elements@.subrange(0, i + 1);
        let ghost kpre = kept_elements(pre);
        assert(next =~= pre.push(*e));
        assert(next.drop_last() =~= pre);
        assert(kept_elements(next) == if !skipped(*e) { kpre.push(*e) } else { kpre }) by {
            reveal_with_fuel(Seq::filter, 2);
        }
        let skip = occurs_after_str(&e.infos, 0, "ok");
        assert(e.infos@.subrange(0, e.infos@.len() as int) =~= e.infos@);
        if !skip {
            let ghost rv0 = row_views(rows@);
            let ghost rs0 = pair_views(restrictions@);
            let mut k: usize = 0;
            while k < e.restrictions.len()
                invariant
                    k <= e.restrictions@.len(),
                    pair_views(restrictions@) == rs0 + str_views(e.restrictions@).subrange(0, k as int).map_values(|r: Seq<char>| (e.reading@, r)),
                decreases e.restrictions@.len() - k,
            {
                let ghost before = pair_views(restrictions@);
                restrictions.push((e.reading.clone(), e.restrictions[k].clone()));
                assert(str_views(e.restrictions@).subrange(0, k + 1).map_values(|r: Seq<char>| (e.reading@, r))
                    =~= str_views(e.restrictions@).subrange(0, k as int).map_values(|r: Seq<char>| (e.reading@, r)).push((e.reading@, e.restrictions@[k as int]@)));
                assert(pair_views(restrictions@) =~= before.push((e.reading@, e.restrictions@[k as int]@)));
                k = k + 1;
            }
            assert(str_views(e.restrictions@).subrange(0, k as int) =~= str_views(e.restrictions@));
            assert(kept_elements(next) =~= kpre.push(*e));
            assert(kept_elements(next).drop_last() =~= kpre);
            let (common, common_tags) = priority_info(&e.priorities);
            if e.nokanji {
                primary_nokanji = true;
            }
            let ord = rows.len() as i32;
            let ghost old_len = rows@.len() as int;
            let ghost old_rows = row_views(rows@);
            rows.push(ReadingRow { text: e.reading.clone(), ord, common, common_tags, nokanji: e.nokanji });
            assert(row_views(rows@) =~= old_rows.push(row_of(*e, old_len)));
            assert forall|j: int| 0 <= j < rows@.len() implies #[trigger] row_views(rows@)[j] == row_of(kept_elements(next)[j], j) by {
                if j < old_len {
                    assert(kept_elements(next)[j] == kpre[j]);
                    assert(old_rows[j] == row_of(kpre[j], j));
                }
            }
            assert(row_views(rows@) =~= Seq::new(rows@.len(), |j: int| row_of(kept_elements(next)[j], j)));
            assert(primary_nokanji == exists|j: int| 0 <= j < rows@.len() && (#[trigger] kept_elements(next)[j]).nokanji) by {
                if e.nokanji {
                    assert(kept_elements(next)[rows@.len() - 1].nokanji);
                }
                if primary_nokanji && !e.nokanji {
                    let j = choose|j: int| 0 <= j < rows@.len() - 1 && (#[trigger] kpre[j]).nokanji;
                    assert(kept_elements(next)[j] == kpre[j]);
                }
                if exists|j: int| 0 <= j < rows@.len() && (#[trigger] kept_elements(next)[j]).nokanji {
                    let j = choose|j: int| 0 <= j < rows@.len() && (#[trigger] kept_elements(next)[j]).nokanji;
                    if j < rows@.len() - 1 {
                        assert(kept_elements(next)[j] == kpre[j]);
                    }
                }
            }
        }
        i = i + 1;
    }
    assert(elements@.subrange(0, i as int) =~= elements@);
    let n_added = rows.len() as i32;
    ReadingsPlan { restrictions, rows, primary_nokanji, n_added }
}

/// The sense properties recorded for each sense, in this order.
pub const SENSE_PROP_TAGS: [&'static str; 7] = ["pos", "misc", "dial", "field", "s_inf", "stagk", "stagr"];

/// One sense of an entry as the dictionary source gives it.
#[derive(Debug)]
pub struct SenseElement {
    /// The glosses, in order.
    pub glosses: Vec<String>,
    /// For each tag of [`SENSE_PROP_TAGS`], in that order, the texts of
    /// the sense's properties with that tag.
    pub props: Vec<Vec<String>>,
}

/// The rows of one sense.
#[derive(Debug)]
pub struct SenseRows {
    pub ord: i32,
    /// (gloss text, ord) rows.
    pub glosses: Vec<(String, i32)>,
    /// (tag, text, ord) property rows: tags in table order, texts numbered
    /// within their tag.
    pub props: Vec<(&'static str, String, i32)>,
}

/// Texts numbered from 0 as values.
pub open spec fn numbered(v: Seq<String>) -> Seq<(Seq<char>, int)> {
    Seq::new(v.len(), |i: int| (v[i]@, i))
}

/// The property rows of one tag as values.
pub open spec fn tag_rows(tag: Seq<char>, v: Seq<String>) -> Seq<(Seq<char>, Seq<char>, int)> {
    Seq::new(v.len(), |i: int| (tag, v[i]@, i))
}

/// The property rows of the first `n` tags as values.
pub open spec fn prop_rows(props: Seq<Vec<String>>, n: int) -> Seq<(Seq<char>, Seq<char>, int)>
    decreases n,
{
    if n <= 0 {
        Seq::empty()
    } else {
        prop_rows(props, n - 1) + tag_rows(SENSE_PROP_TAGS@[n - 1]@, props[n - 1]@)
    }
}

/// The rows of the sense numbered `ord`.
pub fn plan_sense(sense: &SenseElement, ord: i32) -> (r: SenseRows)
    requires
        sense.props@.len() == 7,
        sense.glosses@.len() <= i32::MAX,
        forall|k: int| 0 <= k < 7 ==> (#[trigger] sense.props@[k])@.len() <= i32::MAX,
    ensures
        r.ord == ord,
        r.glosses@.map_values(|g: (String, i32)| (g.0@, g.1 as int)) == numbered(sense.glosses@),
        r.props@.map_values(|p: (&'static str, String, i32)| (p.0@, p.1@, p.2 as int)) == prop_rows(sense.props@, 7),
{
    let mut glosses: Vec<(String, i32)> = Vec::new();
    let mut i: usize = 0;
    while i < sense.glosses.len()
        invariant
            i <= sense.glosses@.len(),
            sense.glosses@.len() <= i32::MAX,
            glosses@.map_values(|g: (String, i32)| (g.0@, g.1 as int)) == numbered(sense.glosses@).subrange(0, i as int),
        decreases sense.glosses@.len() - i,
    {
        let ghost before = glosses@.map_values(|g: (String, i32)| (g.0@, g.1 as int));
        let g = sense.glosses[i].clone();
        let ord_i = i as i32;
        glosses.push((g, ord_i));
        assert(glosses@.map_values(|g: (String, i32)| (g.0@, g.1 as int)) =~= before.push((sense.glosses@[i as int]@, i as int)));
        assert(numbered(sense.glosses@).subrange(0, i + 1) =~= numbered(sense.glosses@).subrange(0, i as int).push((sense.glosses@[i as int]@, i as int)));
        i = i + 1;
    }
    assert(numbered(sense.glosses@).subrange(0, i as int) =~= numbered(sense.glosses@));
    let mut props: Vec<(&'static str, String, i32)> = Vec::new();
    let mut t: usize = 0;
    assert(props@.map_values(|p: (&'static str, String, i32)| (p.0@, p.1@, p.2 as int)) =~= prop_rows(sense.props@, 0));
    while t < 7
        invariant
            t <= 7,
            sense.props@.len() == 7,
            forall|k: int| 0 <= k < 7 ==> (#[trigger] sense.props@[k])@.len() <= i32::MAX,
            props@.map_values(|p: (&'static str, String, i32)| (p.0@, p.1@, p.2 as int)) == prop_rows(sense.props@, t as int),
        decreases 7 - t,
    {
        let tag: &'static str = SENSE_PROP_TAGS[t];
        assert(tag == SENSE_PROP_TAGS@[t as int]);
        let texts = &sense.props[t];
        assert(texts@.len() <= i32::MAX);
        let ghost base = props@.map_values(|p: (&'static str, String, i32)| (p.0@, p.1@, p.2 as int));
        let mut j: usize = 0;
        while j < texts.len()
            invariant
                j <= texts@.len(),
                texts@.len() <= i32::MAX,
                tag@ == SENSE_PROP_TAGS@[t as int]@,
                props@.map_values(|p: (&'static str, String, i32)| (p.0@, p.1@, p.2 as int)) == base + tag_rows(tag@, texts@).subrange(0, j as int),
            decreases texts@.len() - j,
        {
            let ghost before = props@.map_values(|p: (&'static str, String, i32)| (p.0@, p.1@, p.2 as int));
            let txt = texts[j].clone();
            let ord_j = j as i32;
            props.push((tag, txt, ord_j));
            assert(props@.map_values(|p: (&'static str, String, i32)| (p.0@, p.1@, p.2 as int)) =~= before.push((tag@, texts@[j as int]@, j as int)));
            assert(tag_rows(tag@, texts@).subrange(0, j + 1) =~= tag_rows(tag@, texts@).subrange(0, j as int).push((tag@, texts@[j as int]@, j as int)));
            j = j + 1;
        }
        assert(tag_rows(tag@, texts@).subrange(0, j as int) =~= tag_rows(tag@, texts@));
        assert(prop_rows(sense.props@, t + 1) == prop_rows(sense.props@, t as int) + tag_rows(SENSE_PROP_TAGS@[t as int]@, sense.props@[t as int]@));
        t = t + 1;
    }
    SenseRows { ord, glosses, props }
}

} // verus!
