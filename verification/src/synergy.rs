//! Inter-word synergies: score bonuses between two adjacent segment lists
//! whose segments pass a left and a right filter.

use std::sync::Arc;
use vstd::prelude::*;
use crate::segment::{
    KaniLiteSegment, KaniLiteSegmentList, SegmentList, Segment, make_kani_lite_segment_list_from,
    share, KPCL_C, KPCL_K, KPCL_L, KPCL_P, POS_ADJ_NA, POS_ADJ_NO, POS_ADV_TO, POS_N, POS_NOUN,
};
use crate::segment::lite_matches;
use crate::text::str_eq;
use crate::word::KaniWordDispatchEnum;

verus! {

/// One scoring bonus between two consecutive segment lists.
#[derive(Debug, Clone)]
pub struct Synergy {
    pub description: Option<String>,
    pub connector: Option<String>,
    pub score: i32,
    pub start: usize,
    pub end: usize,
}

/// A full segment list over `segments` that keeps `old`'s span, match count
/// and top array.
pub fn make_segment_list_from(old_segment_list: &SegmentList, segments: Vec<Arc<Segment>>) -> (r:
    SegmentList)
    ensures
        r.segments == segments,
        r.start == old_segment_list.start,
        r.end == old_segment_list.end,
        r.top == old_segment_list.top,
        r.matches == old_segment_list.matches,
{
    let top = match &old_segment_list.top {
        Some(t) => Some(share(t)),
        None => None,
    };
    SegmentList {
        segments,
        start: old_segment_list.start,
        end: old_segment_list.end,
        top,
        matches: old_segment_list.matches,
    }
}

/// The fixed parts of a generic synergy.
pub struct DefGenericSynergyOpts<'a> {
    pub description: Option<&'a str>,
    pub connector: &'a str,
    pub score: i32,
}

/// The segments of `segs` whose mask entry is set, in order.
pub open spec fn keep_masked(segs: Seq<Arc<KaniLiteSegment>>, mask: Seq<bool>) -> Seq<Arc<KaniLiteSegment>>
    decreases segs.len(),
{
    if segs.len() == 0 || mask.len() == 0 {
        Seq::empty()
    } else {
        let prev = keep_masked(segs.drop_last(), mask.drop_last());
        if mask.last() {
            prev.push(segs.last())
        } else {
            prev
        }
    }
}

/// The segments of `segs` that satisfy `p`, in order.
pub open spec fn keep_where(segs: Seq<Arc<KaniLiteSegment>>, p: spec_fn(KaniLiteSegment) -> bool) -> Seq<Arc<KaniLiteSegment>>
    decreases segs.len(),
{
    if segs.len() == 0 {
        Seq::empty()
    } else {
        let prev = keep_where(segs.drop_last(), p);
        if p(*segs.last()) {
            prev.push(segs.last())
        } else {
            prev
        }
    }
}

/// `mask` records one answer of `f` per segment of `segs`.
pub open spec fn decided_by<F: Fn(&Arc<KaniLiteSegment>) -> bool>(
    f: F,
    segs: Seq<Arc<KaniLiteSegment>>,
    mask: Seq<bool>,
) -> bool {
    &&& mask.len() == segs.len()
    &&& forall|i: int| 0 <= i < segs.len() ==> f.ensures((&segs[i],), #[trigger] mask[i])
}

/// An optional owned string holding the same characters as an optional
/// string slice.
pub open spec fn same_opt_text(o: Option<String>, d: Option<&str>) -> bool {
    match (o, d) {
        (Some(a), Some(b)) => a@ == b@,
        (None, None) => true,
        _ => false,
    }
}

/// The outcome of a generic synergy over lists `l` and `r` whose filtered
/// segments are `left` and `right`: nothing unless both are non-empty;
/// otherwise one triple of the right list restricted to `right`, the
/// synergy at the junction, and the left list restricted to `left`.
pub open spec fn synergy_result(
    res: Seq<(Arc<KaniLiteSegmentList>, Synergy, Arc<KaniLiteSegmentList>)>,
    l: KaniLiteSegmentList,
    r: KaniLiteSegmentList,
    left: Seq<Arc<KaniLiteSegment>>,
    right: Seq<Arc<KaniLiteSegment>>,
    description: Option<&str>,
    connector: Seq<char>,
    score: i32,
) -> bool {
    if left.len() > 0 && right.len() > 0 {
        &&& res.len() == 1
        &&& res[0].0.segments@ == right
        &&& res[0].0.start == r.start
        &&& res[0].0.end == r.end
        &&& res[0].0.matches == r.matches
        &&& res[0].0.top == r.top
        &&& same_opt_text(res[0].1.description, description)
        &&& res[0].1.connector matches Some(c) && c@ == connector
        &&& res[0].1.score == score
        &&& res[0].1.start == l.end
        &&& res[0].1.end == r.start
        &&& res[0].2.segments@ == left
        &&& res[0].2.start == l.start
        &&& res[0].2.end == l.end
        &&& res[0].2.matches == l.matches
        &&& res[0].2.top == l.top
    } else {
        res.len() == 0
    }
}

/// The outcome of a synergy whose filters are the predicates `pl` and `pr`:
/// nothing when the lists do not abut, otherwise [`synergy_result`] over the
/// segments passing each predicate.
pub open spec fn synergy_spec(
    res: Seq<(Arc<KaniLiteSegmentList>, Synergy, Arc<KaniLiteSegmentList>)>,
    l: KaniLiteSegmentList,
    r: KaniLiteSegmentList,
    pl: spec_fn(KaniLiteSegment) -> bool,
    pr: spec_fn(KaniLiteSegment) -> bool,
    description: &str,
    connector: &str,
    score: i32,
) -> bool {
    if l.end != r.start {
        res.len() == 0
    } else {
        synergy_result(
            res,
            l,
            r,
            keep_where(l.segments@, pl),
            keep_where(r.segments@, pr),
            Some(description),
            connector@,
            score,
        )
    }
}

/// Masks that agree with a predicate select what the predicate selects.
pub proof fn lemma_mask_matches_predicate(
    segs: Seq<Arc<KaniLiteSegment>>,
    mask: Seq<bool>,
    p: spec_fn(KaniLiteSegment) -> bool,
)
    requires
        mask.len() == segs.len(),
        forall|i: int| 0 <= i < segs.len() ==> mask[i] == p(*segs[i]),
    ensures
        keep_masked(segs, mask) == keep_where(segs, p),
    decreases segs.len(),
{
    if segs.len() > 0 {
        lemma_mask_matches_predicate(segs.drop_last(), mask.drop_last(), p);
    }
}

fn filter_pass<F: Fn(&Arc<KaniLiteSegment>) -> bool>(segs: &Vec<Arc<KaniLiteSegment>>, f: &F) -> (r: (
    Vec<Arc<KaniLiteSegment>>,
    Ghost<Seq<bool>>,
))
    requires
        forall|s: &Arc<KaniLiteSegment>| #[trigger] f.requires((s,)),
    ensures
        decided_by(*f, segs@, r.1@),
        r.0@ == keep_masked(segs@, r.1@),
{
    let mut kept: Vec<Arc<KaniLiteSegment>> = Vec::new();
    let ghost mut mask: Seq<bool> = Seq::empty();
    let mut i: usize = 0;
    while i < segs.len()
        invariant
            forall|s: &Arc<KaniLiteSegment>| #[trigger] f.requires((s,)),
            i <= segs@.len(),
            decided_by(*f, segs@.subrange(0, i as int), mask),
            kept@ == keep_masked(segs@.subrange(0, i as int), mask),
        decreases segs@.len() - i,
    {
        let b = f(&segs[i]);
        let ghost old_mask = mask;
        proof {
            let pre = segs@.subrange(0, i as int);
            let post = segs@.subrange(0, i + 1);
            assert(post.drop_last() =~= pre);
            mask = mask.push(b);
            assert(mask.drop_last() =~= old_mask);
            assert(post.last() == segs@[i as int]);
        }
        if b {
            kept.push(share(&segs[i]));
        }
        proof {
            let post = segs@.subrange(0, i + 1);
            assert forall|j: int| 0 <= j < post.len() implies f.ensures((&post[j],), #[trigger] mask[j]) by {
                if j < i {
                    assert(post[j] == segs@.subrange(0, i as int)[j]);
                }
            }
        }
        i = i + 1;
    }
    assert(segs@.subrange(0, segs@.len() as int) =~= segs@);
    (kept, Ghost(mask))
}

/// The shared body of the generic synergies: when `segment_list_left` ends
/// where `segment_list_right` starts and each has a segment passing its
/// filter, one `(right list, synergy, left list)` triple over the passing
/// segments; otherwise nothing. Each filter is asked once per segment.
pub fn def_generic_synergy_body<FL, FR>(
    segment_list_left: &KaniLiteSegmentList,
    segment_list_right: &KaniLiteSegmentList,
    filter_left: FL,
    filter_right: FR,
    opts: &DefGenericSynergyOpts<'_>,
) -> (res: Vec<(Arc<KaniLiteSegmentList>, Synergy, Arc<KaniLiteSegmentList>)>) where
    FL: Fn(&Arc<KaniLiteSegment>) -> bool,
    FR: Fn(&Arc<KaniLiteSegment>) -> bool,

    requires
        forall|s: &Arc<KaniLiteSegment>| #[trigger] filter_left.requires((s,)),
        forall|s: &Arc<KaniLiteSegment>| #[trigger] filter_right.requires((s,)),
    ensures
        segment_list_left.end != segment_list_right.start ==> res@.len() == 0,
        segment_list_left.end == segment_list_right.start ==> exists|ml: Seq<bool>, mr: Seq<bool>|
            {
                &&& #[trigger] decided_by(filter_left, segment_list_left.segments@, ml)
                &&& #[trigger] decided_by(filter_right, segment_list_right.segments@, mr)
                &&& synergy_result(
                    res@,
                    *segment_list_left,
                    *segment_list_right,
                    keep_masked(segment_list_left.segments@, ml),
                    keep_masked(segment_list_right.segments@, mr),
                    opts.description,
                    opts.connector@,
                    opts.score,
                )
            },
{
    let start = segment_list_left.end;
    let end = segment_list_right.start;
    if start != end {
        return Vec::new();
    }
    let (left, Ghost(ml)) = filter_pass(&segment_list_left.segments, &filter_left);
    let (right, Ghost(mr)) = filter_pass(&segment_list_right.segments, &filter_right);
    if left.len() == 0 || right.len() == 0 {
        let res: Vec<(Arc<KaniLiteSegmentList>, Synergy, Arc<KaniLiteSegmentList>)> = Vec::new();
        assert(synergy_result(
            res@,
            *segment_list_left,
            *segment_list_right,
            keep_masked(segment_list_left.segments@, ml),
            keep_masked(segment_list_right.segments@, mr),
            opts.description,
            opts.connector@,
            opts.score,
        ));
        return res;
    }
    let description = match opts.description {
        Some(d) => Some(d.to_owned()),
        None => None,
    };
    let syn = Synergy {
        description,
        connector: Some(opts.connector.to_owned()),
        score: opts.score,
        start,
        end,
    };
    let right_list = Arc::new(make_kani_lite_segment_list_from(segment_list_right, right));
    let left_list = Arc::new(make_kani_lite_segment_list_from(segment_list_left, left));
    let mut res: Vec<(Arc<KaniLiteSegmentList>, Synergy, Arc<KaniLiteSegmentList>)> = Vec::new();
    res.push((right_list, syn, left_list));
    assert(synergy_result(
        res@,
        *segment_list_left,
        *segment_list_right,
        keep_masked(segment_list_left.segments@, ml),
        keep_masked(segment_list_right.segments@, mr),
        opts.description,
        opts.connector@,
        opts.score,
    ));
    res
}

/// Whether any seq of `seqs` is in `set`.
pub open spec fn seq_sets_meet(seqs: Seq<i32>, set: Seq<i32>) -> bool {
    exists|i: int, j: int| 0 <= i < seqs.len() && 0 <= j < set.len() && seqs[i] == set[j]
}

/// The kanji-or-katakana bit of a lite segment.
pub open spec fn kpcl_k(s: KaniLiteSegment) -> bool {
    (s.kpcl & KPCL_K) != 0
}

/// The primary-reading bit of a lite segment.
pub open spec fn kpcl_p(s: KaniLiteSegment) -> bool {
    (s.kpcl & KPCL_P) != 0
}

/// The common-word bit of a lite segment.
pub open spec fn kpcl_c(s: KaniLiteSegment) -> bool {
    (s.kpcl & KPCL_C) != 0
}

/// The long-word bit of a lite segment.
pub open spec fn kpcl_l(s: KaniLiteSegment) -> bool {
    (s.kpcl & KPCL_L) != 0
}

/// A noun: a kanji, long, or primary-and-common word with a noun part of
/// speech, or a counter with a non-empty seq set.
pub open spec fn spec_is_noun(s: KaniLiteSegment) -> bool {
    ||| ((kpcl_l(s) || kpcl_k(s)) || (kpcl_p(s) && kpcl_c(s))) && (s.pos & POS_NOUN) != 0
    ||| s.is_counter && s.seq_set@.len() > 0
}

/// Whether a segment is a noun (see [`spec_is_noun`]).
pub fn filter_is_noun(segment: &Arc<KaniLiteSegment>) -> (b: bool)
    ensures
        b == spec_is_noun(**segment),
{
    let kpcl = segment.kpcl;
    let kpcl_gate = (kpcl & (KPCL_L | KPCL_K)) != 0 || ((kpcl & KPCL_P) != 0 && (kpcl & KPCL_C)
        != 0);
    assert(((kpcl & (KPCL_L | KPCL_K)) != 0) == ((kpcl & KPCL_L) != 0 || (kpcl & KPCL_K) != 0))
        by (bit_vector);
    if kpcl_gate && (segment.pos & POS_NOUN) != 0 {
        return true;
    }
    segment.is_counter && segment.seq_set.len() > 0
}

/// A predicate over the segment's part-of-speech bits and kpcl quad:
/// `kpcl_test(k, p, c, l)` holds and the part of speech meets `pos_mask`.
pub fn filter_is_pos<T>(pos_mask: u16, kpcl_test: T) -> (f: impl Fn(&Arc<KaniLiteSegment>) -> bool) where
    T: Fn(bool, bool, bool, bool) -> bool,

    requires
        forall|k: bool, p: bool, c: bool, l: bool| #[trigger] kpcl_test.requires((k, p, c, l)),
    ensures
        forall|s: &Arc<KaniLiteSegment>| #[trigger] f.requires((s,)),
        forall|s: &Arc<KaniLiteSegment>, b: bool|
            f.ensures((s,), b) ==> exists|t: bool|
                {
                    &&& #[trigger] kpcl_test.ensures(
                        (kpcl_k(**s), kpcl_p(**s), kpcl_c(**s), kpcl_l(**s)),
                        t,
                    )
                    &&& b == (t && (s.pos & pos_mask) != 0)
                },
{
    move |segment: &Arc<KaniLiteSegment>| -> (b: bool)
        ensures
            exists|t: bool|
                {
                    &&& #[trigger] kpcl_test.ensures(
                        (kpcl_k(**segment), kpcl_p(**segment), kpcl_c(**segment), kpcl_l(**segment)),
                        t,
                    )
                    &&& b == (t && (segment.pos & pos_mask) != 0)
                },
        {
            let k = (segment.kpcl & KPCL_K) != 0;
            let p = (segment.kpcl & KPCL_P) != 0;
            let c = (segment.kpcl & KPCL_C) != 0;
            let l = (segment.kpcl & KPCL_L) != 0;
            let t = kpcl_test(k, p, c, l);
            assert(kpcl_test.ensures(
                (kpcl_k(**segment), kpcl_p(**segment), kpcl_c(**segment), kpcl_l(**segment)),
                t,
            ));
            t && (segment.pos & pos_mask) != 0
        }
}

fn any_shared(seqs: &[i32], set: &Vec<i32>) -> (b: bool)
    ensures
        b == seq_sets_meet(seqs@, set@),
{
    let mut i: usize = 0;
    while i < seqs.len()
        invariant
            i <= seqs@.len(),
            forall|a: int, j: int| 0 <= a < i && 0 <= j < set@.len() ==> seqs@[a] != set@[j],
        decreases seqs@.len() - i,
    {
        let mut j: usize = 0;
        while j < set.len()
            invariant
                i < seqs@.len(),
                j <= set@.len(),
                forall|b: int| 0 <= b < j ==> seqs@[i as int] != set@[b],
            decreases set@.len() - j,
        {
            if set[j] == seqs[i] {
                return true;
            }
            j = j + 1;
        }
        i = i + 1;
    }
    false
}

/// A predicate: the segment's seq set shares a seq with `seqs`.
pub fn filter_in_seq_set(seqs: &[i32]) -> (f: impl Fn(&Arc<KaniLiteSegment>) -> bool + '_)
    ensures
        forall|s: &Arc<KaniLiteSegment>| #[trigger] f.requires((s,)),
        forall|s: &Arc<KaniLiteSegment>, b: bool|
            f.ensures((s,), b) ==> b == seq_sets_meet(seqs@, s.seq_set@),
{
    move |segment: &Arc<KaniLiteSegment>| -> (b: bool)
        ensures
            b == seq_sets_meet(seqs@, segment.seq_set@),
        { any_shared(seqs, &segment.seq_set) }
}

/// The segment's word has a single seq and its seq set shares a seq with
/// `seqs`.
pub open spec fn in_seq_set_simple(seqs: Seq<i32>, s: KaniLiteSegment) -> bool {
    s.has_simple_seq && seq_sets_meet(seqs, s.seq_set@)
}

/// Whether the segment's word has a single seq and its seq set shares a
/// seq with `seqs`.
pub fn matches_in_seq_set_simple(seqs: &[i32], segment: &Arc<KaniLiteSegment>) -> (b: bool)
    ensures
        b == in_seq_set_simple(seqs@, **segment),
{
    segment.has_simple_seq && any_shared(seqs, &segment.seq_set)
}

/// A predicate: the segment's word has a single seq and its seq set shares
/// a seq with `seqs` (see [`in_seq_set_simple`]).
pub fn filter_in_seq_set_simple(seqs: &[i32]) -> (f: impl Fn(&Arc<KaniLiteSegment>) -> bool + '_)
    ensures
        forall|s: &Arc<KaniLiteSegment>| #[trigger] f.requires((s,)),
        forall|s: &Arc<KaniLiteSegment>, b: bool| f.ensures((s,), b) ==> b == in_seq_set_simple(seqs@, **s),
{
    move |segment: &Arc<KaniLiteSegment>| -> (b: bool)
        ensures
            b == in_seq_set_simple(seqs@, **segment),
        { matches_in_seq_set_simple(seqs, segment) }
}

/// On the lite mirror of a segment, [`in_seq_set_simple`] holds exactly
/// when the segment's word has a single seq (so never for a compound or a
/// counter) and the segment's seq set shares a seq with `seqs`.
pub proof fn law_in_seq_set_simple_on_source(seqs: Seq<i32>, lite: KaniLiteSegment, source: Segment)
    requires
        lite_matches(lite, source),
    ensures
        in_seq_set_simple(seqs, lite) == (source.word.spec_single_seq() is Some && seq_sets_meet(
            seqs,
            match source.info {
                Some(info) => info.seq_set@,
                None => Seq::empty(),
            },
        )),
        (source.word is Compound || source.word is Counter) ==> !in_seq_set_simple(seqs, lite),
{
}

fn contains_i32(v: &Vec<i32>, x: i32) -> (b: bool)
    ensures
        b == v@.contains(x),
{
    let mut i: usize = 0;
    while i < v.len()
        invariant
            i <= v@.len(),
            forall|j: int| 0 <= j < i ==> v@[j] != x,
        decreases v@.len() - i,
    {
        if v[i] == x {
            assert(v@[i as int] == x);
            return true;
        }
        i = i + 1;
    }
    false
}

fn slice_contains_i32(v: &[i32], x: i32) -> (b: bool)
    ensures
        b == v@.contains(x),
{
    let mut i: usize = 0;
    while i < v.len()
        invariant
            i <= v@.len(),
            forall|j: int| 0 <= j < i ==> v@[j] != x,
        decreases v@.len() - i,
    {
        if v[i] == x {
            assert(v@[i as int] == x);
            return true;
        }
        i = i + 1;
    }
    false
}

/// A predicate: one of the segment's conjugations has type `conj_type`.
pub fn filter_is_conjugation(conj_type: i32) -> (f: impl Fn(&Arc<KaniLiteSegment>) -> bool)
    ensures
        forall|s: &Arc<KaniLiteSegment>| #[trigger] f.requires((s,)),
        forall|s: &Arc<KaniLiteSegment>, b: bool|
            f.ensures((s,), b) ==> b == s.conj_types@.contains(conj_type),
{
    move |segment: &Arc<KaniLiteSegment>| -> (b: bool)
        ensures
            b == segment.conj_types@.contains(conj_type),
        { contains_i32(&segment.conj_types, conj_type) }
}

/// Seqs of the particles that can follow a noun (さえ and すら share one).
pub const NOUN_PARTICLES: [i32; 23] = [
    2028920,
    2028930,
    2028990,
    2028980,
    2029000,
    1007340,
    1579080,
    1525680,
    2028940,
    1582300,
    2215430,
    1469800,
    1009990,
    2029010,
    1005120,
    2034520,
    1005120,
    1008490,
    1008530,
    1008590,
    2028950,
    2028960,
    1009600,
];

/// The segment's word is a compound whose last part has a single seq that
/// is in `seqs`.
pub open spec fn is_compound_end(seqs: Seq<i32>, s: KaniLiteSegment) -> bool {
    s.compound_end_seq matches Some(e) && seqs.contains(e)
}

/// Whether the segment's word is a compound whose last part has a single
/// seq that is in `seqs`.
pub fn matches_compound_end(seqs: &[i32], segment: &Arc<KaniLiteSegment>) -> (b: bool)
    ensures
        b == is_compound_end(seqs@, **segment),
{
    match segment.compound_end_seq {
        Some(end_seq) => slice_contains_i32(seqs, end_seq),
        None => false,
    }
}

/// A predicate: the segment's word is a compound whose last part has a
/// single seq that is in `seqs` (see [`is_compound_end`]).
pub fn filter_is_compound_end(seqs: &[i32]) -> (f: impl Fn(&Arc<KaniLiteSegment>) -> bool + '_)
    ensures
        forall|s: &Arc<KaniLiteSegment>| #[trigger] f.requires((s,)),
        forall|s: &Arc<KaniLiteSegment>, b: bool| f.ensures((s,), b) ==> b == is_compound_end(seqs@, **s),
{
    move |segment: &Arc<KaniLiteSegment>| -> (b: bool)
        ensures
            b == is_compound_end(seqs@, **segment),
        { matches_compound_end(seqs, segment) }
}

/// On the lite mirror of a segment, [`is_compound_end`] holds exactly when
/// the segment's word is a compound whose last part has a single seq in
/// `seqs`; a word that is not a compound never matches, whatever its seq
/// set.
pub proof fn law_compound_end_on_source(seqs: Seq<i32>, lite: KaniLiteSegment, source: Segment)
    requires
        lite_matches(lite, source),
    ensures
        is_compound_end(seqs, lite) == (match source.word {
            KaniWordDispatchEnum::Compound(c) => c.words@.len() > 0 && (match c.words@.last().spec_single_seq() {
                Some(x) => seqs.contains(x),
                None => false,
            }),
            _ => false,
        }),
        !(source.word is Compound) ==> !is_compound_end(seqs, lite),
{
}

/// Whether some text of `texts` equals `t`.
pub open spec fn texts_contain(texts: Seq<&str>, t: Seq<char>) -> bool {
    exists|i: int| 0 <= i < texts.len() && #[trigger] texts[i]@ == t
}

/// The segment's word is a compound whose last part's text is one of
/// `texts`.
pub open spec fn is_compound_end_text(texts: Seq<&str>, s: KaniLiteSegment) -> bool {
    s.compound_end_text matches Some(e) && texts_contain(texts, e@)
}

/// Whether the segment's word is a compound whose last part's text is one
/// of `texts`.
pub fn matches_compound_end_text(texts: &[&str], segment: &Arc<KaniLiteSegment>) -> (b: bool)
    ensures
        b == is_compound_end_text(texts@, **segment),
{
    match &segment.compound_end_text {
        Some(end) => {
            let mut i: usize = 0;
            while i < texts.len()
                invariant
                    i <= texts@.len(),
                    segment.compound_end_text == Some(*end),
                    forall|j: int| 0 <= j < i ==> texts@[j]@ != end@,
                decreases texts@.len() - i,
            {
                if str_eq(texts[i], end.as_str()) {
                    assert(texts@[i as int]@ == end@);
                    assert(texts_contain(texts@, end@));
                    return true;
                }
                i = i + 1;
            }
            false
        },
        None => false,
    }
}

/// A predicate: the segment's word is a compound whose last part's text is
/// one of `texts` (see [`is_compound_end_text`]).
pub fn filter_is_compound_end_text<'a>(texts: &'a [&'a str]) -> (f: impl Fn(&Arc<KaniLiteSegment>) -> bool + 'a)
    ensures
        forall|s: &Arc<KaniLiteSegment>| #[trigger] f.requires((s,)),
        forall|s: &Arc<KaniLiteSegment>, b: bool| f.ensures((s,), b) ==> b == is_compound_end_text(texts@, **s),
{
    move |segment: &Arc<KaniLiteSegment>| -> (b: bool)
        ensures
            b == is_compound_end_text(texts@, **segment),
        { matches_compound_end_text(texts, segment) }
}

/// On the lite mirror of a segment, [`is_compound_end_text`] holds exactly
/// when the segment's word is a compound whose last part's text is one of
/// `texts`; a word that is not a compound, or a compound with no parts,
/// never matches.
pub proof fn law_compound_end_text_on_source(texts: Seq<&str>, lite: KaniLiteSegment, source: Segment)
    requires
        lite_matches(lite, source),
    ensures
        is_compound_end_text(texts, lite) == (match source.word {
            KaniWordDispatchEnum::Compound(c) => c.words@.len() > 0 && texts_contain(texts, c.words@.last().spec_text()),
            _ => false,
        }),
{
}

/// A generic synergy's outcome follows from its filters' predicates.
proof fn lemma_synergy_from_filters<FL, FR>(
    res: Seq<(Arc<KaniLiteSegmentList>, Synergy, Arc<KaniLiteSegmentList>)>,
    l: KaniLiteSegmentList,
    r: KaniLiteSegmentList,
    fl: FL,
    fr: FR,
    pl: spec_fn(KaniLiteSegment) -> bool,
    pr: spec_fn(KaniLiteSegment) -> bool,
    description: &str,
    connector: &str,
    score: i32,
) where
    FL: Fn(&Arc<KaniLiteSegment>) -> bool,
    FR: Fn(&Arc<KaniLiteSegment>) -> bool,

    requires
        l.end != r.start ==> res.len() == 0,
        l.end == r.start ==> exists|ml: Seq<bool>, mr: Seq<bool>|
            {
                &&& #[trigger] decided_by(fl, l.segments@, ml)
                &&& #[trigger] decided_by(fr, r.segments@, mr)
                &&& synergy_result(
                    res,
                    l,
                    r,
                    keep_masked(l.segments@, ml),
                    keep_masked(r.segments@, mr),
                    Some(description),
                    connector@,
                    score,
                )
            },
        forall|s: &Arc<KaniLiteSegment>, b: bool| fl.ensures((s,), b) ==> b == pl(**s),
        forall|s: &Arc<KaniLiteSegment>, b: bool| fr.ensures((s,), b) ==> b == pr(**s),
    ensures
        synergy_spec(res, l, r, pl, pr, description, connector, score),
{
    if l.end == r.start {
        let (ml, mr) = choose|ml: Seq<bool>, mr: Seq<bool>|
            {
                &&& #[trigger] decided_by(fl, l.segments@, ml)
                &&& #[trigger] decided_by(fr, r.segments@, mr)
                &&& synergy_result(
                    res,
                    l,
                    r,
                    keep_masked(l.segments@, ml),
                    keep_masked(r.segments@, mr),
                    Some(description),
                    connector@,
                    score,
                )
            };
        assert forall|i: int| 0 <= i < l.segments@.len() implies ml[i] == pl(*l.segments@[i]) by {
            assert(fl.ensures((&l.segments@[i],), ml[i]));
        }
        assert forall|i: int| 0 <= i < r.segments@.len() implies mr[i] == pr(*r.segments@[i]) by {
            assert(fr.ensures((&r.segments@[i],), mr[i]));
        }
        lemma_mask_matches_predicate(l.segments@, ml, pl);
        lemma_mask_matches_predicate(r.segments@, mr, pr);
    }
}

/// Binds a noun on the left to a particle that can follow a noun on the right, scoring 10 plus 4 per character of the particle.
pub fn synergy_noun_particle(l: &KaniLiteSegmentList, r: &KaniLiteSegmentList) -> (res: Vec<(Arc<KaniLiteSegmentList>, Synergy, Arc<KaniLiteSegmentList>)>)
    requires
        r.start <= r.end,
        r.end - r.start <= 536870909,
    ensures
        synergy_spec(
            res@,
            *l,
            *r,
            |s: KaniLiteSegment| spec_is_noun(s),
            |s: KaniLiteSegment| seq_sets_meet(NOUN_PARTICLES@, s.seq_set@),
            "noun+prt",
            " ",
            (10 + 4 * (r.end - r.start)) as i32,
        ),
{
    let span = r.end - r.start;
    let score: i32 = 10 + 4 * (span as i32);
    let fl = filter_is_noun;
    let fr = filter_in_seq_set(NOUN_PARTICLES.as_slice());
    let ghost gfl = fl;
    let ghost gfr = fr;
    let res = def_generic_synergy_body(
        l,
        r,
        fl,
        fr,
        &DefGenericSynergyOpts { description: Some("noun+prt"), connector: " ", score },
    );
    proof {
        lemma_synergy_from_filters(
            res@,
            *l,
            *r,
            gfl,
            gfr,
            |s: KaniLiteSegment| spec_is_noun(s),
            |s: KaniLiteSegment| seq_sets_meet(NOUN_PARTICLES@, s.seq_set@),
            "noun+prt",
            " ",
            score,
        );
    }
    res
}

/// Binds a noun on the left to だ on the right.
pub fn synergy_noun_da(l: &KaniLiteSegmentList, r: &KaniLiteSegmentList) -> (res: Vec<(Arc<KaniLiteSegmentList>, Synergy, Arc<KaniLiteSegmentList>)>)
    ensures
        synergy_spec(
            res@,
            *l,
            *r,
            |s: KaniLiteSegment| spec_is_noun(s),
            |s: KaniLiteSegment| seq_sets_meet(seq![2089020i32], s.seq_set@),
            "noun+da",
            " ",
            10i32,
        ),
{
    let score: i32 = 10;
    let seqs_r: [i32; 1] = [2089020];
    assert(seqs_r@ =~= seq![2089020i32]);
    let fl = filter_is_noun;
    let fr = filter_in_seq_set(seqs_r.as_slice());
    let ghost gfl = fl;
    let ghost gfr = fr;
    let res = def_generic_synergy_body(
        l,
        r,
        fl,
        fr,
        &DefGenericSynergyOpts { description: Some("noun+da"), connector: " ", score },
    );
    proof {
        lemma_synergy_from_filters(
            res@,
            *l,
            *r,
            gfl,
            gfr,
            |s: KaniLiteSegment| spec_is_noun(s),
            |s: KaniLiteSegment| seq_sets_meet(seq![2089020i32], s.seq_set@),
            "noun+da",
            " ",
            score,
        );
    }
    res
}

/// Binds の/ん on the left to だ/です/だろう on the right.
pub fn synergy_no_da(l: &KaniLiteSegmentList, r: &KaniLiteSegmentList) -> (res: Vec<(Arc<KaniLiteSegmentList>, Synergy, Arc<KaniLiteSegmentList>)>)
    ensures
        synergy_spec(
            res@,
            *l,
            *r,
            |s: KaniLiteSegment| seq_sets_meet(seq![1469800i32, 2139720i32], s.seq_set@),
            |s: KaniLiteSegment| seq_sets_meet(seq![2089020i32, 1007370i32, 1928670i32], s.seq_set@),
            "no da/desu",
            " ",
            15i32,
        ),
{
    let score: i32 = 15;
    let seqs_l: [i32; 2] = [1469800, 2139720];
    assert(seqs_l@ =~= seq![1469800i32, 2139720i32]);
    let seqs_r: [i32; 3] = [2089020, 1007370, 1928670];
    assert(seqs_r@ =~= seq![2089020i32, 1007370i32, 1928670i32]);
    let fl = filter_in_seq_set(seqs_l.as_slice());
    let fr = filter_in_seq_set(seqs_r.as_slice());
    let ghost gfl = fl;
    let ghost gfr = fr;
    let res = def_generic_synergy_body(
        l,
        r,
        fl,
        fr,
        &DefGenericSynergyOpts { description: Some("no da/desu"), connector: " ", score },
    );
    proof {
        lemma_synergy_from_filters(
            res@,
            *l,
            *r,
            gfl,
            gfr,
            |s: KaniLiteSegment| seq_sets_meet(seq![1469800i32, 2139720i32], s.seq_set@),
            |s: KaniLiteSegment| seq_sets_meet(seq![2089020i32, 1007370i32, 1928670i32], s.seq_set@),
            "no da/desu",
            " ",
            score,
        );
    }
    res
}

/// Binds そう on the left to なんだ on the right.
pub fn synergy_sou_nanda(l: &KaniLiteSegmentList, r: &KaniLiteSegmentList) -> (res: Vec<(Arc<KaniLiteSegmentList>, Synergy, Arc<KaniLiteSegmentList>)>)
    ensures
        synergy_spec(
            res@,
            *l,
            *r,
            |s: KaniLiteSegment| seq_sets_meet(seq![2137720i32], s.seq_set@),
            |s: KaniLiteSegment| seq_sets_meet(seq![2140410i32], s.seq_set@),
            "sou na n da",
            " ",
            50i32,
        ),
{
    let score: i32 = 50;
    let seqs_l: [i32; 1] = [2137720];
    assert(seqs_l@ =~= seq![2137720i32]);
    let seqs_r: [i32; 1] = [2140410];
    assert(seqs_r@ =~= seq![2140410i32]);
    let fl = filter_in_seq_set(seqs_l.as_slice());
    let fr = filter_in_seq_set(seqs_r.as_slice());
    let ghost gfl = fl;
    let ghost gfr = fr;
    let res = def_generic_synergy_body(
        l,
        r,
        fl,
        fr,
        &DefGenericSynergyOpts { description: Some("sou na n da"), connector: " ", score },
    );
    proof {
        lemma_synergy_from_filters(
            res@,
            *l,
            *r,
            gfl,
            gfr,
            |s: KaniLiteSegment| seq_sets_meet(seq![2137720i32], s.seq_set@),
            |s: KaniLiteSegment| seq_sets_meet(seq![2140410i32], s.seq_set@),
            "sou na n da",
            " ",
            score,
        );
    }
    res
}

/// Binds an adj-no word on the left to の on the right.
pub fn synergy_no_adjectives(l: &KaniLiteSegmentList, r: &KaniLiteSegmentList) -> (res: Vec<(Arc<KaniLiteSegmentList>, Synergy, Arc<KaniLiteSegmentList>)>)
    ensures
        synergy_spec(
            res@,
            *l,
            *r,
            |s: KaniLiteSegment| (kpcl_k(s) || kpcl_l(s) || (kpcl_p(s) && kpcl_c(s))) && (s.pos & POS_ADJ_NO) != 0,
            |s: KaniLiteSegment| seq_sets_meet(seq![1469800i32], s.seq_set@),
            "no-adjective",
            " ",
            15i32,
        ),
{
    let score: i32 = 15;
    let seqs_r: [i32; 1] = [1469800];
    assert(seqs_r@ =~= seq![1469800i32]);
    let kt_l = |k: bool, p: bool, c: bool, l: bool| -> (t: bool)
        ensures
            t == (k || l || (p && c)),
        { k || l || (p && c) };
    let ghost gkt_l = kt_l;
    let fl = filter_is_pos(POS_ADJ_NO, kt_l);
    let fr = filter_in_seq_set(seqs_r.as_slice());
    let ghost gfl = fl;
    let ghost gfr = fr;
    let res = def_generic_synergy_body(
        l,
        r,
        fl,
        fr,
        &DefGenericSynergyOpts { description: Some("no-adjective"), connector: " ", score },
    );
    proof {
        assert forall|s: &Arc<KaniLiteSegment>, b: bool| gfl.ensures((s,), b) implies b == ((kpcl_k(**s) || kpcl_l(**s) || (kpcl_p(**s) && kpcl_c(**s))) && (s.pos & POS_ADJ_NO) != 0) by {
            let t = choose|t: bool| #[trigger] gkt_l.ensures((kpcl_k(**s), kpcl_p(**s), kpcl_c(**s), kpcl_l(**s)), t) && b == (t && (s.pos & POS_ADJ_NO) != 0);
        }
        lemma_synergy_from_filters(
            res@,
            *l,
            *r,
            gfl,
            gfr,
            |s: KaniLiteSegment| (kpcl_k(s) || kpcl_l(s) || (kpcl_p(s) && kpcl_c(s))) && (s.pos & POS_ADJ_NO) != 0,
            |s: KaniLiteSegment| seq_sets_meet(seq![1469800i32], s.seq_set@),
            "no-adjective",
            " ",
            score,
        );
    }
    res
}

/// Binds an adj-na word on the left to な/に on the right.
pub fn synergy_na_adjectives(l: &KaniLiteSegmentList, r: &KaniLiteSegmentList) -> (res: Vec<(Arc<KaniLiteSegmentList>, Synergy, Arc<KaniLiteSegmentList>)>)
    ensures
        synergy_spec(
            res@,
            *l,
            *r,
            |s: KaniLiteSegment| (kpcl_k(s) || kpcl_l(s) || (kpcl_p(s) && kpcl_c(s))) && (s.pos & POS_ADJ_NA) != 0,
            |s: KaniLiteSegment| seq_sets_meet(seq![2029110i32, 2028990i32], s.seq_set@),
            "na-adjective",
            " ",
            15i32,
        ),
{
    let score: i32 = 15;
    let seqs_r: [i32; 2] = [2029110, 2028990];
    assert(seqs_r@ =~= seq![2029110i32, 2028990i32]);
    let kt_l = |k: bool, p: bool, c: bool, l: bool| -> (t: bool)
        ensures
            t == (k || l || (p && c)),
        { k || l || (p && c) };
    let ghost gkt_l = kt_l;
    let fl = filter_is_pos(POS_ADJ_NA, kt_l);
    let fr = filter_in_seq_set(seqs_r.as_slice());
    let ghost gfl = fl;
    let ghost gfr = fr;
    let res = def_generic_synergy_body(
        l,
        r,
        fl,
        fr,
        &DefGenericSynergyOpts { description: Some("na-adjective"), connector: " ", score },
    );
    proof {
        assert forall|s: &Arc<KaniLiteSegment>, b: bool| gfl.ensures((s,), b) implies b == ((kpcl_k(**s) || kpcl_l(**s) || (kpcl_p(**s) && kpcl_c(**s))) && (s.pos & POS_ADJ_NA) != 0) by {
            let t = choose|t: bool| #[trigger] gkt_l.ensures((kpcl_k(**s), kpcl_p(**s), kpcl_c(**s), kpcl_l(**s)), t) && b == (t && (s.pos & POS_ADJ_NA) != 0);
        }
        lemma_synergy_from_filters(
            res@,
            *l,
            *r,
            gfl,
            gfr,
            |s: KaniLiteSegment| (kpcl_k(s) || kpcl_l(s) || (kpcl_p(s) && kpcl_c(s))) && (s.pos & POS_ADJ_NA) != 0,
            |s: KaniLiteSegment| seq_sets_meet(seq![2029110i32, 2028990i32], s.seq_set@),
            "na-adjective",
            " ",
            score,
        );
    }
    res
}

/// Binds an adv-to word on the left to と on the right, scoring 10 plus 10 per character of the adverb.
pub fn synergy_to_adverbs(l: &KaniLiteSegmentList, r: &KaniLiteSegmentList) -> (res: Vec<(Arc<KaniLiteSegmentList>, Synergy, Arc<KaniLiteSegmentList>)>)
    requires
        l.start <= l.end,
        l.end - l.start <= 214748363,
    ensures
        synergy_spec(
            res@,
            *l,
            *r,
            |s: KaniLiteSegment| (kpcl_k(s) || kpcl_l(s) || kpcl_p(s)) && (s.pos & POS_ADV_TO) != 0,
            |s: KaniLiteSegment| seq_sets_meet(seq![1008490i32], s.seq_set@),
            "to-adverb",
            " ",
            (10 + 10 * (l.end - l.start)) as i32,
        ),
{
    let span = l.end - l.start;
    let score: i32 = 10 + 10 * (span as i32);
    let seqs_r: [i32; 1] = [1008490];
    assert(seqs_r@ =~= seq![1008490i32]);
    let kt_l = |k: bool, p: bool, c: bool, l: bool| -> (t: bool)
        ensures
            t == (k || l || p),
        { k || l || p };
    let ghost gkt_l = kt_l;
    let fl = filter_is_pos(POS_ADV_TO, kt_l);
    let fr = filter_in_seq_set(seqs_r.as_slice());
    let ghost gfl = fl;
    let ghost gfr = fr;
    let res = def_generic_synergy_body(
        l,
        r,
        fl,
        fr,
        &DefGenericSynergyOpts { description: Some("to-adverb"), connector: " ", score },
    );
    proof {
        assert forall|s: &Arc<KaniLiteSegment>, b: bool| gfl.ensures((s,), b) implies b == ((kpcl_k(**s) || kpcl_l(**s) || kpcl_p(**s)) && (s.pos & POS_ADV_TO) != 0) by {
            let t = choose|t: bool| #[trigger] gkt_l.ensures((kpcl_k(**s), kpcl_p(**s), kpcl_c(**s), kpcl_l(**s)), t) && b == (t && (s.pos & POS_ADV_TO) != 0);
        }
        lemma_synergy_from_filters(
            res@,
            *l,
            *r,
            gfl,
            gfr,
            |s: KaniLiteSegment| (kpcl_k(s) || kpcl_l(s) || kpcl_p(s)) && (s.pos & POS_ADV_TO) != 0,
            |s: KaniLiteSegment| seq_sets_meet(seq![1008490i32], s.seq_set@),
            "to-adverb",
            " ",
            score,
        );
    }
    res
}

/// Binds a noun on the left to 中 on the right.
pub fn synergy_suffix_chu(l: &KaniLiteSegmentList, r: &KaniLiteSegmentList) -> (res: Vec<(Arc<KaniLiteSegmentList>, Synergy, Arc<KaniLiteSegmentList>)>)
    ensures
        synergy_spec(
            res@,
            *l,
            *r,
            |s: KaniLiteSegment| spec_is_noun(s),
            |s: KaniLiteSegment| seq_sets_meet(seq![1620400i32, 2083570i32], s.seq_set@),
            "suffix-chu",
            "-",
            12i32,
        ),
{
    let score: i32 = 12;
    let seqs_r: [i32; 2] = [1620400, 2083570];
    assert(seqs_r@ =~= seq![1620400i32, 2083570i32]);
    let fl = filter_is_noun;
    let fr = filter_in_seq_set(seqs_r.as_slice());
    let ghost gfl = fl;
    let ghost gfr = fr;
    let res = def_generic_synergy_body(
        l,
        r,
        fl,
        fr,
        &DefGenericSynergyOpts { description: Some("suffix-chu"), connector: "-", score },
    );
    proof {
        lemma_synergy_from_filters(
            res@,
            *l,
            *r,
            gfl,
            gfr,
            |s: KaniLiteSegment| spec_is_noun(s),
            |s: KaniLiteSegment| seq_sets_meet(seq![1620400i32, 2083570i32], s.seq_set@),
            "suffix-chu",
            "-",
            score,
        );
    }
    res
}

/// Binds a noun on the left to the 達 suffix on the right.
pub fn synergy_suffix_tachi(l: &KaniLiteSegmentList, r: &KaniLiteSegmentList) -> (res: Vec<(Arc<KaniLiteSegmentList>, Synergy, Arc<KaniLiteSegmentList>)>)
    ensures
        synergy_spec(
            res@,
            *l,
            *r,
            |s: KaniLiteSegment| spec_is_noun(s),
            |s: KaniLiteSegment| seq_sets_meet(seq![1416220i32], s.seq_set@),
            "suffix-tachi",
            "-",
            10i32,
        ),
{
    let score: i32 = 10;
    let seqs_r: [i32; 1] = [1416220];
    assert(seqs_r@ =~= seq![1416220i32]);
    let fl = filter_is_noun;
    let fr = filter_in_seq_set(seqs_r.as_slice());
    let ghost gfl = fl;
    let ghost gfr = fr;
    let res = def_generic_synergy_body(
        l,
        r,
        fl,
        fr,
        &DefGenericSynergyOpts { description: Some("suffix-tachi"), connector: "-", score },
    );
    proof {
        lemma_synergy_from_filters(
            res@,
            *l,
            *r,
            gfl,
            gfr,
            |s: KaniLiteSegment| spec_is_noun(s),
            |s: KaniLiteSegment| seq_sets_meet(seq![1416220i32], s.seq_set@),
            "suffix-tachi",
            "-",
            score,
        );
    }
    res
}

/// Binds a noun on the left to ぶり on the right.
pub fn synergy_suffix_buri(l: &KaniLiteSegmentList, r: &KaniLiteSegmentList) -> (res: Vec<(Arc<KaniLiteSegmentList>, Synergy, Arc<KaniLiteSegmentList>)>)
    ensures
        synergy_spec(
            res@,
            *l,
            *r,
            |s: KaniLiteSegment| spec_is_noun(s),
            |s: KaniLiteSegment| seq_sets_meet(seq![1361140i32], s.seq_set@),
            "suffix-buri",
            "",
            40i32,
        ),
{
    let score: i32 = 40;
    let seqs_r: [i32; 1] = [1361140];
    assert(seqs_r@ =~= seq![1361140i32]);
    let fl = filter_is_noun;
    let fr = filter_in_seq_set(seqs_r.as_slice());
    let ghost gfl = fl;
    let ghost gfr = fr;
    let res = def_generic_synergy_body(
        l,
        r,
        fl,
        fr,
        &DefGenericSynergyOpts { description: Some("suffix-buri"), connector: "", score },
    );
    proof {
        lemma_synergy_from_filters(
            res@,
            *l,
            *r,
            gfl,
            gfr,
            |s: KaniLiteSegment| spec_is_noun(s),
            |s: KaniLiteSegment| seq_sets_meet(seq![1361140i32], s.seq_set@),
            "suffix-buri",
            "",
            score,
        );
    }
    res
}

/// Binds a noun on the left to the 性 suffix on the right.
pub fn synergy_suffix_sei(l: &KaniLiteSegmentList, r: &KaniLiteSegmentList) -> (res: Vec<(Arc<KaniLiteSegmentList>, Synergy, Arc<KaniLiteSegmentList>)>)
    ensures
        synergy_spec(
            res@,
            *l,
            *r,
            |s: KaniLiteSegment| spec_is_noun(s),
            |s: KaniLiteSegment| seq_sets_meet(seq![1375260i32], s.seq_set@),
            "suffix-sei",
            "",
            12i32,
        ),
{
    let score: i32 = 12;
    let seqs_r: [i32; 1] = [1375260];
    assert(seqs_r@ =~= seq![1375260i32]);
    let fl = filter_is_noun;
    let fr = filter_in_seq_set(seqs_r.as_slice());
    let ghost gfl = fl;
    let ghost gfr = fr;
    let res = def_generic_synergy_body(
        l,
        r,
        fl,
        fr,
        &DefGenericSynergyOpts { description: Some("suffix-sei"), connector: "", score },
    );
    proof {
        lemma_synergy_from_filters(
            res@,
            *l,
            *r,
            gfl,
            gfr,
            |s: KaniLiteSegment| spec_is_noun(s),
            |s: KaniLiteSegment| seq_sets_meet(seq![1375260i32], s.seq_set@),
            "suffix-sei",
            "",
            score,
        );
    }
    res
}

/// Binds the honorific お on the left to a noun on the right.
pub fn synergy_o_prefix(l: &KaniLiteSegmentList, r: &KaniLiteSegmentList) -> (res: Vec<(Arc<KaniLiteSegmentList>, Synergy, Arc<KaniLiteSegmentList>)>)
    ensures
        synergy_spec(
            res@,
            *l,
            *r,
            |s: KaniLiteSegment| seq_sets_meet(seq![1270190i32], s.seq_set@),
            |s: KaniLiteSegment| (kpcl_k(s) || kpcl_l(s)) && (s.pos & POS_N) != 0,
            "o+noun",
            "",
            10i32,
        ),
{
    let score: i32 = 10;
    let seqs_l: [i32; 1] = [1270190];
    assert(seqs_l@ =~= seq![1270190i32]);
    let fl = filter_in_seq_set(seqs_l.as_slice());
    let kt_r = |k: bool, p: bool, c: bool, l: bool| -> (t: bool)
        ensures
            t == (k || l),
        { k || l };
    let ghost gkt_r = kt_r;
    let fr = filter_is_pos(POS_N, kt_r);
    let ghost gfl = fl;
    let ghost gfr = fr;
    let res = def_generic_synergy_body(
        l,
        r,
        fl,
        fr,
        &DefGenericSynergyOpts { description: Some("o+noun"), connector: "", score },
    );
    proof {
        assert forall|s: &Arc<KaniLiteSegment>, b: bool| gfr.ensures((s,), b) implies b == ((kpcl_k(**s) || kpcl_l(**s)) && (s.pos & POS_N) != 0) by {
            let t = choose|t: bool| #[trigger] gkt_r.ensures((kpcl_k(**s), kpcl_p(**s), kpcl_c(**s), kpcl_l(**s)), t) && b == (t && (s.pos & POS_N) != 0);
        }
        lemma_synergy_from_filters(
            res@,
            *l,
            *r,
            gfl,
            gfr,
            |s: KaniLiteSegment| seq_sets_meet(seq![1270190i32], s.seq_set@),
            |s: KaniLiteSegment| (kpcl_k(s) || kpcl_l(s)) && (s.pos & POS_N) != 0,
            "o+noun",
            "",
            score,
        );
    }
    res
}

/// Binds a kanji prefix (未/不) on the left to a noun on the right.
pub fn synergy_kanji_prefix(l: &KaniLiteSegmentList, r: &KaniLiteSegmentList) -> (res: Vec<(Arc<KaniLiteSegmentList>, Synergy, Arc<KaniLiteSegmentList>)>)
    ensures
        synergy_spec(
            res@,
            *l,
            *r,
            |s: KaniLiteSegment| seq_sets_meet(seq![2242840i32, 1922780i32, 2423740i32], s.seq_set@),
            |s: KaniLiteSegment| (kpcl_k(s)) && (s.pos & POS_N) != 0,
            "kanji prefix+noun",
            "",
            15i32,
        ),
{
    let score: i32 = 15;
    let seqs_l: [i32; 3] = [2242840, 1922780, 2423740];
    assert(seqs_l@ =~= seq![2242840i32, 1922780i32, 2423740i32]);
    let fl = filter_in_seq_set(seqs_l.as_slice());
    let kt_r = |k: bool, p: bool, c: bool, l: bool| -> (t: bool)
        ensures
            t == (k),
        { k };
    let ghost gkt_r = kt_r;
    let fr = filter_is_pos(POS_N, kt_r);
    let ghost gfl = fl;
    let ghost gfr = fr;
    let res = def_generic_synergy_body(
        l,
        r,
        fl,
        fr,
        &DefGenericSynergyOpts { description: Some("kanji prefix+noun"), connector: "", score },
    );
    proof {
        assert forall|s: &Arc<KaniLiteSegment>, b: bool| gfr.ensures((s,), b) implies b == ((kpcl_k(**s)) && (s.pos & POS_N) != 0) by {
            let t = choose|t: bool| #[trigger] gkt_r.ensures((kpcl_k(**s), kpcl_p(**s), kpcl_c(**s), kpcl_l(**s)), t) && b == (t && (s.pos & POS_N) != 0);
        }
        lemma_synergy_from_filters(
            res@,
            *l,
            *r,
            gfl,
            gfr,
            |s: KaniLiteSegment| seq_sets_meet(seq![2242840i32, 1922780i32, 2423740i32], s.seq_set@),
            |s: KaniLiteSegment| (kpcl_k(s)) && (s.pos & POS_N) != 0,
            "kanji prefix+noun",
            "",
            score,
        );
    }
    res
}

/// Binds a compound ending in は on the left to いけない/いけません/だめ/いかん/いや on the right.
pub fn synergy_shicha_ikenai(l: &KaniLiteSegmentList, r: &KaniLiteSegmentList) -> (res: Vec<(Arc<KaniLiteSegmentList>, Synergy, Arc<KaniLiteSegmentList>)>)
    ensures
        synergy_spec(
            res@,
            *l,
            *r,
            |s: KaniLiteSegment| (s.compound_end_seq matches Some(e) && seq![2028920i32].contains(e)),
            |s: KaniLiteSegment| seq_sets_meet(seq![1000730i32, 1612750i32, 1409110i32, 2829697i32, 1587610i32], s.seq_set@),
            "shicha ikenai",
            " ",
            50i32,
        ),
{
    let score: i32 = 50;
    let seqs_l: [i32; 1] = [2028920];
    assert(seqs_l@ =~= seq![2028920i32]);
    let seqs_r: [i32; 5] = [1000730, 1612750, 1409110, 2829697, 1587610];
    assert(seqs_r@ =~= seq![1000730i32, 1612750i32, 1409110i32, 2829697i32, 1587610i32]);
    let fl = filter_is_compound_end(seqs_l.as_slice());
    let fr = filter_in_seq_set(seqs_r.as_slice());
    let ghost gfl = fl;
    let ghost gfr = fr;
    let res = def_generic_synergy_body(
        l,
        r,
        fl,
        fr,
        &DefGenericSynergyOpts { description: Some("shicha ikenai"), connector: " ", score },
    );
    proof {
        lemma_synergy_from_filters(
            res@,
            *l,
            *r,
            gfl,
            gfr,
            |s: KaniLiteSegment| (s.compound_end_seq matches Some(e) && seq![2028920i32].contains(e)),
            |s: KaniLiteSegment| seq_sets_meet(seq![1000730i32, 1612750i32, 1409110i32, 2829697i32, 1587610i32], s.seq_set@),
            "shicha ikenai",
            " ",
            score,
        );
    }
    res
}

/// Binds しか on the left to a segment with a negated conjugation on the right.
pub fn synergy_shika_negative(l: &KaniLiteSegmentList, r: &KaniLiteSegmentList) -> (res: Vec<(Arc<KaniLiteSegmentList>, Synergy, Arc<KaniLiteSegmentList>)>)
    ensures
        synergy_spec(
            res@,
            *l,
            *r,
            |s: KaniLiteSegment| seq_sets_meet(seq![1005460i32], s.seq_set@),
            |s: KaniLiteSegment| s.conj_has_neg,
            "shika+neg",
            " ",
            50i32,
        ),
{
    let score: i32 = 50;
    let seqs_l: [i32; 1] = [1005460];
    assert(seqs_l@ =~= seq![1005460i32]);
    let fl = filter_in_seq_set(seqs_l.as_slice());
    let fr = |s: &Arc<KaniLiteSegment>| -> (b: bool)
        ensures
            b == s.conj_has_neg,
        { s.conj_has_neg };
    let ghost gfl = fl;
    let ghost gfr = fr;
    let res = def_generic_synergy_body(
        l,
        r,
        fl,
        fr,
        &DefGenericSynergyOpts { description: Some("shika+neg"), connector: " ", score },
    );
    proof {
        lemma_synergy_from_filters(
            res@,
            *l,
            *r,
            gfl,
            gfr,
            |s: KaniLiteSegment| seq_sets_meet(seq![1005460i32], s.seq_set@),
            |s: KaniLiteSegment| s.conj_has_neg,
            "shika+neg",
            " ",
            score,
        );
    }
    res
}

/// A split of a segment list into a right and a left part, with the
/// synergy between them when there is one.
#[derive(Debug, Clone)]
pub enum KaniSegSplitEnum {
    Plain { right: Arc<KaniLiteSegmentList>, left: Arc<KaniLiteSegmentList> },
    WithSynergy { right: Arc<KaniLiteSegmentList>, synergy: Synergy, left: Arc<KaniLiteSegmentList> },
}

/// A synergy found between two segment lists sits at their junction: at
/// most one is found, only when the lists abut, with non-empty sides, and
/// it starts and ends where the left list ends.
pub proof fn law_synergy_at_junction(
    res: Seq<(Arc<KaniLiteSegmentList>, Synergy, Arc<KaniLiteSegmentList>)>,
    l: KaniLiteSegmentList,
    r: KaniLiteSegmentList,
    pl: spec_fn(KaniLiteSegment) -> bool,
    pr: spec_fn(KaniLiteSegment) -> bool,
    description: &str,
    connector: &str,
    score: i32,
)
    requires
        synergy_spec(res, l, r, pl, pr, description, connector, score),
    ensures
        res.len() <= 1,
        res.len() == 1 ==> {
            &&& l.end == r.start
            &&& res[0].1.start == l.end
            &&& res[0].1.end == l.end
            &&& res[0].0.segments@.len() > 0
            &&& res[0].2.segments@.len() > 0
        },
{
}

} // verus!
