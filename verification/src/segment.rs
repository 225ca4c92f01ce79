//! Segmentation records and their lite mirrors used by the best-path
//! search: per-segment predicate inputs precomputed once, segment lists,
//! the bounded score-ordered top array, and persistent path lists.

use std::sync::Arc;
use vstd::prelude::*;
use crate::synergy::Synergy;
use crate::text::str_eq;
use crate::word::KaniWordDispatchEnum;

verus! {

/// Shares an `Arc` (std's `Arc::clone`): the result points to the same
/// allocation, so it holds the same value.
#[verifier::external_body]
pub(crate) fn share<T>(a: &Arc<T>) -> (r: Arc<T>)
    ensures
        r == *a,
{
    Arc::clone(a)
}

/// Conjugation properties of one conjugated form.
#[derive(Debug, Clone)]
pub struct ConjProp {
    pub id: i32,
    pub conj_id: i32,
    pub pos: String,
    pub conj_type: i32,
    /// `None` stands for a database NULL, which counts as set (truthy).
    pub neg: Option<bool>,
    pub fml: Option<bool>,
}

/// How a conjugated form was derived, and its properties.
#[derive(Debug, Clone)]
pub struct ConjData {
    pub seq: Option<i32>,
    pub from: Option<i32>,
    pub via: Option<i32>,
    pub prop: Option<ConjProp>,
    pub src_map: Vec<(String, String)>,
}

/// Which kind of split contributed to a segment's score.
#[derive(Debug, Clone, Copy, PartialEq, Eq, Structural)]
pub enum KaniSplitInfo {
    Unsplit,
    Split,
    SegSplit,
}

/// The scoring details recorded for a segment.
#[derive(Debug, Clone)]
pub struct KaniScoreInfo {
    pub prop_score: i32,
    pub kanji_break: Vec<usize>,
    pub use_length_bonus: i32,
    pub split_info: KaniSplitInfo,
}

/// Information gathered about a segment while scoring it.
#[derive(Debug)]
pub struct KaniSegmentInfo {
    /// Parts of speech of the word.
    pub posi: Vec<String>,
    /// Every seq the word stands for.
    pub seq_set: Vec<i32>,
    pub conj: Vec<ConjData>,
    pub common: Option<i32>,
    pub score_info: KaniScoreInfo,
    /// (kanji-or-katakana, primary, common, long).
    pub kpcl: (bool, bool, bool, bool),
}

/// One candidate word spanning `start..end` of the sentence.
#[derive(Debug)]
pub struct Segment {
    pub start: usize,
    pub end: usize,
    pub word: KaniWordDispatchEnum,
    pub score: Option<i32>,
    pub info: Option<KaniSegmentInfo>,
    pub top: Option<Arc<TopArray>>,
    /// Display text overriding the word's own text.
    pub text: Option<String>,
}

/// All candidate segments over one span.
#[derive(Debug)]
pub struct SegmentList {
    pub segments: Vec<Arc<Segment>>,
    pub start: usize,
    pub end: usize,
    pub top: Option<Arc<TopArray>>,
    pub matches: usize,
}

/// A step of a full path: a segment list or the synergy joining two.
#[derive(Debug)]
pub enum PathElement {
    SegmentList(Arc<SegmentList>),
    Synergy(Synergy),
}

/// A scored full path.
#[derive(Debug)]
pub struct TopArrayItem {
    pub score: i32,
    pub payload: Vec<PathElement>,
}

/// The best full paths found so far, in score order.
#[derive(Debug)]
pub struct TopArray {
    pub array: Vec<Option<TopArrayItem>>,
    pub count: usize,
}

/// kpcl bit: kanji-or-katakana.
pub const KPCL_K: u8 = 1u8;
/// kpcl bit: primary reading.
pub const KPCL_P: u8 = 2u8;
/// kpcl bit: common word.
pub const KPCL_C: u8 = 4u8;
/// kpcl bit: long word.
pub const KPCL_L: u8 = 8u8;

/// Part-of-speech bit for `n`.
pub const POS_N: u16 = 1u16;
/// Part-of-speech bit for `n-adv`.
pub const POS_N_ADV: u16 = 2u16;
/// Part-of-speech bit for `n-t`.
pub const POS_N_T: u16 = 4u16;
/// Part-of-speech bit for `adj-na`.
pub const POS_ADJ_NA: u16 = 8u16;
/// Part-of-speech bit for `n-suf`.
pub const POS_N_SUF: u16 = 16u16;
/// Part-of-speech bit for `pn`.
pub const POS_PN: u16 = 32u16;
/// Part-of-speech bit for `adj-no`.
pub const POS_ADJ_NO: u16 = 64u16;
/// Part-of-speech bit for `ctr`.
pub const POS_CTR: u16 = 128u16;
/// Part-of-speech bit for `adv-to`.
pub const POS_ADV_TO: u16 = 256u16;
/// The noun parts of speech: n, n-adv, n-t, adj-na, n-suf and pn.
pub const POS_NOUN: u16 = 63u16;

/// The bit of a part-of-speech tag (0 for tags no predicate tests).
pub open spec fn pos_bit(tag: Seq<char>) -> u16 {
    if tag == "n"@ {
        POS_N
    } else if tag == "n-adv"@ {
        POS_N_ADV
    } else if tag == "n-t"@ {
        POS_N_T
    } else if tag == "adj-na"@ {
        POS_ADJ_NA
    } else if tag == "n-suf"@ {
        POS_N_SUF
    } else if tag == "pn"@ {
        POS_PN
    } else if tag == "adj-no"@ {
        POS_ADJ_NO
    } else if tag == "ctr"@ {
        POS_CTR
    } else if tag == "adv-to"@ {
        POS_ADV_TO
    } else {
        0u16
    }
}

/// The union of the bits of all tags.
pub open spec fn pos_mask(posi: Seq<String>) -> u16
    decreases posi.len(),
{
    if posi.len() == 0 {
        0u16
    } else {
        pos_mask(posi.drop_last()) | pos_bit(posi.last()@)
    }
}

/// The kpcl quad packed into bits.
pub open spec fn kpcl_bits(kpcl: (bool, bool, bool, bool)) -> u8 {
    (if kpcl.0 { KPCL_K } else { 0u8 }) | (if kpcl.1 { KPCL_P } else { 0u8 }) | (if kpcl.2 {
        KPCL_C
    } else {
        0u8
    }) | (if kpcl.3 { KPCL_L } else { 0u8 })
}

/// The conjugation types of the conjugation records that have properties.
pub open spec fn conj_types_of(conj: Seq<ConjData>) -> Seq<i32>
    decreases conj.len(),
{
    if conj.len() == 0 {
        Seq::empty()
    } else {
        let prev = conj_types_of(conj.drop_last());
        match conj.last().prop {
            Some(p) => prev.push(p.conj_type),
            None => prev,
        }
    }
}

/// A conjugation record is negated (a NULL negation counts as set).
pub open spec fn conj_is_neg(c: ConjData) -> bool {
    c.prop matches Some(p) && p.neg != Some(false)
}

/// Some conjugation record is negated.
pub open spec fn conj_has_neg_of(conj: Seq<ConjData>) -> bool {
    exists|i: int| 0 <= i < conj.len() && #[trigger] conj_is_neg(conj[i])
}

/// Predicate inputs precomputed from one segment.
#[derive(Debug)]
pub struct KaniLiteSegment {
    pub source: Arc<Segment>,
    pub score: Option<i32>,
    pub seq_set: Vec<i32>,
    pub conj_types: Vec<i32>,
    pub conj_has_neg: bool,
    pub kpcl: u8,
    pub pos: u16,
    pub has_simple_seq: bool,
    pub is_counter: bool,
    pub compound_end_seq: Option<i32>,
    pub compound_end_text: Option<String>,
    pub text: String,
}

/// The seq of the last part of a compound word, when it has a single seq.
pub open spec fn compound_end_seq_of(w: KaniWordDispatchEnum) -> Option<i32> {
    match w {
        KaniWordDispatchEnum::Compound(c) => if c.words@.len() > 0 {
            c.words@.last().spec_single_seq()
        } else {
            None
        },
        _ => None,
    }
}

/// The text of the last part of a compound word.
pub open spec fn compound_end_text_of(w: KaniWordDispatchEnum) -> Option<Seq<char>> {
    match w {
        KaniWordDispatchEnum::Compound(c) => if c.words@.len() > 0 {
            Some(c.words@.last().spec_text())
        } else {
            None
        },
        _ => None,
    }
}

/// The display text of a segment: its override text, else its word's text.
pub open spec fn segment_text_of(s: Segment) -> Seq<char> {
    match s.text {
        Some(t) => t@,
        None => s.word.spec_text(),
    }
}

/// A lite segment holds exactly the predicate inputs of `s`.
pub open spec fn lite_matches(r: KaniLiteSegment, s: Segment) -> bool {
    &&& r.score == s.score
    &&& r.seq_set@ == (match s.info {
        Some(info) => info.seq_set@,
        None => Seq::empty(),
    })
    &&& r.conj_types@ == (match s.info {
        Some(info) => conj_types_of(info.conj@),
        None => Seq::empty(),
    })
    &&& r.conj_has_neg == (match s.info {
        Some(info) => conj_has_neg_of(info.conj@),
        None => false,
    })
    &&& r.kpcl == (match s.info {
        Some(info) => kpcl_bits(info.kpcl),
        None => 0u8,
    })
    &&& r.pos == (match s.info {
        Some(info) => pos_mask(info.posi@),
        None => 0u16,
    })
    &&& r.has_simple_seq == s.word.spec_single_seq() is Some
    &&& r.is_counter == s.word is Counter
    &&& r.compound_end_seq == compound_end_seq_of(s.word)
    &&& (match (r.compound_end_text, compound_end_text_of(s.word)) {
        (Some(a), Some(b)) => a@ == b,
        (None, None) => true,
        _ => false,
    })
    &&& r.text@ == segment_text_of(s)
}

fn pos_bit_exec(tag: &String) -> (b: u16)
    ensures
        b == pos_bit(tag@),
{
    let t = tag.as_str();
    if str_eq(t, "n") {
        POS_N
    } else if str_eq(t, "n-adv") {
        POS_N_ADV
    } else if str_eq(t, "n-t") {
        POS_N_T
    } else if str_eq(t, "adj-na") {
        POS_ADJ_NA
    } else if str_eq(t, "n-suf") {
        POS_N_SUF
    } else if str_eq(t, "pn") {
        POS_PN
    } else if str_eq(t, "adj-no") {
        POS_ADJ_NO
    } else if str_eq(t, "ctr") {
        POS_CTR
    } else if str_eq(t, "adv-to") {
        POS_ADV_TO
    } else {
        0
    }
}

fn pos_mask_exec(posi: &Vec<String>) -> (m: u16)
    ensures
        m == pos_mask(posi@),
{
    let mut m: u16 = 0;
    let mut i: usize = 0;
    while i < posi.len()
        invariant
            i <= posi@.len(),
            m == pos_mask(posi@.subrange(0, i as int)),
        decreases posi@.len() - i,
    {
        assert(posi@.subrange(0, i + 1).drop_last() =~= posi@.subrange(0, i as int));
        m = m | pos_bit_exec(&posi[i]);
        i = i + 1;
    }
    assert(posi@.subrange(0, posi@.len() as int) =~= posi@);
    m
}

fn conj_types_exec(conj: &Vec<ConjData>) -> (r: Vec<i32>)
    ensures
        r@ == conj_types_of(conj@),
{
    let mut r: Vec<i32> = Vec::new();
    let mut i: usize = 0;
    while i < conj.len()
        invariant
            i <= conj@.len(),
            r@ == conj_types_of(conj@.subrange(0, i as int)),
        decreases conj@.len() - i,
    {
        assert(conj@.subrange(0, i + 1).drop_last() =~= conj@.subrange(0, i as int));
        match &conj[i].prop {
            Some(p) => r.push(p.conj_type),
            None => {},
        }
        i = i + 1;
    }
    assert(conj@.subrange(0, conj@.len() as int) =~= conj@);
    r
}

fn conj_has_neg_exec(conj: &Vec<ConjData>) -> (r: bool)
    ensures
        r == conj_has_neg_of(conj@),
{
    let mut i: usize = 0;
    while i < conj.len()
        invariant
            i <= conj@.len(),
            forall|j: int|
                0 <= j < i ==> !conj_is_neg(#[trigger] conj@[j]),
        decreases conj@.len() - i,
    {
        match &conj[i].prop {
            Some(p) => {
                if p.neg != Some(false) {
                    assert(conj_is_neg(conj@[i as int]));
                    return true;
                }
            },
            None => {},
        }
        i = i + 1;
    }
    false
}

fn kpcl_bits_exec(kpcl: (bool, bool, bool, bool)) -> (b: u8)
    ensures
        b == kpcl_bits(kpcl),
{
    let (k, p, c, l) = kpcl;
    (if k { KPCL_K } else { 0 }) | (if p { KPCL_P } else { 0 }) | (if c { KPCL_C } else { 0 }) | (
    if l {
        KPCL_L
    } else {
        0
    })
}

fn copy_i32_vec(v: &Vec<i32>) -> (r: Vec<i32>)
    ensures
        r@ == v@,
{
    let mut r: Vec<i32> = Vec::new();
    let mut i: usize = 0;
    while i < v.len()
        invariant
            i <= v@.len(),
            r@ == v@.subrange(0, i as int),
        decreases v@.len() - i,
    {
        r.push(v[i]);
        i = i + 1;
    }
    assert(r@ =~= v@);
    r
}

impl KaniLiteSegment {
    /// Precomputes the predicate inputs of `source`, sharing the source.
    pub fn from_segment(source: Arc<Segment>) -> (r: Self)
        ensures
            r.source == source,
            lite_matches(r, *source),
    {
        let score = source.score;
        let (seq_set, conj_types, conj_has_neg, kpcl, pos) = match &source.info {
            Some(info) => (
                copy_i32_vec(&info.seq_set),
                conj_types_exec(&info.conj),
                conj_has_neg_exec(&info.conj),
                kpcl_bits_exec(info.kpcl),
                pos_mask_exec(&info.posi),
            ),
            None => (Vec::new(), Vec::new(), false, 0, 0),
        };
        let has_simple_seq = source.word.has_simple_seq();
        let is_counter = match &source.word {
            KaniWordDispatchEnum::Counter(_) => true,
            _ => false,
        };
        let (compound_end_seq, compound_end_text) = match &source.word {
            KaniWordDispatchEnum::Compound(c) => {
                if c.words.len() > 0 {
                    let last = &c.words[c.words.len() - 1];
                    (last.single_seq(), Some(last.text().to_owned()))
                } else {
                    (None, None)
                }
            },
            _ => (None, None),
        };
        let text: String = match &source.text {
            Some(t) => t.clone(),
            None => source.word.text().to_owned(),
        };
        KaniLiteSegment {
            source,
            score,
            seq_set,
            conj_types,
            conj_has_neg,
            kpcl,
            pos,
            has_simple_seq,
            is_counter,
            compound_end_seq,
            compound_end_text,
            text,
        }
    }
}

/// Lite mirror of a segment list.
#[derive(Debug)]
pub struct KaniLiteSegmentList {
    pub start: usize,
    pub end: usize,
    pub matches: usize,
    pub segments: Vec<Arc<KaniLiteSegment>>,
    pub top: Option<Arc<KaniLiteTopArray>>,
}

/// `r` is the lite list of `source`: same span and match count, no top
/// array, one lite segment per segment in order, each sharing and
/// mirroring its source segment.
pub open spec fn lite_list_of(r: KaniLiteSegmentList, source: SegmentList) -> bool {
    &&& r.start == source.start
    &&& r.end == source.end
    &&& r.matches == source.matches
    &&& r.top is None
    &&& r.segments@.len() == source.segments@.len()
    &&& forall|i: int|
        0 <= i < r.segments@.len() ==> (#[trigger] r.segments@[i]).source == source.segments@[i]
            && lite_matches(*r.segments@[i], *source.segments@[i])
}

/// `r` is the full list of `lite`: same span and match count, no top
/// array, the source segment of each lite segment in order.
pub open spec fn full_list_of(r: SegmentList, lite: KaniLiteSegmentList) -> bool {
    &&& r.start == lite.start
    &&& r.end == lite.end
    &&& r.matches == lite.matches
    &&& r.top is None
    &&& r.segments@.len() == lite.segments@.len()
    &&& forall|i: int| 0 <= i < r.segments@.len() ==> r.segments@[i] == lite.segments@[i].source
}

/// Going to the lite list and back gives the same segments over the same
/// span with the same match count.
pub proof fn law_lite_round_trip(source: SegmentList, lite: KaniLiteSegmentList, back: SegmentList)
    requires
        lite_list_of(lite, source),
        full_list_of(back, lite),
    ensures
        back.segments@ == source.segments@,
        back.start == source.start,
        back.end == source.end,
        back.matches == source.matches,
{
    assert(back.segments@ =~= source.segments@);
}

impl KaniLiteSegmentList {
    /// Builds the lite list of `source`: one lite segment per segment, in
    /// order, each sharing its source segment; no top array yet.
    pub fn from_segment_list(source: &SegmentList) -> (r: Self)
        ensures
            lite_list_of(r, *source),
    {
        let mut segments: Vec<Arc<KaniLiteSegment>> = Vec::new();
        let mut i: usize = 0;
        while i < source.segments.len()
            invariant
                i <= source.segments@.len(),
                segments@.len() == i,
                forall|j: int|
                    0 <= j < i ==> (#[trigger] segments@[j]).source == source.segments@[j]
                        && lite_matches(*segments@[j], *source.segments@[j]),
            decreases source.segments@.len() - i,
        {
            let s = share(&source.segments[i]);
            segments.push(Arc::new(KaniLiteSegment::from_segment(s)));
            i = i + 1;
        }
        KaniLiteSegmentList {
            start: source.start,
            end: source.end,
            matches: source.matches,
            segments,
            top: None,
        }
    }

    /// The full segment list again: the same segments, no top array.
    pub fn to_segment_list(&self) -> (r: SegmentList)
        ensures
            full_list_of(r, *self),
    {
        let mut segments: Vec<Arc<Segment>> = Vec::new();
        let mut i: usize = 0;
        while i < self.segments.len()
            invariant
                i <= self.segments@.len(),
                segments@.len() == i,
                forall|j: int| 0 <= j < i ==> segments@[j] == self.segments@[j].source,
            decreases self.segments@.len() - i,
        {
            segments.push(share(&self.segments[i].source));
            i = i + 1;
        }
        SegmentList { segments, start: self.start, end: self.end, top: None, matches: self.matches }
    }
}

/// A lite list over `segments` that keeps `old`'s span, match count and top
/// array.
pub fn make_kani_lite_segment_list_from(
    old: &KaniLiteSegmentList,
    segments: Vec<Arc<KaniLiteSegment>>,
) -> (r: KaniLiteSegmentList)
    ensures
        r.segments == segments,
        r.start == old.start,
        r.end == old.end,
        r.matches == old.matches,
        r.top == old.top,
{
    let top = match &old.top {
        Some(t) => Some(share(t)),
        None => None,
    };
    KaniLiteSegmentList { segments, start: old.start, end: old.end, top, matches: old.matches }
}

/// A scored candidate path of lite elements.
#[derive(Debug, Clone)]
pub struct KaniLiteTopArrayItem {
    pub score: i32,
    pub payload: KaniLitePath,
}

/// A step of a lite path: a segment list, or the synergy between two.
#[derive(Debug)]
pub enum KaniLitePathElement {
    SegmentList(Arc<KaniLiteSegmentList>),
    Synergy(Synergy),
}

/// A persistent list of path elements, head first; extending a path
/// shares its tail with the path it extended.
#[derive(Debug, Clone)]
pub struct KaniLitePath(Option<Arc<KaniLitePathNode>>);

/// One cell of a [`KaniLitePath`].
#[derive(Debug)]
pub struct KaniLitePathNode {
    elem: KaniLitePathElement,
    next: KaniLitePath,
}

impl KaniLitePath {
    /// The elements of the path, head first.
    pub closed spec fn elems(&self) -> Seq<&KaniLitePathElement>
        decreases *self,
    {
        match self.0 {
            None => Seq::empty(),
            Some(node) => seq![&node.elem] + node.next.elems(),
        }
    }

    /// The empty path.
    pub fn nil() -> (r: Self)
        ensures
            r.elems() == Seq::<&KaniLitePathElement>::empty(),
    {
        KaniLitePath(None)
    }

    /// `elem` prepended to `tail`, sharing `tail`.
    pub fn cons(elem: KaniLitePathElement, tail: &KaniLitePath) -> (r: Self)
        ensures
            r.elems() == seq![&elem] + tail.elems(),
    {
        let next = tail.share_path();
        KaniLitePath(Some(Arc::new(KaniLitePathNode { elem, next })))
    }

    fn share_path(&self) -> (r: Self)
        ensures
            r == *self,
    {
        match &self.0 {
            Some(node) => KaniLitePath(Some(share(node))),
            None => KaniLitePath(None),
        }
    }

    /// Whether the path has no element.
    pub fn is_empty(&self) -> (r: bool)
        ensures
            r == (self.elems().len() == 0),
    {
        match &self.0 {
            None => true,
            Some(_) => false,
        }
    }

    /// The most recently prepended element.
    pub fn head(&self) -> (r: Option<&KaniLitePathElement>)
        ensures
            self.elems().len() == 0 ==> r is None,
            self.elems().len() > 0 ==> r == Some(self.elems()[0]),
    {
        match &self.0 {
            None => None,
            Some(node) => Some(&node.elem),
        }
    }

    /// The path after its head (the empty path stays empty).
    pub fn tail(&self) -> (r: KaniLitePath)
        ensures
            self.elems().len() == 0 ==> r.elems().len() == 0,
            self.elems().len() > 0 ==> r.elems() == self.elems().drop_first(),
    {
        match &self.0 {
            Some(node) => {
                let r = node.next.share_path();
                assert(self.elems().drop_first() =~= node.next.elems());
                r
            },
            None => KaniLitePath(None),
        }
    }

    /// A cursor over the elements, head first.
    pub fn iter(&self) -> (r: KaniLitePathIter<'_>)
        ensures
            r.remaining() == self.elems(),
    {
        let next: Option<&KaniLitePathNode> = match &self.0 {
            Some(node) => Some(&**node),
            None => None,
        };
        KaniLitePathIter { next }
    }
}

/// A cursor over a path's elements, head first.
pub struct KaniLitePathIter<'a> {
    next: Option<&'a KaniLitePathNode>,
}

impl<'a> KaniLitePathIter<'a> {
    /// The elements the cursor has yet to yield.
    pub closed spec fn remaining(&self) -> Seq<&'a KaniLitePathElement> {
        match self.next {
            None => Seq::empty(),
            Some(node) => seq![&node.elem] + node.next.elems(),
        }
    }

    /// Yields the next element, if any.
    pub fn next(&mut self) -> (r: Option<&'a KaniLitePathElement>)
        ensures
            old(self).remaining().len() == 0 ==> r is None && final(self).remaining().len() == 0,
            old(self).remaining().len() > 0 ==> r == Some(old(self).remaining()[0])
                && final(self).remaining() == old(self).remaining().drop_first(),
    {
        match self.next {
            None => None,
            Some(node) => {
                self.next = match &node.next.0 {
                    Some(n) => Some(&**n),
                    None => None,
                };
                assert(old(self).remaining().drop_first() =~= node.next.elems());
                Some(&node.elem)
            },
        }
    }
}

/// The bounded array of the best lite paths, highest score first.
#[derive(Debug, Clone)]
pub struct KaniLiteTopArray {
    pub array: Vec<Option<KaniLiteTopArrayItem>>,
    /// How many items were ever registered (may exceed the capacity).
    pub count: usize,
}

impl KaniLiteTopArray {
    /// An empty array that keeps at most `limit` items.
    pub fn new(limit: usize) -> (r: Self)
        ensures
            r.count == 0,
            r.array@.len() == limit,
            forall|i: int| 0 <= i < limit ==> r.array@[i] is None,
    {
        let mut array: Vec<Option<KaniLiteTopArrayItem>> = Vec::new();
        let mut i: usize = 0;
        while i < limit
            invariant
                i <= limit,
                array@.len() == i,
                forall|j: int| 0 <= j < i ==> array@[j] is None,
            decreases limit - i,
        {
            array.push(None);
            i = i + 1;
        }
        KaniLiteTopArray { array, count: 0 }
    }
}

/// Number of slots an array of capacity `len` has filled after `count`
/// registrations.
pub open spec fn used_len(count: int, len: int) -> int {
    if count < len {
        count
    } else {
        len
    }
}

/// Where a new item with `score` lands when scanning down from `idx`: it
/// stops below the first occupied slot whose score is at least `score`.
pub open spec fn scan_index(arr: Seq<Option<KaniLiteTopArrayItem>>, idx: int, score: i32) -> int
    decreases idx,
{
    if idx <= 0 {
        0
    } else if arr[idx - 1] is None || arr[idx - 1].unwrap().score >= score {
        idx
    } else {
        scan_index(arr, idx - 1, score)
    }
}

/// The array after inserting `item` at `k`, shifting the slots `k..start`
/// one place up (the slot at the end of the array falls off).
pub open spec fn shifted_insert(
    arr: Seq<Option<KaniLiteTopArrayItem>>,
    k: int,
    start: int,
    item: KaniLiteTopArrayItem,
) -> Seq<Option<KaniLiteTopArrayItem>> {
    Seq::new(
        arr.len(),
        |i: int|
            if i < k || i > start {
                arr[i]
            } else if i == k {
                Some(item)
            } else {
                arr[i - 1]
            },
    )
}

proof fn lemma_scan_index_bounds(arr: Seq<Option<KaniLiteTopArrayItem>>, idx: int, score: i32)
    requires
        0 <= idx,
    ensures
        0 <= scan_index(arr, idx, score) <= idx,
    decreases idx,
{
    if idx > 0 {
        lemma_scan_index_bounds(arr, idx - 1, score);
    }
}

/// Registers a scored path: insertion into the score-ordered array, after
/// every item of equal or higher score; an item that falls past the
/// capacity is dropped. The registration count always grows by one.
pub fn kani_lite_register_item(obj: &mut KaniLiteTopArray, score: i32, payload: KaniLitePath)
    requires
        old(obj).count < usize::MAX,
    ensures
        final(obj).count == old(obj).count + 1,
        final(obj).array@ == shifted_insert(
            old(obj).array@,
            scan_index(
                old(obj).array@,
                used_len(old(obj).count as int, old(obj).array@.len() as int),
                score,
            ),
            used_len(old(obj).count as int, old(obj).array@.len() as int),
            KaniLiteTopArrayItem { score, payload },
        ),
{
    let ghost arr0 = obj.array@;
    let ghost item0 = KaniLiteTopArrayItem { score, payload };
    let mut item: Option<KaniLiteTopArrayItem> = Some(KaniLiteTopArrayItem { score, payload });
    let len = obj.array.len();
    let start = if obj.count < len {
        obj.count
    } else {
        len
    };
    let ghost k = scan_index(arr0, start as int, score);
    proof {
        lemma_scan_index_bounds(arr0, start as int, score);
    }
    let mut idx = start;
    loop
        invariant_except_break
            item == Some(item0),
            // slots above idx already hold their final values; idx - 1 and
            // below are untouched
            forall|i: int|
                0 <= i < len ==> #[trigger] obj.array@[i] == if i < idx {
                    arr0[i]
                } else if i == idx {
                    if (idx as int) < len {
                        obj.array@[i]
                    } else {
                        arr0[i]
                    }
                } else if i > start {
                    arr0[i]
                } else {
                    arr0[i - 1]
                },
            (idx as int) < (start as int) ==> idx < len,
            idx == start ==> obj.array@ == arr0,
        invariant
            len == arr0.len(),
            obj.array@.len() == len,
            start <= len,
            start == used_len(old(obj).count as int, len as int),
            arr0 == old(obj).array@,
            obj.count == old(obj).count,
            k == scan_index(arr0, start as int, score),
            k <= idx <= start,
            scan_index(arr0, idx as int, score) == k,
        ensures
            idx == k,
            obj.array@ == shifted_insert(arr0, k, start as int, item0),
            obj.count == old(obj).count,
        decreases idx,
    {
        let done = if idx > 0 {
            match &obj.array[idx - 1] {
                Some(prev) => prev.score >= score,
                None => true,
            }
        } else {
            true
        };
        if done {
            assert(scan_index(arr0, idx as int, score) == idx) by {
                if idx > 0 {
                    assert(obj.array@[idx - 1] == arr0[idx - 1]);
                }
            }
            if idx < len {
                let it = item.take();
                obj.array.set(idx, it);
            }
            assert(obj.array@ =~= shifted_insert(arr0, k, start as int, item0));
            break;
        }
        assert(obj.array@[idx - 1] == arr0[idx - 1]);
        proof {
            lemma_scan_index_bounds(arr0, idx - 1, score);
            assert(scan_index(arr0, idx as int, score) == scan_index(arr0, idx - 1, score));
        }
        if idx < len {
            let mut prev: Option<KaniLiteTopArrayItem> = None;
            obj.array.set_and_swap(idx - 1, &mut prev);
            obj.array.set(idx, prev);
        }
        idx = idx - 1;
    }
    obj.count = obj.count + 1;
}

/// The filled slots of the array: the first `min(count, capacity)`.
pub fn kani_lite_get_array(top: &KaniLiteTopArray) -> (r: &[Option<KaniLiteTopArrayItem>])
    ensures
        r@ == top.array@.subrange(0, used_len(top.count as int, top.array@.len() as int)),
{
    let used = if top.count < top.array.len() {
        top.count
    } else {
        top.array.len()
    };
    &top.array.as_slice()[0..used]
}

/// The filled slots of a top array come first, hold items, and go from the
/// highest score down; the rest are empty.
pub open spec fn top_sorted(arr: Seq<Option<KaniLiteTopArrayItem>>, count: int) -> bool {
    let used = used_len(count, arr.len() as int);
    &&& forall|i: int| 0 <= i < used ==> #[trigger] arr[i] is Some
    &&& forall|i: int| used <= i < arr.len() ==> #[trigger] arr[i] is None
    &&& forall|i: int, j: int|
        0 <= i < j < used ==> (#[trigger] arr[i]).unwrap().score >= (#[trigger] arr[j]).unwrap().score
}

proof fn lemma_scan_splits(arr: Seq<Option<KaniLiteTopArrayItem>>, count: int, idx: int, score: i32)
    requires
        top_sorted(arr, count),
        0 <= idx <= used_len(count, arr.len() as int),
        count >= 0,
    ensures
        forall|i: int| 0 <= i < scan_index(arr, idx, score) ==> (#[trigger] arr[i]).unwrap().score >= score,
        forall|i: int| scan_index(arr, idx, score) <= i < idx ==> (#[trigger] arr[i]).unwrap().score < score,
    decreases idx,
{
    if idx > 0 {
        assert(arr[idx - 1] is Some);
        if arr[idx - 1].unwrap().score >= score {
            assert forall|i: int| 0 <= i < idx implies (#[trigger] arr[i]).unwrap().score >= score by {
                if i < idx - 1 {
                    assert(arr[i].unwrap().score >= arr[idx - 1].unwrap().score);
                }
            }
        } else {
            lemma_scan_splits(arr, count, idx - 1, score);
        }
    }
}

/// Registering an item keeps a top array sorted: the filled slots stay in
/// front, the scores go down, and one more slot is filled until the array
/// is full.
pub proof fn law_register_keeps_sorted(arr: Seq<Option<KaniLiteTopArrayItem>>, count: int, item: KaniLiteTopArrayItem)
    requires
        count >= 0,
        top_sorted(arr, count),
    ensures
        top_sorted(
            shifted_insert(
                arr,
                scan_index(arr, used_len(count, arr.len() as int), item.score),
                used_len(count, arr.len() as int),
                item,
            ),
            count + 1,
        ),
{
    let used = used_len(count, arr.len() as int);
    let k = scan_index(arr, used, item.score);
    lemma_scan_index_bounds(arr, used, item.score);
    lemma_scan_splits(arr, count, used, item.score);
    let n = shifted_insert(arr, k, used, item);
    let used2 = used_len(count + 1, arr.len() as int);
    assert forall|i: int| 0 <= i < used2 implies #[trigger] n[i] is Some by {
        if i > k && i <= used {
            assert(arr[i - 1] is Some);
        }
    }
    assert forall|i: int| used2 <= i < arr.len() implies #[trigger] n[i] is None by {
        assert(i > used);
    }
    assert forall|i: int, j: int| 0 <= i < j < used2 implies (#[trigger] n[i]).unwrap().score >= (#[trigger] n[j]).unwrap().score by {
        if i < k {
            if j < k {
                assert(arr[i].unwrap().score >= arr[j].unwrap().score);
            } else if j == k {
            } else {
                assert(arr[j - 1].unwrap().score < item.score);
            }
        } else if i == k {
            assert(arr[j - 1].unwrap().score < item.score);
        } else {
            assert(arr[i - 1].unwrap().score >= arr[j - 1].unwrap().score);
        }
    }
}

/// A new top array is sorted.
pub proof fn law_new_top_array_sorted(arr: Seq<Option<KaniLiteTopArrayItem>>)
    requires
        forall|i: int| 0 <= i < arr.len() ==> #[trigger] arr[i] is None,
    ensures
        top_sorted(arr, 0),
{
}

/// Where a stable descending insertion puts an item with `score`: after
/// the trailing run of items of lower score, that is (in a list sorted
/// from the highest score down) after every item of equal or higher score.
pub open spec fn ins_pos(s: Seq<KaniLiteTopArrayItem>, score: i32) -> int
    decreases s.len(),
{
    if s.len() == 0 {
        0
    } else if s.last().score >= score {
        s.len() as int
    } else {
        ins_pos(s.drop_last(), score)
    }
}

/// `item` inserted into `s` after every item of equal or higher score.
pub open spec fn stable_insert(s: Seq<KaniLiteTopArrayItem>, item: KaniLiteTopArrayItem) -> Seq<KaniLiteTopArrayItem> {
    let p = ins_pos(s, item.score);
    s.take(p) + seq![item] + s.skip(p)
}

/// The registrations `regs` stably sorted from the highest score down:
/// items of equal score keep the order they were registered in.
pub open spec fn stable_sort_desc(regs: Seq<KaniLiteTopArrayItem>) -> Seq<KaniLiteTopArrayItem>
    decreases regs.len(),
{
    if regs.len() == 0 {
        Seq::empty()
    } else {
        stable_insert(stable_sort_desc(regs.drop_last()), regs.last())
    }
}

/// Scores go down (not strictly) along `s`.
pub open spec fn sorted_desc(s: Seq<KaniLiteTopArrayItem>) -> bool {
    forall|i: int, j: int| 0 <= i < j < s.len() ==> (#[trigger] s[i]).score >= (#[trigger] s[j]).score
}

/// A top array holds the registrations `regs`: its filled slots are the
/// first items of their stable descending sort, and the rest are empty.
pub open spec fn holds_top(arr: Seq<Option<KaniLiteTopArrayItem>>, regs: Seq<KaniLiteTopArrayItem>) -> bool {
    let used = used_len(regs.len() as int, arr.len() as int);
    &&& forall|i: int| 0 <= i < used ==> #[trigger] arr[i] == Some(stable_sort_desc(regs)[i])
    &&& forall|i: int| used <= i < arr.len() ==> #[trigger] arr[i] is None
}

proof fn lemma_ins_pos_split(s: Seq<KaniLiteTopArrayItem>, score: i32)
    requires
        sorted_desc(s),
    ensures
        0 <= ins_pos(s, score) <= s.len(),
        forall|i: int| 0 <= i < ins_pos(s, score) ==> (#[trigger] s[i]).score >= score,
        forall|i: int| ins_pos(s, score) <= i < s.len() ==> (#[trigger] s[i]).score < score,
    decreases s.len(),
{
    if s.len() > 0 {
        if s.last().score >= score {
            assert forall|i: int| 0 <= i < s.len() implies (#[trigger] s[i]).score >= score by {
                if i < s.len() - 1 {
                    assert(s[i].score >= s[s.len() - 1].score);
                }
            }
        } else {
            let d = s.drop_last();
            assert(sorted_desc(d)) by {
                assert forall|i: int, j: int| 0 <= i < j < d.len() implies (#[trigger] d[i]).score >= (#[trigger] d[j]).score by {
                    assert(d[i] == s[i] && d[j] == s[j]);
                }
            }
            lemma_ins_pos_split(d, score);
            assert forall|i: int| 0 <= i < ins_pos(s, score) implies (#[trigger] s[i]).score >= score by {
                assert(d[i] == s[i]);
            }
            assert forall|i: int| ins_pos(s, score) <= i < s.len() implies (#[trigger] s[i]).score < score by {
                if i < s.len() - 1 {
                    assert(d[i] == s[i]);
                }
            }
        }
    }
}

proof fn lemma_split_unique(s: Seq<KaniLiteTopArrayItem>, score: i32, p: int, q: int)
    requires
        0 <= p <= s.len(),
        0 <= q <= s.len(),
        forall|i: int| 0 <= i < p ==> (#[trigger] s[i]).score >= score,
        forall|i: int| p <= i < s.len() ==> (#[trigger] s[i]).score < score,
        forall|i: int| 0 <= i < q ==> (#[trigger] s[i]).score >= score,
        forall|i: int| q <= i < s.len() ==> (#[trigger] s[i]).score < score,
    ensures
        p == q,
{
    if p < q {
        assert(s[p].score >= score);
    } else if q < p {
        assert(s[q].score >= score);
    }
}

proof fn lemma_stable_insert(s: Seq<KaniLiteTopArrayItem>, item: KaniLiteTopArrayItem)
    requires
        sorted_desc(s),
    ensures
        stable_insert(s, item).len() == s.len() + 1,
        sorted_desc(stable_insert(s, item)),
        forall|i: int| 0 <= i < ins_pos(s, item.score) ==> #[trigger] stable_insert(s, item)[i] == s[i],
        stable_insert(s, item)[ins_pos(s, item.score)] == item,
        forall|i: int| ins_pos(s, item.score) < i <= s.len() ==> #[trigger] stable_insert(s, item)[i] == s[i - 1],
{
    lemma_ins_pos_split(s, item.score);
    let p = ins_pos(s, item.score);
    let r = stable_insert(s, item);
    assert(r.len() == s.len() + 1);
    assert forall|i: int| 0 <= i < p implies #[trigger] r[i] == s[i] by {}
    assert(r[p] == item);
    assert forall|i: int| p < i <= s.len() implies #[trigger] r[i] == s[i - 1] by {}
    assert forall|i: int, j: int| 0 <= i < j < r.len() implies (#[trigger] r[i]).score >= (#[trigger] r[j]).score by {
        if i < p {
            if j < p {
                assert(s[i].score >= s[j].score);
            } else if j > p {
                assert(s[i].score >= s[j - 1].score);
            }
        } else if i == p {
            assert(s[j - 1].score < item.score);
        } else {
            assert(s[i - 1].score >= s[j - 1].score);
        }
    }
}

proof fn lemma_sort_sorted(regs: Seq<KaniLiteTopArrayItem>)
    ensures
        sorted_desc(stable_sort_desc(regs)),
        stable_sort_desc(regs).len() == regs.len(),
    decreases regs.len(),
{
    if regs.len() > 0 {
        lemma_sort_sorted(regs.drop_last());
        lemma_stable_insert(stable_sort_desc(regs.drop_last()), regs.last());
    }
}

proof fn lemma_scan_is_ins_pos(arr: Seq<Option<KaniLiteTopArrayItem>>, s: Seq<KaniLiteTopArrayItem>, j: int, score: i32)
    requires
        0 <= j <= s.len(),
        j <= arr.len(),
        forall|i: int| 0 <= i < j ==> #[trigger] arr[i] == Some(s[i]),
    ensures
        scan_index(arr, j, score) == ins_pos(s.take(j), score),
    decreases j,
{
    if j > 0 {
        assert(s.take(j).last() == s[j - 1]);
        assert(s.take(j).drop_last() =~= s.take(j - 1));
        lemma_scan_is_ins_pos(arr, s, j - 1, score);
    }
}

/// Registering items one by one keeps the first items of their stable sort
/// by descending score: after the registrations `regs`, the filled slots
/// of the array are the first `min(regs.len(), capacity)` of
/// `stable_sort_desc(regs)` (items of equal score in registration order;
/// once the array is full, an item not strictly above the last one is
/// dropped), and the other slots are empty.
pub proof fn law_register_keeps_stable_top(
    arr: Seq<Option<KaniLiteTopArrayItem>>,
    regs: Seq<KaniLiteTopArrayItem>,
    item: KaniLiteTopArrayItem,
)
    requires
        holds_top(arr, regs),
    ensures
        holds_top(
            shifted_insert(
                arr,
                scan_index(arr, used_len(regs.len() as int, arr.len() as int), item.score),
                used_len(regs.len() as int, arr.len() as int),
                item,
            ),
            regs.push(item),
        ),
{
    let m = regs.len() as int;
    let k = arr.len() as int;
    let used = used_len(m, k);
    let s = stable_sort_desc(regs);
    lemma_sort_sorted(regs);
    assert(regs.push(item).drop_last() =~= regs);
    assert(regs.push(item).last() == item);
    let s2 = stable_sort_desc(regs.push(item));
    assert(s2 == stable_insert(s, item));
    lemma_stable_insert(s, item);
    lemma_ins_pos_split(s, item.score);
    let big_p = ins_pos(s, item.score);
    lemma_scan_is_ins_pos(arr, s, used, item.score);
    let p = scan_index(arr, used, item.score);
    // The position within the filled slots is the stable position, capped
    // at the filled length.
    let t = s.take(used);
    assert(sorted_desc(t)) by {
        assert forall|i: int, j: int| 0 <= i < j < t.len() implies (#[trigger] t[i]).score >= (#[trigger] t[j]).score by {
            assert(t[i] == s[i] && t[j] == s[j]);
        }
    }
    lemma_ins_pos_split(t, item.score);
    let cap = if big_p < used { big_p } else { used };
    assert forall|i: int| 0 <= i < cap implies (#[trigger] t[i]).score >= item.score by {
        assert(t[i] == s[i]);
    }
    assert forall|i: int| cap <= i < t.len() implies (#[trigger] t[i]).score < item.score by {
        assert(t[i] == s[i]);
    }
    lemma_split_unique(t, item.score, ins_pos(t, item.score), cap);
    assert(p == cap);
    let n = shifted_insert(arr, p, used, item);
    let used2 = used_len(m + 1, k);
    assert forall|i: int| 0 <= i < used2 implies #[trigger] n[i] == Some(s2[i]) by {
        if i < p {
            assert(n[i] == arr[i]);
            assert(s2[i] == s[i]);
        } else if i == p {
            assert(p == big_p);
        } else {
            assert(i <= used);
            assert(n[i] == arr[i - 1]);
            assert(p == big_p);
            assert(s2[i] == s[i - 1]);
        }
    }
    assert forall|i: int| used2 <= i < n.len() implies #[trigger] n[i] is None by {
        assert(i > used);
        assert(n[i] == arr[i]);
    }
}

/// A new top array holds no registrations.
pub proof fn law_new_top_holds_nothing(arr: Seq<Option<KaniLiteTopArrayItem>>)
    requires
        forall|i: int| 0 <= i < arr.len() ==> #[trigger] arr[i] is None,
    ensures
        holds_top(arr, Seq::empty()),
{
}

/// Some tag of `posi` is `tag`.
pub open spec fn has_pos_tag(posi: Seq<String>, tag: Seq<char>) -> bool {
    exists|i: int| 0 <= i < posi.len() && (#[trigger] posi[i])@ == tag
}

/// The part-of-speech tags the lite predicates test, each with its own bit.
pub open spec fn tested_tag_bit(tag: Seq<char>, bit: u16) -> bool {
    ||| tag == "n"@ && bit == 1u16
    ||| tag == "n-adv"@ && bit == 2u16
    ||| tag == "n-t"@ && bit == 4u16
    ||| tag == "adj-na"@ && bit == 8u16
    ||| tag == "n-suf"@ && bit == 16u16
    ||| tag == "pn"@ && bit == 32u16
    ||| tag == "adj-no"@ && bit == 64u16
    ||| tag == "ctr"@ && bit == 128u16
    ||| tag == "adv-to"@ && bit == 256u16
}

proof fn lemma_single_bits(v: u16, b: u16)
    requires
        v == 0 || v == 1 || v == 2 || v == 4 || v == 8 || v == 16 || v == 32 || v == 64 || v == 128 || v == 256,
        b == 1 || b == 2 || b == 4 || b == 8 || b == 16 || b == 32 || b == 64 || b == 128 || b == 256,
    ensures
        (v & b != 0) == (v == b),
{
    assert((v == 0 || v == 1 || v == 2 || v == 4 || v == 8 || v == 16 || v == 32 || v == 64 || v == 128 || v == 256)
        && (b == 1 || b == 2 || b == 4 || b == 8 || b == 16 || b == 32 || b == 64 || b == 128 || b == 256)
        ==> ((v & b != 0) == (v == b))) by (bit_vector);
}

proof fn lemma_tag_literals()
    ensures
        pos_bit("n"@) == 1u16,
        pos_bit("n-adv"@) == 2u16,
        pos_bit("n-t"@) == 4u16,
        pos_bit("adj-na"@) == 8u16,
        pos_bit("n-suf"@) == 16u16,
        pos_bit("pn"@) == 32u16,
        pos_bit("adj-no"@) == 64u16,
        pos_bit("ctr"@) == 128u16,
        pos_bit("adv-to"@) == 256u16,
{
    reveal_strlit("n");
    reveal_strlit("n-adv");
    reveal_strlit("n-t");
    reveal_strlit("adj-na");
    reveal_strlit("n-suf");
    reveal_strlit("pn");
    reveal_strlit("adj-no");
    reveal_strlit("ctr");
    reveal_strlit("adv-to");
    assert("n"@.len() == 1);
    assert("n-adv"@.len() == 5);
    assert("n-t"@.len() == 3);
    assert("adj-na"@.len() == 6);
    assert("n-suf"@.len() == 5);
    assert("pn"@.len() == 2);
    assert("adj-no"@.len() == 6);
    assert("ctr"@.len() == 3);
    assert("adv-to"@.len() == 6);
    assert("n-adv"@[2] != "n-suf"@[2]);
    assert("n-t"@[0] != "ctr"@[0]);
    assert("adj-na"@[5] != "adj-no"@[5]);
    assert("adj-na"@[2] != "adv-to"@[2]);
    assert("adj-no"@[2] != "adv-to"@[2]);
}

proof fn lemma_pos_bit_is(tag: Seq<char>, t: Seq<char>, b: u16)
    requires
        tested_tag_bit(t, b),
    ensures
        (pos_bit(tag) & b != 0) == (tag == t),
{
    lemma_tag_literals();
    lemma_single_bits(pos_bit(tag), b);
    assert(pos_bit(t) == b);
    if pos_bit(tag) == b {
        assert(tag == t);
    }
}

/// The part-of-speech mask of a segment has the bit of each tested tag
/// (n 1, n-adv 2, n-t 4, adj-na 8, n-suf 16, pn 32, adj-no 64, ctr 128,
/// adv-to 256) exactly when one of its tags is that tag.
pub proof fn law_pos_mask_bits(posi: Seq<String>, tag: Seq<char>, bit: u16)
    requires
        tested_tag_bit(tag, bit),
    ensures
        (pos_mask(posi) & bit != 0) == has_pos_tag(posi, tag),
    decreases posi.len(),
{
    if posi.len() == 0 {
        assert(0u16 & bit == 0) by (bit_vector);
    } else {
        let prev = posi.drop_last();
        law_pos_mask_bits(prev, tag, bit);
        lemma_pos_bit_is(posi.last()@, tag, bit);
        let a = pos_mask(prev);
        let c = pos_bit(posi.last()@);
        assert(((a | c) & bit != 0) == ((a & bit != 0) || (c & bit != 0))) by (bit_vector);
        if has_pos_tag(posi, tag) {
            let i = choose|i: int| 0 <= i < posi.len() && (#[trigger] posi[i])@ == tag;
            if i < posi.len() - 1 {
                assert(prev[i] == posi[i]);
            }
        }
        if has_pos_tag(prev, tag) {
            let i = choose|i: int| 0 <= i < prev.len() && (#[trigger] prev[i])@ == tag;
            assert(posi[i] == prev[i]);
        }
    }
}

/// A lite segment's part-of-speech bits are those of its source's tags:
/// for a segment with information, the bit of each tested tag is set
/// exactly when the segment has that tag (a pronoun, tagged pn, gets
/// bit 32 and so counts as a noun); without information no bit is set.
pub proof fn law_lite_pos_bits(lite: KaniLiteSegment, source: Segment, tag: Seq<char>, bit: u16)
    requires
        lite_matches(lite, source),
        tested_tag_bit(tag, bit),
    ensures
        (lite.pos & bit != 0) == match source.info {
            Some(info) => has_pos_tag(info.posi@, tag),
            None => false,
        },
        (lite.pos & 63u16 != 0) == match source.info {
            Some(info) => has_pos_tag(info.posi@, "n"@) || has_pos_tag(info.posi@, "n-adv"@) || has_pos_tag(
                info.posi@,
                "n-t"@,
            ) || has_pos_tag(info.posi@, "adj-na"@) || has_pos_tag(info.posi@, "n-suf"@) || has_pos_tag(
                info.posi@,
                "pn"@,
            ),
            None => false,
        },
{
    match source.info {
        Some(info) => {
            let m = pos_mask(info.posi@);
            law_pos_mask_bits(info.posi@, tag, bit);
            law_pos_mask_bits(info.posi@, "n"@, 1u16);
            law_pos_mask_bits(info.posi@, "n-adv"@, 2u16);
            law_pos_mask_bits(info.posi@, "n-t"@, 4u16);
            law_pos_mask_bits(info.posi@, "adj-na"@, 8u16);
            law_pos_mask_bits(info.posi@, "n-suf"@, 16u16);
            law_pos_mask_bits(info.posi@, "pn"@, 32u16);
            assert((m & 63u16 != 0) == ((m & 1u16 != 0) || (m & 2u16 != 0) || (m & 4u16 != 0) || (m & 8u16 != 0)
                || (m & 16u16 != 0) || (m & 32u16 != 0))) by (bit_vector);
        },
        None => {
            assert(0u16 & bit == 0) by (bit_vector);
            assert(0u16 & 63u16 == 0) by (bit_vector);
        },
    }
}

/// The kpcl bits of a lite segment (kanji-or-katakana 1, primary 2, common
/// 4, long 8) are those of its source: kanji (or
/// katakana), primary, common and long each read back exactly as the
/// source's quad gives them, and all are off without information.
pub proof fn law_lite_kpcl(lite: KaniLiteSegment, source: Segment)
    requires
        lite_matches(lite, source),
    ensures
        ((lite.kpcl & 1u8) != 0) == (source.info matches Some(i) && i.kpcl.0),
        ((lite.kpcl & 2u8) != 0) == (source.info matches Some(i) && i.kpcl.1),
        ((lite.kpcl & 4u8) != 0) == (source.info matches Some(i) && i.kpcl.2),
        ((lite.kpcl & 8u8) != 0) == (source.info matches Some(i) && i.kpcl.3),
{
    match source.info {
        Some(info) => {
            let (k, p, c, l) = info.kpcl;
            let a: u8 = if k { 1u8 } else { 0u8 };
            let b: u8 = if p { 2u8 } else { 0u8 };
            let d: u8 = if c { 4u8 } else { 0u8 };
            let e: u8 = if l { 8u8 } else { 0u8 };
            assert((a == 0 || a == 1) && (b == 0 || b == 2) && (d == 0 || d == 4) && (e == 0 || e == 8) ==> {
                &&& (((a | b | d | e) & 1u8) != 0) == (a == 1)
                &&& (((a | b | d | e) & 2u8) != 0) == (b == 2)
                &&& (((a | b | d | e) & 4u8) != 0) == (d == 4)
                &&& (((a | b | d | e) & 8u8) != 0) == (e == 8)
            }) by (bit_vector);
        },
        None => {
            assert((0u8 & 1u8) == 0 && (0u8 & 2u8) == 0 && (0u8 & 4u8) == 0 && (0u8 & 8u8) == 0) by (bit_vector);
        },
    }
}

/// Taking the head and the tail of a path built by `cons` gives back the
/// element and the path it was put in front of: on such a path, `head`
/// returns `elem` and `tail` returns a path with the elements of `tail`.
pub proof fn law_cons_head_tail(elem: &KaniLitePathElement, tail: KaniLitePath, path: KaniLitePath)
    requires
        path.elems() == seq![elem] + tail.elems(),
    ensures
        path.elems().len() > 0,
        path.elems()[0] == elem,
        path.elems().drop_first() == tail.elems(),
{
    assert(path.elems().drop_first() =~= tail.elems());
}

} // verus!
