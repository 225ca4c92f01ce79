use std::sync::Arc;
use kaniran_core::segment::{ConjData, KaniLiteSegmentList, KaniScoreInfo, KaniSegmentInfo, KaniSplitInfo, Segment, SegmentList};
use kaniran_core::synergy::{synergy_to_adverbs};
use kaniran_core::word::{KanaText, KaniWordDispatchEnum, SimpleText};

fn dummy_word() -> KaniWordDispatchEnum {
    KaniWordDispatchEnum::Kana(KanaText {
        id: 0,
        seq: 0,
        text: String::new(),
        ord: 0,
        common: None,
        common_tags: String::new(),
        conjugate_p: false,
        nokanji: false,
        best_kanji: None,
        state: SimpleText::default(),
    })
}

fn seg(kpcl: (bool, bool, bool, bool), posi: Vec<&str>, seq_set: Vec<i32>) -> Segment {
    Segment {
        start: 0,
        end: 1,
        word: dummy_word(),
        score: None,
        info: Some(KaniSegmentInfo {
            posi: posi.into_iter().map(String::from).collect(),
            seq_set,
            conj: vec![] as Vec<ConjData>,
            common: None,
            score_info: KaniScoreInfo {
                prop_score: 0,
                kanji_break: vec![],
                use_length_bonus: 0,
                split_info: KaniSplitInfo::Unsplit,
            },
            kpcl,
        }),
        top: None,
        text: None,
    }
}

fn lite_sl_owned(start: usize, end: usize, segments: Vec<Segment>) -> KaniLiteSegmentList {
    KaniLiteSegmentList::from_segment_list(&SegmentList {
        segments: segments.into_iter().map(Arc::new).collect(),
        start,
        end,
        top: None,
        matches: 0,
    })
}

#[test]
fn positive_k_span2() {
    // to-adv/positive-k: l adv-to k=true span=2 -> score = 10 + 10*2 = 30.
    // RIGHT-SL start=2 end=3 segs=1, SYNERGY desc="to-adverb"
    // conn=" " score=30 start=2 end=2, LEFT-SL start=0 end=2 segs=1.
    let l = lite_sl_owned(
        0,
        2,
        vec![seg((true, false, false, false), vec!["adv-to"], vec![])],
    );
    let r = lite_sl_owned(
        2,
        3,
        vec![seg((false, false, false, false), vec![], vec![1008490])],
    );
    let got = synergy_to_adverbs(&l, &r);
    assert_eq!(got.len(), 1);
    let (right_sl, syn, left_sl) = &got[0];
    assert_eq!(right_sl.start, 2);
    assert_eq!(right_sl.end, 3);
    assert_eq!(right_sl.segments.len(), 1);
    assert_eq!(syn.description.as_deref(), Some("to-adverb"));
    assert_eq!(syn.connector.as_deref(), Some(" "));
    assert_eq!(syn.score, 30);
    assert_eq!(syn.start, 2);
    assert_eq!(syn.end, 2);
    assert_eq!(left_sl.start, 0);
    assert_eq!(left_sl.end, 2);
    assert_eq!(left_sl.segments.len(), 1);
}

#[test]
fn positive_l_span1() {
    // to-adv/positive-l: l=true span=1 -> score = 20.
    let l = lite_sl_owned(
        0,
        1,
        vec![seg((false, false, false, true), vec!["adv-to"], vec![])],
    );
    let r = lite_sl_owned(
        1,
        2,
        vec![seg((false, false, false, false), vec![], vec![1008490])],
    );
    let got = synergy_to_adverbs(&l, &r);
    assert_eq!(got.len(), 1);
    assert_eq!(got[0].1.score, 20);
    assert_eq!(got[0].1.start, 1);
    assert_eq!(got[0].1.end, 1);
}

#[test]
fn positive_p_alone_span3() {
    // to-adv/positive-p-alone: p=true c=false span=3 -> score = 40. Bare
    // `p` is the divergence vs synergy-no-adjectives / synergy-na-
    // adjectives whose kpcl-test is `(or k l (and p c))`.
    let l = lite_sl_owned(
        0,
        3,
        vec![seg((false, true, false, false), vec!["adv-to"], vec![])],
    );
    let r = lite_sl_owned(
        3,
        4,
        vec![seg((false, false, false, false), vec![], vec![1008490])],
    );
    let got = synergy_to_adverbs(&l, &r);
    assert_eq!(got.len(), 1);
    assert_eq!(got[0].1.score, 40);
    assert_eq!(got[0].1.start, 3);
    assert_eq!(got[0].1.end, 3);
}

#[test]
fn positive_p_and_c_span4() {
    // to-adv/positive-p-and-c: p=true c=true span=4 -> score = 50.
    let l = lite_sl_owned(
        0,
        4,
        vec![seg((false, true, true, false), vec!["adv-to"], vec![])],
    );
    let r = lite_sl_owned(
        4,
        5,
        vec![seg((false, false, false, false), vec![], vec![1008490])],
    );
    let got = synergy_to_adverbs(&l, &r);
    assert_eq!(got.len(), 1);
    assert_eq!(got[0].1.score, 50);
    assert_eq!(got[0].1.start, 4);
    assert_eq!(got[0].1.end, 4);
}

#[test]
fn positive_k_span1() {
    // to-adv/positive-span1: k=true span=1 -> score = 20.
    let l = lite_sl_owned(
        0,
        1,
        vec![seg((true, false, false, false), vec!["adv-to"], vec![])],
    );
    let r = lite_sl_owned(
        1,
        2,
        vec![seg((false, false, false, false), vec![], vec![1008490])],
    );
    let got = synergy_to_adverbs(&l, &r);
    assert_eq!(got.len(), 1);
    assert_eq!(got[0].1.score, 20);
}

#[test]
fn neg_kpcl_all_nil() {
    // to-adv/neg-kpcl-all-nil: no synergy.
    let l = lite_sl_owned(
        0,
        2,
        vec![seg((false, false, false, false), vec!["adv-to"], vec![])],
    );
    let r = lite_sl_owned(
        2,
        3,
        vec![seg((false, false, false, false), vec![], vec![1008490])],
    );
    assert!(synergy_to_adverbs(&l, &r).is_empty());
}

#[test]
fn neg_c_alone() {
    // to-adv/neg-c-alone: c=true only (no k, no l, no p) — kpcl-test is
    // `(or k l p)` so bare c does not pass.
    let l = lite_sl_owned(
        0,
        2,
        vec![seg((false, false, true, false), vec!["adv-to"], vec![])],
    );
    let r = lite_sl_owned(
        2,
        3,
        vec![seg((false, false, false, false), vec![], vec![1008490])],
    );
    assert!(synergy_to_adverbs(&l, &r).is_empty());
}

#[test]
fn neg_wrong_posi() {
    // to-adv/neg-wrong-posi: posi=("n"), not adv-to -> no synergy.
    let l = lite_sl_owned(
        0,
        2,
        vec![seg((true, false, false, false), vec!["n"], vec![])],
    );
    let r = lite_sl_owned(
        2,
        3,
        vec![seg((false, false, false, false), vec![], vec![1008490])],
    );
    assert!(synergy_to_adverbs(&l, &r).is_empty());
}

#[test]
fn neg_wrong_right_seq() {
    // to-adv/neg-wrong-right: r seq not 1008490.
    let l = lite_sl_owned(
        0,
        2,
        vec![seg((true, false, false, false), vec!["adv-to"], vec![])],
    );
    let r = lite_sl_owned(
        2,
        3,
        vec![seg((false, false, false, false), vec![], vec![9999])],
    );
    assert!(synergy_to_adverbs(&l, &r).is_empty());
}

#[test]
fn neg_non_adjacent() {
    // to-adv/neg-non-adjacent: l.end /= r.start.
    let l = lite_sl_owned(
        0,
        2,
        vec![seg((true, false, false, false), vec!["adv-to"], vec![])],
    );
    let r = lite_sl_owned(
        5,
        6,
        vec![seg((false, false, false, false), vec![], vec![1008490])],
    );
    assert!(synergy_to_adverbs(&l, &r).is_empty());
}

#[test]
fn neg_empty_left() {
    // to-adv/neg-empty-left: l segs empty.
    let l = lite_sl_owned(0, 2, vec![]);
    let r = lite_sl_owned(
        2,
        3,
        vec![seg((false, false, false, false), vec![], vec![1008490])],
    );
    assert!(synergy_to_adverbs(&l, &r).is_empty());
}
