use std::sync::Arc;
use kaniran_core::segment::{ConjData, ConjProp, KaniLiteSegmentList, KaniScoreInfo, KaniSegmentInfo, KaniSplitInfo, Segment, SegmentList};
use kaniran_core::synergy::{synergy_shika_negative};
use kaniran_core::word::{KanaText, KaniWordDispatchEnum, SimpleText};

fn dummy_word() -> KaniWordDispatchEnum {
    KaniWordDispatchEnum::Kana(KanaText {
        id: 0,
        seq: 0,
        text: String::new(),
        ord: 0,
        common: None,
        common_tags: String::new(),
        conjugate_p: false,
        nokanji: false,
        best_kanji: None,
        state: SimpleText::default(),
    })
}

fn prop(neg: Option<bool>) -> ConjProp {
    ConjProp {
        id: 0,
        conj_id: 0,
        pos: "v5k".into(),
        conj_type: 1,
        neg,
        fml: None,
    }
}

fn cdata(neg: Option<bool>) -> ConjData {
    ConjData {
        seq: Some(1),
        from: Some(2),
        via: None,
        prop: Some(prop(neg)),
        src_map: vec![],
    }
}

fn seg(start: usize, end: usize, seq_set: Vec<i32>, conj: Vec<ConjData>) -> Segment {
    Segment {
        start,
        end,
        word: dummy_word(),
        score: None,
        info: Some(KaniSegmentInfo {
            posi: vec![],
            seq_set,
            conj,
            common: None,
            score_info: KaniScoreInfo {
                prop_score: 0,
                kanji_break: vec![],
                use_length_bonus: 0,
                split_info: KaniSplitInfo::Unsplit,
            },
            kpcl: (false, false, false, false),
        }),
        top: None,
        text: None,
    }
}

fn lite_sl_owned(start: usize, end: usize, segments: Vec<Segment>) -> KaniLiteSegmentList {
    KaniLiteSegmentList::from_segment_list(&SegmentList {
        segments: segments.into_iter().map(Arc::new).collect(),
        start,
        end,
        top: None,
        matches: 0,
    })
}

// How the `neg` flag of a conjugation decides the filter:
//   Some(true)  -> fires
//   Some(false) -> rejects
//   None (no flag recorded) -> fires

#[test]
fn positive_neg_t() {
    // shika-negative/positive (neg=t): RIGHT-SL start=2 end=5 segs=1,
    // SYN desc="shika+neg" conn=" " score=50 start=2 end=2,
    // LEFT-SL start=0 end=2 segs=1.
    let l = lite_sl_owned(0, 2, vec![seg(0, 2, vec![1005460], vec![])]);
    let r = lite_sl_owned(2, 5, vec![seg(2, 5, vec![], vec![cdata(Some(true))])]);
    let got = synergy_shika_negative(&l, &r);
    assert_eq!(got.len(), 1);
    let (right_sl, syn, left_sl) = &got[0];
    assert_eq!(right_sl.start, 2);
    assert_eq!(right_sl.end, 5);
    assert_eq!(right_sl.segments.len(), 1);
    assert_eq!(syn.description.as_deref(), Some("shika+neg"));
    assert_eq!(syn.connector.as_deref(), Some(" "));
    assert_eq!(syn.score, 50);
    assert_eq!(syn.start, 2);
    assert_eq!(syn.end, 2);
    assert_eq!(left_sl.start, 0);
    assert_eq!(left_sl.end, 2);
    assert_eq!(left_sl.segments.len(), 1);
}

#[test]
fn positive_neg_null() {
    // shika-negative with no neg flag alone: one synergy,
    // desc="shika+neg", score=50; a missing flag counts as set.
    let l = lite_sl_owned(0, 2, vec![seg(0, 2, vec![1005460], vec![])]);
    let r = lite_sl_owned(2, 5, vec![seg(2, 5, vec![], vec![cdata(None)])]);
    let got = synergy_shika_negative(&l, &r);
    assert_eq!(got.len(), 1);
    assert_eq!(got[0].1.description.as_deref(), Some("shika+neg"));
    assert_eq!(got[0].1.score, 50);
}

#[test]
fn right_neg_nil_empty() {
    // shika-negative with neg=false alone: no synergy.
    let l = lite_sl_owned(0, 2, vec![seg(0, 2, vec![1005460], vec![])]);
    let r = lite_sl_owned(2, 5, vec![seg(2, 5, vec![], vec![cdata(Some(false))])]);
    assert!(synergy_shika_negative(&l, &r).is_empty());
}

#[test]
fn right_empty_conj_empty() {
    // shika-negative/right-empty-conj: no synergy.
    let l = lite_sl_owned(0, 2, vec![seg(0, 2, vec![1005460], vec![])]);
    let r = lite_sl_owned(2, 5, vec![seg(2, 5, vec![], vec![])]);
    assert!(synergy_shika_negative(&l, &r).is_empty());
}

#[test]
fn left_miss_empty() {
    // shika-negative/left-miss: no synergy.
    let l = lite_sl_owned(0, 2, vec![seg(0, 2, vec![99], vec![])]);
    let r = lite_sl_owned(2, 5, vec![seg(2, 5, vec![], vec![cdata(Some(true))])]);
    assert!(synergy_shika_negative(&l, &r).is_empty());
}

#[test]
fn synergy_shika_negative_not_adjacent_empty() {
    // shika-negative/not-adjacent: no synergy.
    let l = lite_sl_owned(0, 2, vec![seg(0, 2, vec![1005460], vec![])]);
    let r = lite_sl_owned(4, 7, vec![seg(4, 7, vec![], vec![cdata(Some(true))])]);
    assert!(synergy_shika_negative(&l, &r).is_empty());
}

#[test]
fn multi_conj_nil_plus_nil_empty() {
    // shika-negative with neg=false twice: no synergy.
    let l = lite_sl_owned(0, 2, vec![seg(0, 2, vec![1005460], vec![])]);
    let r = lite_sl_owned(
        2,
        5,
        vec![seg(
            2,
            5,
            vec![],
            vec![cdata(Some(false)), cdata(Some(false))],
        )],
    );
    assert!(synergy_shika_negative(&l, &r).is_empty());
}

#[test]
fn multi_conj_nil_plus_null_fires() {
    // shika-negative with neg=false and no flag: the conjugation
    // without a flag counts as negative, so the synergy fires.
    let l = lite_sl_owned(0, 2, vec![seg(0, 2, vec![1005460], vec![])]);
    let r = lite_sl_owned(
        2,
        5,
        vec![seg(2, 5, vec![], vec![cdata(Some(false)), cdata(None)])],
    );
    let got = synergy_shika_negative(&l, &r);
    assert_eq!(got.len(), 1);
    assert_eq!(got[0].1.score, 50);
}

#[test]
fn multi_conj_nil_plus_t_fires() {
    // shika-negative/multi-conj-mixed: RIGHT-SL segs=1, LEFT-SL segs=1.
    // One conjugation with neg=false and one with neg=true.
    let l = lite_sl_owned(0, 2, vec![seg(0, 2, vec![1005460], vec![])]);
    let r = lite_sl_owned(
        2,
        5,
        vec![seg(
            2,
            5,
            vec![],
            vec![cdata(Some(false)), cdata(Some(true))],
        )],
    );
    let got = synergy_shika_negative(&l, &r);
    assert_eq!(got.len(), 1);
    let (right_sl, _syn, left_sl) = &got[0];
    assert_eq!(right_sl.segments.len(), 1);
    assert_eq!(left_sl.segments.len(), 1);
}
