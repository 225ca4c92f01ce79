use std::sync::Arc;
use kaniran_core::segment::{ConjData, KaniLiteSegmentList, KaniScoreInfo, KaniSegmentInfo, KaniSplitInfo, Segment, SegmentList};
use kaniran_core::synergy::{synergy_na_adjectives};
use kaniran_core::word::{KanaText, KaniWordDispatchEnum, SimpleText};

fn dummy_word() -> KaniWordDispatchEnum {
    KaniWordDispatchEnum::Kana(KanaText {
        id: 0,
        seq: 0,
        text: String::new(),
        ord: 0,
        common: None,
        common_tags: String::new(),
        conjugate_p: false,
        nokanji: false,
        best_kanji: None,
        state: SimpleText::default(),
    })
}

fn seg(kpcl: (bool, bool, bool, bool), posi: Vec<&str>, seq_set: Vec<i32>) -> Segment {
    Segment {
        start: 0,
        end: 1,
        word: dummy_word(),
        score: None,
        info: Some(KaniSegmentInfo {
            posi: posi.into_iter().map(String::from).collect(),
            seq_set,
            conj: vec![] as Vec<ConjData>,
            common: None,
            score_info: KaniScoreInfo {
                prop_score: 0,
                kanji_break: vec![],
                use_length_bonus: 0,
                split_info: KaniSplitInfo::Unsplit,
            },
            kpcl,
        }),
        top: None,
        text: None,
    }
}

fn lite_sl_owned(start: usize, end: usize, segments: Vec<Segment>) -> KaniLiteSegmentList {
    KaniLiteSegmentList::from_segment_list(&SegmentList {
        segments: segments.into_iter().map(Arc::new).collect(),
        start,
        end,
        top: None,
        matches: 0,
    })
}

#[test]
fn positive_na() {
    // na-adj/positive-na: l adj-na with k=true, r seq 2029110.
    // RIGHT-SL start=2 end=3 segs=1, SYNERGY desc="na-adjective"
    // conn=" " score=15 start=2 end=2, LEFT-SL start=0 end=2 segs=1.
    let l = lite_sl_owned(
        0,
        2,
        vec![seg((true, false, false, false), vec!["adj-na"], vec![])],
    );
    let r = lite_sl_owned(
        2,
        3,
        vec![seg((false, false, false, false), vec![], vec![2029110])],
    );
    let got = synergy_na_adjectives(&l, &r);
    assert_eq!(got.len(), 1);
    let (right_sl, syn, left_sl) = &got[0];
    assert_eq!(right_sl.start, 2);
    assert_eq!(right_sl.end, 3);
    assert_eq!(right_sl.segments.len(), 1);
    assert_eq!(syn.description.as_deref(), Some("na-adjective"));
    assert_eq!(syn.connector.as_deref(), Some(" "));
    assert_eq!(syn.score, 15);
    assert_eq!(syn.start, 2);
    assert_eq!(syn.end, 2);
    assert_eq!(left_sl.start, 0);
    assert_eq!(left_sl.end, 2);
    assert_eq!(left_sl.segments.len(), 1);
}

#[test]
fn positive_ni() {
    // na-adj/positive-ni: l adj-na with l=true, r seq 2028990 (に).
    let l = lite_sl_owned(
        0,
        2,
        vec![seg((false, false, false, true), vec!["adj-na"], vec![])],
    );
    let r = lite_sl_owned(
        2,
        3,
        vec![seg((false, false, false, false), vec![], vec![2028990])],
    );
    let got = synergy_na_adjectives(&l, &r);
    assert_eq!(got.len(), 1);
    assert_eq!(got[0].1.score, 15);
    assert_eq!(got[0].1.start, 2);
    assert_eq!(got[0].1.end, 2);
}

#[test]
fn wrong_posi_empty() {
    // na-adj/neg-wrong-posi: l posi=("v5k"), not adj-na -> no synergy.
    let l = lite_sl_owned(
        0,
        2,
        vec![seg((true, false, false, false), vec!["v5k"], vec![])],
    );
    let r = lite_sl_owned(
        2,
        3,
        vec![seg((false, false, false, false), vec![], vec![2029110])],
    );
    assert!(synergy_na_adjectives(&l, &r).is_empty());
}
