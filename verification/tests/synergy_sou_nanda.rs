use std::sync::Arc;
use kaniran_core::segment::{ConjData, KaniLiteSegmentList, KaniScoreInfo, KaniSegmentInfo, KaniSplitInfo, Segment, SegmentList};
use kaniran_core::synergy::{synergy_sou_nanda};
use kaniran_core::word::{KanaText, KaniWordDispatchEnum, SimpleText};

fn dummy_word() -> KaniWordDispatchEnum {
    KaniWordDispatchEnum::Kana(KanaText {
        id: 0,
        seq: 0,
        text: String::new(),
        ord: 0,
        common: None,
        common_tags: String::new(),
        conjugate_p: false,
        nokanji: false,
        best_kanji: None,
        state: SimpleText::default(),
    })
}

fn seg(start: usize, end: usize, seq_set: Vec<i32>) -> Segment {
    Segment {
        start,
        end,
        word: dummy_word(),
        score: None,
        info: Some(KaniSegmentInfo {
            posi: vec![],
            seq_set,
            conj: vec![] as Vec<ConjData>,
            common: None,
            score_info: KaniScoreInfo {
                prop_score: 0,
                kanji_break: vec![],
                use_length_bonus: 0,
                split_info: KaniSplitInfo::Unsplit,
            },
            kpcl: (false, false, false, false),
        }),
        top: None,
        text: None,
    }
}

fn lite_sl_owned(start: usize, end: usize, segments: Vec<Segment>) -> KaniLiteSegmentList {
    KaniLiteSegmentList::from_segment_list(&SegmentList {
        segments: segments.into_iter().map(Arc::new).collect(),
        start,
        end,
        top: None,
        matches: 0,
    })
}

#[test]
fn positive() {
    // sou-nanda/positive: RIGHT-SL start=2 end=5 segs=1,
    // SYN desc="sou na n da" conn=" " score=50 start=2 end=2,
    // LEFT-SL start=0 end=2 segs=1.
    let l = lite_sl_owned(0, 2, vec![seg(0, 2, vec![2137720])]);
    let r = lite_sl_owned(2, 5, vec![seg(2, 5, vec![2140410])]);
    let got = synergy_sou_nanda(&l, &r);
    assert_eq!(got.len(), 1);
    let (right_sl, syn, left_sl) = &got[0];
    assert_eq!(right_sl.start, 2);
    assert_eq!(right_sl.end, 5);
    assert_eq!(right_sl.segments.len(), 1);
    assert_eq!(syn.description.as_deref(), Some("sou na n da"));
    assert_eq!(syn.connector.as_deref(), Some(" "));
    assert_eq!(syn.score, 50);
    assert_eq!(syn.start, 2);
    assert_eq!(syn.end, 2);
    assert_eq!(left_sl.start, 0);
    assert_eq!(left_sl.end, 2);
    assert_eq!(left_sl.segments.len(), 1);
}

#[test]
fn tests_right_miss_empty() {
    // sou-nanda/right-miss: no synergy.
    let l = lite_sl_owned(0, 2, vec![seg(0, 2, vec![2137720])]);
    let r = lite_sl_owned(2, 5, vec![seg(2, 5, vec![99])]);
    assert!(synergy_sou_nanda(&l, &r).is_empty());
}

#[test]
fn synergy_sou_nanda_not_adjacent_empty() {
    // sou-nanda/not-adjacent: no synergy.
    let l = lite_sl_owned(0, 2, vec![seg(0, 2, vec![2137720])]);
    let r = lite_sl_owned(3, 6, vec![seg(3, 6, vec![2140410])]);
    assert!(synergy_sou_nanda(&l, &r).is_empty());
}

#[test]
fn tests_left_miss_empty() {
    // sou-nanda/left-miss: no synergy.
    let l = lite_sl_owned(0, 2, vec![seg(0, 2, vec![99])]);
    let r = lite_sl_owned(2, 5, vec![seg(2, 5, vec![2140410])]);
    assert!(synergy_sou_nanda(&l, &r).is_empty());
}
