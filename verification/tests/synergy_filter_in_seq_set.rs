use std::sync::Arc;
use kaniran_core::segment::{ConjData, KaniLiteSegment, KaniScoreInfo, KaniSegmentInfo, KaniSplitInfo, Segment};
use kaniran_core::synergy::{filter_in_seq_set};
use kaniran_core::word::{KanaText, KaniWordDispatchEnum, SimpleText};

fn dummy_word() -> KaniWordDispatchEnum {
    KaniWordDispatchEnum::Kana(KanaText {
        id: 0,
        seq: 0,
        text: String::new(),
        ord: 0,
        common: None,
        common_tags: String::new(),
        conjugate_p: false,
        nokanji: false,
        best_kanji: None,
        state: SimpleText::default(),
    })
}

fn lite_with_seq_set(seq_set: Vec<i32>) -> Arc<KaniLiteSegment> {
    let info = KaniSegmentInfo {
        posi: vec![],
        seq_set,
        conj: vec![] as Vec<ConjData>,
        common: None,
        score_info: KaniScoreInfo {
            prop_score: 0,
            kanji_break: vec![],
            use_length_bonus: 0,
            split_info: KaniSplitInfo::Unsplit,
        },
        kpcl: (false, false, false, false),
    };
    Arc::new(KaniLiteSegment::from_segment(Arc::new(Segment {
        start: 0,
        end: 1,
        word: dummy_word(),
        score: None,
        info: Some(info),
        top: None,
        text: None,
    })))
}

fn lite_no_info() -> Arc<KaniLiteSegment> {
    Arc::new(KaniLiteSegment::from_segment(Arc::new(Segment {
        start: 0,
        end: 1,
        word: dummy_word(),
        score: None,
        info: None,
        top: None,
        text: None,
    })))
}

#[test]
fn match_when_intersection_nonempty() {
    // filter (200 400) on seg-a (:seq-set (100 200)) -> accepts
    let seg = lite_with_seq_set(vec![100, 200]);
    let f = filter_in_seq_set(&[200, 400]);
    assert!(f(&seg));
}

#[test]
fn no_match_when_disjoint() {
    // filter (200 400) on seg-b (:seq-set (300)) -> rejects
    let seg = lite_with_seq_set(vec![300]);
    let f = filter_in_seq_set(&[200, 400]);
    assert!(!f(&seg));
}

#[test]
fn no_match_when_info_absent() {
    // filter (200 400) on seg-no-info -> rejects
    let seg = lite_no_info();
    let f = filter_in_seq_set(&[200, 400]);
    assert!(!f(&seg));
}

#[test]
fn empty_seqs_never_matches() {
    // (filter-in-seq-set) on seg-a -> rejects
    let seg = lite_with_seq_set(vec![100, 200]);
    let f = filter_in_seq_set(&[]);
    assert!(!f(&seg));
}
