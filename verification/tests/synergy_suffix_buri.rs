use std::sync::Arc;
use kaniran_core::segment::{ConjData, KaniLiteSegmentList, KaniScoreInfo, KaniSegmentInfo, KaniSplitInfo, Segment, SegmentList};
use kaniran_core::synergy::{synergy_suffix_buri};
use kaniran_core::word::{KanaText, KaniWordDispatchEnum, SimpleText};

fn dummy_word() -> KaniWordDispatchEnum {
    KaniWordDispatchEnum::Kana(KanaText {
        id: 0,
        seq: 0,
        text: String::new(),
        ord: 0,
        common: None,
        common_tags: String::new(),
        conjugate_p: false,
        nokanji: false,
        best_kanji: None,
        state: SimpleText::default(),
    })
}

fn seg(
    start: usize,
    end: usize,
    kpcl: (bool, bool, bool, bool),
    posi: Vec<&str>,
    seq_set: Vec<i32>,
) -> Segment {
    Segment {
        start,
        end,
        word: dummy_word(),
        score: None,
        info: Some(KaniSegmentInfo {
            posi: posi.into_iter().map(String::from).collect(),
            seq_set,
            conj: vec![] as Vec<ConjData>,
            common: None,
            score_info: KaniScoreInfo {
                prop_score: 0,
                kanji_break: vec![],
                use_length_bonus: 0,
                split_info: KaniSplitInfo::Unsplit,
            },
            kpcl,
        }),
        top: None,
        text: None,
    }
}

fn lite_sl_owned(start: usize, end: usize, segments: Vec<Segment>) -> KaniLiteSegmentList {
    KaniLiteSegmentList::from_segment_list(&SegmentList {
        segments: segments.into_iter().map(Arc::new).collect(),
        start,
        end,
        top: None,
        matches: 0,
    })
}

#[test]
fn synergy_suffix_buri_positive() {
    // suffix-buri/positive: RIGHT-SL start=2 end=4 segs=1,
    // SYN desc="suffix-buri" conn="" score=40 start=2 end=2,
    // LEFT-SL start=0 end=2 segs=1.
    let l = lite_sl_owned(
        0,
        2,
        vec![seg(0, 2, (true, false, false, false), vec!["n"], vec![])],
    );
    let r = lite_sl_owned(
        2,
        4,
        vec![seg(
            2,
            4,
            (false, false, false, false),
            vec![],
            vec![1361140],
        )],
    );
    let got = synergy_suffix_buri(&l, &r);
    assert_eq!(got.len(), 1);
    let (right_sl, syn, left_sl) = &got[0];
    assert_eq!(right_sl.start, 2);
    assert_eq!(right_sl.end, 4);
    assert_eq!(right_sl.segments.len(), 1);
    assert_eq!(syn.description.as_deref(), Some("suffix-buri"));
    assert_eq!(syn.connector.as_deref(), Some(""));
    assert_eq!(syn.score, 40);
    assert_eq!(syn.start, 2);
    assert_eq!(syn.end, 2);
    assert_eq!(left_sl.start, 0);
    assert_eq!(left_sl.end, 2);
    assert_eq!(left_sl.segments.len(), 1);
}

#[test]
fn synergy_suffix_buri_left_not_noun_empty() {
    // suffix-buri/left-not-noun: no synergy.
    let l = lite_sl_owned(
        0,
        2,
        vec![seg(0, 2, (true, false, false, false), vec!["v5k"], vec![])],
    );
    let r = lite_sl_owned(
        2,
        4,
        vec![seg(
            2,
            4,
            (false, false, false, false),
            vec![],
            vec![1361140],
        )],
    );
    assert!(synergy_suffix_buri(&l, &r).is_empty());
}

#[test]
fn synergy_suffix_buri_right_miss_empty() {
    // suffix-buri/right-miss: no synergy.
    let l = lite_sl_owned(
        0,
        2,
        vec![seg(0, 2, (true, false, false, false), vec!["n"], vec![])],
    );
    let r = lite_sl_owned(
        2,
        4,
        vec![seg(2, 4, (false, false, false, false), vec![], vec![99])],
    );
    assert!(synergy_suffix_buri(&l, &r).is_empty());
}

#[test]
fn synergy_suffix_buri_not_adjacent_empty() {
    // suffix-buri/not-adjacent: no synergy.
    let l = lite_sl_owned(
        0,
        2,
        vec![seg(0, 2, (true, false, false, false), vec!["n"], vec![])],
    );
    let r = lite_sl_owned(
        5,
        7,
        vec![seg(
            5,
            7,
            (false, false, false, false),
            vec![],
            vec![1361140],
        )],
    );
    assert!(synergy_suffix_buri(&l, &r).is_empty());
}
