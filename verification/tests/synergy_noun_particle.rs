use std::sync::Arc;
use kaniran_core::segment::{ConjData, KaniLiteSegmentList, KaniScoreInfo, KaniSegmentInfo, KaniSplitInfo, Segment, SegmentList};
use kaniran_core::synergy::{synergy_noun_particle};
use kaniran_core::word::{KanaText, KaniWordDispatchEnum, SimpleText};

fn dummy_word() -> KaniWordDispatchEnum {
    KaniWordDispatchEnum::Kana(KanaText {
        id: 0,
        seq: 0,
        text: String::new(),
        ord: 0,
        common: None,
        common_tags: String::new(),
        conjugate_p: false,
        nokanji: false,
        best_kanji: None,
        state: SimpleText::default(),
    })
}

fn seg(kpcl: (bool, bool, bool, bool), posi: Vec<&str>, seq_set: Vec<i32>) -> Segment {
    Segment {
        start: 0,
        end: 1,
        word: dummy_word(),
        score: None,
        info: Some(KaniSegmentInfo {
            posi: posi.into_iter().map(String::from).collect(),
            seq_set,
            conj: vec![] as Vec<ConjData>,
            common: None,
            score_info: KaniScoreInfo {
                prop_score: 0,
                kanji_break: vec![],
                use_length_bonus: 0,
                split_info: KaniSplitInfo::Unsplit,
            },
            kpcl,
        }),
        top: None,
        text: None,
    }
}

fn lite_sl_owned(start: usize, end: usize, segments: Vec<Segment>) -> KaniLiteSegmentList {
    KaniLiteSegmentList::from_segment_list(&SegmentList {
        segments: segments.into_iter().map(Arc::new).collect(),
        start,
        end,
        top: None,
        matches: 0,
    })
}

#[test]
fn positive_len1() {
    // noun-particle/positive-len1: l noun, r seq 2028920 (は), r.end-r.start=1.
    // SYNERGY desc="noun+prt" conn=" " score=14 start=1 end=1.
    let l = lite_sl_owned(
        0,
        1,
        vec![seg((true, false, false, false), vec!["n"], vec![])],
    );
    let r = lite_sl_owned(
        1,
        2,
        vec![seg((false, false, false, false), vec![], vec![2028920])],
    );
    let got = synergy_noun_particle(&l, &r);
    assert_eq!(got.len(), 1);
    let (right_sl, syn, left_sl) = &got[0];
    assert_eq!(right_sl.start, 1);
    assert_eq!(right_sl.end, 2);
    assert_eq!(right_sl.segments.len(), 1);
    assert_eq!(syn.description.as_deref(), Some("noun+prt"));
    assert_eq!(syn.connector.as_deref(), Some(" "));
    assert_eq!(syn.score, 14);
    assert_eq!(syn.start, 1);
    assert_eq!(syn.end, 1);
    assert_eq!(left_sl.start, 0);
    assert_eq!(left_sl.end, 1);
    assert_eq!(left_sl.segments.len(), 1);
}

#[test]
fn positive_len2() {
    // noun-particle/positive-len2: r seq 2215430 (には), span=2 -> score=18.
    let l = lite_sl_owned(
        0,
        1,
        vec![seg((true, false, false, false), vec!["n"], vec![])],
    );
    let r = lite_sl_owned(
        1,
        3,
        vec![seg((false, false, false, false), vec![], vec![2215430])],
    );
    let got = synergy_noun_particle(&l, &r);
    assert_eq!(got.len(), 1);
    assert_eq!(got[0].1.score, 18);
    assert_eq!(got[0].1.start, 1);
    assert_eq!(got[0].1.end, 1);
}

#[test]
fn positive_len4() {
    // noun-particle/positive-len4: r seq 1009600 (にとって), span=4 -> score=26.
    let l = lite_sl_owned(
        0,
        1,
        vec![seg((true, false, false, false), vec!["n"], vec![])],
    );
    let r = lite_sl_owned(
        1,
        5,
        vec![seg((false, false, false, false), vec![], vec![1009600])],
    );
    let got = synergy_noun_particle(&l, &r);
    assert_eq!(got.len(), 1);
    assert_eq!(got[0].1.score, 26);
}

#[test]
fn tests_not_adjacent_empty() {
    // noun-particle/not-adjacent: no synergy.
    let l = lite_sl_owned(
        0,
        1,
        vec![seg((true, false, false, false), vec!["n"], vec![])],
    );
    let r = lite_sl_owned(
        5,
        6,
        vec![seg((false, false, false, false), vec![], vec![2028920])],
    );
    assert!(synergy_noun_particle(&l, &r).is_empty());
}

#[test]
fn tests_right_misses_empty() {
    // noun-particle/right-misses: no synergy.
    let l = lite_sl_owned(
        0,
        1,
        vec![seg((true, false, false, false), vec!["n"], vec![])],
    );
    let r = lite_sl_owned(
        1,
        2,
        vec![seg((false, false, false, false), vec![], vec![9999999])],
    );
    assert!(synergy_noun_particle(&l, &r).is_empty());
}
