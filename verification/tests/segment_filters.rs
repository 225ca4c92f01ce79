use std::sync::Arc;
use kaniran_core::segment::{ConjData, KaniLiteSegment, KaniScoreInfo, KaniSegmentInfo, KaniSplitInfo, Segment};
use kaniran_core::synergy::{
    filter_in_seq_set_simple, filter_is_compound_end, filter_is_compound_end_text, matches_compound_end,
    matches_compound_end_text, matches_in_seq_set_simple,
};
use kaniran_core::word::{CompoundText, KanaText, KaniWordDispatchEnum, ScoreMod, SimpleText};

fn kana_word(seq: i32, text: &str) -> KaniWordDispatchEnum {
    KaniWordDispatchEnum::Kana(KanaText {
        id: 0,
        seq,
        text: text.to_string(),
        ord: 0,
        common: None,
        common_tags: String::new(),
        conjugate_p: false,
        nokanji: false,
        best_kanji: None,
        state: SimpleText::default(),
    })
}

fn compound(parts: Vec<KaniWordDispatchEnum>) -> KaniWordDispatchEnum {
    KaniWordDispatchEnum::Compound(CompoundText {
        text: "c".into(),
        kana: "c".into(),
        primary: Box::new(kana_word(1, "a")),
        words: parts,
        score_base: None,
        score_mod: ScoreMod::Single(0),
    })
}

fn lite(word: KaniWordDispatchEnum, seq_set: Vec<i32>) -> Arc<KaniLiteSegment> {
    let info = KaniSegmentInfo {
        posi: vec![],
        seq_set,
        conj: vec![] as Vec<ConjData>,
        common: None,
        score_info: KaniScoreInfo {
            prop_score: 0,
            kanji_break: vec![],
            use_length_bonus: 0,
            split_info: KaniSplitInfo::Unsplit,
        },
        kpcl: (false, false, false, false),
    };
    Arc::new(KaniLiteSegment::from_segment(Arc::new(Segment {
        start: 0,
        end: 1,
        word,
        score: None,
        info: Some(info),
        top: None,
        text: None,
    })))
}

#[test]
fn in_seq_set_simple_needs_a_single_seq() {
    let simple = lite(kana_word(5, "x"), vec![5, 6]);
    let comp = lite(compound(vec![kana_word(5, "x")]), vec![5, 6]);
    assert!(matches_in_seq_set_simple(&[6], &simple));
    assert!(!matches_in_seq_set_simple(&[7], &simple));
    assert!(!matches_in_seq_set_simple(&[5], &comp));
    let f = filter_in_seq_set_simple(&[6]);
    assert!(f(&simple));
    assert!(!f(&comp));
}

#[test]
fn compound_end_reads_the_last_part() {
    let comp = lite(compound(vec![kana_word(1, "a"), kana_word(9, "だ")]), vec![]);
    let plain = lite(kana_word(9, "だ"), vec![9]);
    let empty = lite(compound(vec![]), vec![9]);
    assert!(matches_compound_end(&[9], &comp));
    assert!(!matches_compound_end(&[1], &comp));
    assert!(!matches_compound_end(&[9], &plain));
    assert!(!matches_compound_end(&[9], &empty));
    assert!(filter_is_compound_end(&[9])(&comp));
    assert!(matches_compound_end_text(&["だ"], &comp));
    assert!(!matches_compound_end_text(&["a"], &comp));
    assert!(!matches_compound_end_text(&["だ"], &plain));
    assert!(!matches_compound_end_text(&["だ"], &empty));
    assert!(filter_is_compound_end_text(&["だ"])(&comp));
}
