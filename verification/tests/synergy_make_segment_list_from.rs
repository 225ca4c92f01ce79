use std::sync::Arc;
use kaniran_core::segment::{Segment, SegmentList};
use kaniran_core::synergy::{make_segment_list_from};
use kaniran_core::word::{KanaText, KaniWordDispatchEnum, SimpleText};

fn dummy_word() -> KaniWordDispatchEnum {
    KaniWordDispatchEnum::Kana(KanaText {
        id: 0,
        seq: 0,
        text: String::new(),
        ord: 0,
        common: None,
        common_tags: String::new(),
        conjugate_p: false,
        nokanji: false,
        best_kanji: None,
        state: SimpleText::default(),
    })
}

fn seg_with_score(score: i32) -> Segment {
    Segment {
        start: 0,
        end: 1,
        word: dummy_word(),
        score: Some(score),
        info: None,
        top: None,
        text: None,
    }
}

#[test]
fn swaps_segments_preserves_other_slots() {
    // Expected:
    //   src segments len=2, dst segments len=1
    //   dst start=0 end=2 matches=3
    //   src not mutated: src segments len=2
    //   first dst seg score=20
    let seg1 = Arc::new(seg_with_score(10));
    let seg2 = Arc::new(seg_with_score(20));
    let sl = SegmentList {
        segments: vec![Arc::clone(&seg1), Arc::clone(&seg2)],
        start: 0,
        end: 2,
        top: None,
        matches: 3,
    };
    let new_sl = make_segment_list_from(&sl, vec![Arc::clone(&seg2)]);
    assert_eq!(sl.segments.len(), 2);
    assert_eq!(new_sl.segments.len(), 1);
    assert_eq!(new_sl.start, 0);
    assert_eq!(new_sl.end, 2);
    assert_eq!(new_sl.matches, 3);
    assert_eq!(new_sl.segments[0].score, Some(20));
}
