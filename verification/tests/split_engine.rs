use kaniran_core::split::{
    part_blocked, Finder, Len, Modify, PartSeq, Pred, ScorePush, SplitDef, SplitProgress, SplitRun, Step, WordPart,
};
use kaniran_core::word::{KanaText, KaniSimpleTextDispatchEnum, SimpleText, SplitPart, WordType};

fn reading(text: &str) -> KaniSimpleTextDispatchEnum {
    KaniSimpleTextDispatchEnum::Kana(KanaText {
        id: 0,
        seq: 9,
        text: text.to_string(),
        ord: 0,
        common: None,
        common_tags: String::new(),
        conjugate_p: false,
        nokanji: false,
        best_kanji: None,
        state: SimpleText::default(),
    })
}

static SEQS: [i32; 2] = [100, 200];
static STEPS: [Step; 4] = [
    Step::Test { pred: Pred::LenGt(2), score_mod: Some(-5), push: Some(ScorePush::PScore) },
    Step::Push(ScorePush::Score),
    Step::Word(WordPart { seq: PartSeq::Static(&SEQS), length: Len::Fixed(2), finder: Finder::SeqOf, modify: Modify::Keep }),
    Step::Word(WordPart { seq: PartSeq::Static(&SEQS), length: Len::Open, finder: Finder::ConjOf, modify: Modify::Keep }),
];
static DEF: SplitDef = SplitDef { seq: 200, score: 30, steps: &STEPS };

#[test]
fn predicates() {
    let r = reading("かいもの");
    assert!(Pred::WordType(WordType::Kana).eval("かいもの", &r, 4));
    assert!(!Pred::WordType(WordType::Kanji).eval("かいもの", &r, 4));
    assert!(Pred::TextEquals("かいもの").eval("かいもの", &r, 4));
    assert!(Pred::TextStartsWith("かい").eval("かいもの", &r, 4));
    assert!(!Pred::TextStartsWith("もの").eval("かいもの", &r, 4));
    assert!(Pred::LenGt(3).eval("かいもの", &r, 4));
    assert!(!Pred::LenEq(3).eval("かいもの", &r, 4));
}

#[test]
fn lengths() {
    assert_eq!(Len::Open.eval("abc", 3), None);
    assert_eq!(Len::Fixed(2).eval("abc", 3), Some(2));
    assert_eq!(Len::LenMinus(1).eval("abc", 3), Some(2));
    assert_eq!(Len::LenMinus(5).eval("abc", 3), Some(0));
    assert_eq!(Len::CharPos('の').eval("かいもの", 4), Some(3));
    assert_eq!(Len::CharPosPlus1('い').eval("かいもの", 4), Some(2));
    assert_eq!(Len::CharPos('x').eval("かいもの", 4), None);
    assert!(matches!(ScorePush::Score.to_part(), SplitPart::Score));
}

#[test]
fn failing_test_stops_with_modified_score() {
    let r = reading("かい");
    let mut run = SplitRun::start(&DEF);
    assert_eq!(run.advance(&DEF, "かい", &r, 2), SplitProgress::Finished);
    assert_eq!(run.score, -5);
    assert_eq!(run.parts.len(), 1);
    assert!(matches!(run.parts[0], Some(SplitPart::PScore)));
    assert!(run.finished);
}

#[test]
fn run_walks_words() {
    let r = reading("かいもの");
    let mut run = SplitRun::start(&DEF);
    assert_eq!(run.advance(&DEF, "かいもの", &r, 4), SplitProgress::NeedsWord(2));
    assert_eq!(run.parts.len(), 1);
    assert!(part_blocked(&DEF, &SEQS));
    assert!(!part_blocked(&DEF, &[1]));
    run.word_done(None, Some(2));
    assert_eq!(run.offset, 2);
    assert_eq!(run.advance(&DEF, "かいもの", &r, 4), SplitProgress::NeedsWord(3));
    run.word_done(None, None);
    assert_eq!(run.offset, 2);
    assert_eq!(run.advance(&DEF, "かいもの", &r, 4), SplitProgress::Finished);
    assert_eq!(run.score, 30);
    assert_eq!(run.parts.len(), 3);
}
