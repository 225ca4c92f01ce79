use std::sync::Arc;
use kaniran_core::segment::{ConjData, KaniLiteSegment, KaniScoreInfo, KaniSegmentInfo, KaniSplitInfo, POS_ADJ_NA, POS_ADJ_NO, POS_ADV_TO, POS_CTR, POS_N, Segment};
use kaniran_core::synergy::{filter_is_pos};
use kaniran_core::word::{KanaText, KaniWordDispatchEnum, SimpleText};

fn dummy_word() -> KaniWordDispatchEnum {
    KaniWordDispatchEnum::Kana(KanaText {
        id: 0,
        seq: 0,
        text: String::new(),
        ord: 0,
        common: None,
        common_tags: String::new(),
        conjugate_p: false,
        nokanji: false,
        best_kanji: None,
        state: SimpleText::default(),
    })
}

fn lite(kpcl: (bool, bool, bool, bool), posi: &[&str]) -> Arc<KaniLiteSegment> {
    let info = KaniSegmentInfo {
        posi: posi.iter().map(|s| s.to_string()).collect(),
        seq_set: vec![],
        conj: vec![] as Vec<ConjData>,
        common: None,
        score_info: KaniScoreInfo {
            prop_score: 0,
            kanji_break: vec![],
            use_length_bonus: 0,
            split_info: KaniSplitInfo::Unsplit,
        },
        kpcl,
    };
    Arc::new(KaniLiteSegment::from_segment(Arc::new(Segment {
        start: 0,
        end: 1,
        word: dummy_word(),
        score: None,
        info: Some(info),
        top: None,
        text: None,
    })))
}

// kpcl tests of the part-of-speech filters of the synergies,
// plus a few that isolate the kpcl gate from the pos gate.
fn adj(k: bool, p: bool, c: bool, l: bool) -> bool {
    k || l || (p && c)
}
fn advto(k: bool, p: bool, _c: bool, l: bool) -> bool {
    k || l || p
}
fn orkl(k: bool, _p: bool, _c: bool, l: bool) -> bool {
    k || l
}
fn konly(k: bool, _p: bool, _c: bool, _l: bool) -> bool {
    k
}
fn always(_k: bool, _p: bool, _c: bool, _l: bool) -> bool {
    true
}
fn ponly(_k: bool, p: bool, _c: bool, _l: bool) -> bool {
    p
} // isolation case
fn pandc(_k: bool, p: bool, c: bool, _l: bool) -> bool {
    p && c
} // isolation case

#[test]
fn filter_is_pos_fixtures() {
    // Fixtures, each a scored segment. Columns:
    // (label, kpcl (k p c l), posi, pos_mask, kpcl_test, expected).
    type Test = fn(bool, bool, bool, bool) -> bool;
    let cases: &[(&str, (bool, bool, bool, bool), &[&str], u16, Test, bool)] = &[
        // 普通 — kpcl=(true true true false) posi=(adj-na adj-no adv n)
        (
            "futsuu adj-no/adj",
            (true, true, true, false),
            &["adj-na", "adj-no", "adv", "n"],
            POS_ADJ_NO,
            adj,
            true,
        ),
        (
            "futsuu adj-na/adj",
            (true, true, true, false),
            &["adj-na", "adj-no", "adv", "n"],
            POS_ADJ_NA,
            adj,
            true,
        ),
        (
            "futsuu adv-to/advto",
            (true, true, true, false),
            &["adj-na", "adj-no", "adv", "n"],
            POS_ADV_TO,
            advto,
            false,
        ),
        (
            "futsuu n/orkl",
            (true, true, true, false),
            &["adj-na", "adj-no", "adv", "n"],
            POS_N,
            orkl,
            true,
        ),
        (
            "futsuu ctr/t",
            (true, true, true, false),
            &["adj-na", "adj-no", "adv", "n"],
            POS_CTR,
            always,
            false,
        ),
        // 政府 — kpcl=(true true true false) posi=(n)
        (
            "seifu adj-no/adj",
            (true, true, true, false),
            &["n"],
            POS_ADJ_NO,
            adj,
            false,
        ),
        (
            "seifu n/orkl",
            (true, true, true, false),
            &["n"],
            POS_N,
            orkl,
            true,
        ),
        // 静か — kpcl=(true true true false) posi=(adj-na)
        (
            "shizuka adj-na/adj",
            (true, true, true, false),
            &["adj-na"],
            POS_ADJ_NA,
            adj,
            true,
        ),
        (
            "shizuka n/orkl",
            (true, true, true, false),
            &["adj-na"],
            POS_N,
            orkl,
            false,
        ),
        // 個 — kpcl=(true true true false) posi=(ctr n)
        (
            "ko ctr/t",
            (true, true, true, false),
            &["ctr", "n"],
            POS_CTR,
            always,
            true,
        ),
        // 三 — kpcl=(true true true false) posi=(num): num maps to no bit → empty intersection
        (
            "san adj-no/adj (num→0)",
            (true, true, true, false),
            &["num"],
            POS_ADJ_NO,
            adj,
            false,
        ),
        (
            "san n/orkl (num→0)",
            (true, true, true, false),
            &["num"],
            POS_N,
            orkl,
            false,
        ),
        // ゆっくり — kpcl=(false true true false) posi=(adv adv-to vs)
        (
            "yukkuri adv-to/advto (k=F)",
            (false, true, true, false),
            &["adv", "adv-to", "vs"],
            POS_ADV_TO,
            advto,
            true,
        ),
        (
            "yukkuri adv-to/konly (pos-match,test-F)",
            (false, true, true, false),
            &["adv", "adv-to", "vs"],
            POS_ADV_TO,
            konly,
            false,
        ),
        (
            "yukkuri adj-no/adj",
            (false, true, true, false),
            &["adv", "adv-to", "vs"],
            POS_ADJ_NO,
            adj,
            false,
        ),
        // 本 — kpcl=(true false true false) posi=(ctr n)
        (
            "hon ctr/t",
            (true, false, true, false),
            &["ctr", "n"],
            POS_CTR,
            always,
            true,
        ),
        (
            "hon n/konly (k=T)",
            (true, false, true, false),
            &["ctr", "n"],
            POS_N,
            konly,
            true,
        ),
        (
            "hon n/ponly (pos-match,test-F)",
            (true, false, true, false),
            &["ctr", "n"],
            POS_N,
            ponly,
            false,
        ),
        (
            "hon n/pandc (pos-match,test-F)",
            (true, false, true, false),
            &["ctr", "n"],
            POS_N,
            pandc,
            false,
        ),
        (
            "hon adj-no/adj (p=F)",
            (true, false, true, false),
            &["ctr", "n"],
            POS_ADJ_NO,
            adj,
            false,
        ),
    ];
    for (label, kpcl, posi, pos_mask, kpcl_test, expected) in cases {
        let seg = lite(*kpcl, posi);
        let predicate = filter_is_pos(*pos_mask, kpcl_test);
        assert_eq!(predicate(&seg), *expected, "case={label}");
    }
}
