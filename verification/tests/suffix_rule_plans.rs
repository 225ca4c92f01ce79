use kaniran_core::suffix::SuffixFn;
use kaniran_core::suffix_rules::{
    abbr_word, def_abbr_suffix_body, simple_suffix_texts, suffix_plan, suffix_sou_base_body, te_check, teiru_check,
    destem, trim_kana, Combine, DefSimpleSuffixOpts, PrimaryWord, WordQuery,
};
use kaniran_core::word::{CompoundText, KanaText, KaniSimpleTextDispatchEnum, KaniWordDispatchEnum, ScoreMod, SimpleText};

fn kana(seq: i32, text: &str) -> KanaText {
    KanaText {
        id: 0,
        seq,
        text: text.to_string(),
        ord: 0,
        common: None,
        common_tags: String::new(),
        conjugate_p: false,
        nokanji: false,
        best_kanji: None,
        state: SimpleText::default(),
    }
}

fn conj_type(q: &WordQuery) -> Option<(&str, &[i32])> {
    match q {
        WordQuery::ConjType(w, t) => Some((w.as_str(), t.as_slice())),
        _ => None,
    }
}

#[test]
fn tai_skips_bare_i() {
    assert!(suffix_plan(SuffixFn::Tai, "い", "たい").lookups.is_empty());
    let p = suffix_plan(SuffixFn::Tai, "食べ", "たい");
    assert_eq!(p.lookups.len(), 1);
    assert_eq!(conj_type(&p.lookups[0].query), Some(("食べ", &[13][..])));
    assert!(matches!(p.score, ScoreMod::Single(5)));
    assert_eq!(p.connector, "");
    assert!(!p.abbreviation);
}

#[test]
fn te_checks() {
    assert!(te_check("で").is_empty());
    assert!(te_check("食べる").is_empty());
    let l = te_check("食べて");
    assert_eq!(conj_type(&l[0].query), Some(("食べて", &[3][..])));
    assert_eq!(conj_type(&te_check("遊んで")[0].query), Some(("遊んで", &[3][..])));
    assert!(teiru_check("いて").is_empty());
    assert_eq!(teiru_check("見て").len(), 1);
}

#[test]
fn chau_maps_suffix_head_to_te_form() {
    let p = suffix_plan(SuffixFn::Chau, "食べ", "ちゃう");
    assert_eq!(conj_type(&p.lookups[0].query), Some(("食べて", &[3][..])));
    assert!(p.lookups[0].fresh_map);
    assert_eq!(p.stem, 1);
    let q = suffix_plan(SuffixFn::Chau, "遊ん", "じゃう");
    assert_eq!(conj_type(&q.lookups[0].query), Some(("遊んで", &[3][..])));
    assert!(suffix_plan(SuffixFn::Chau, "x", "ふう").lookups.is_empty());
    let t = suffix_plan(SuffixFn::To, "読ん", "どく");
    assert_eq!(conj_type(&t.lookups[0].query), Some(("読んで", &[3][..])));
}

#[test]
fn sou_scores_and_patch() {
    assert!(matches!(suffix_plan(SuffixFn::Sou, "から", "そう").score, ScoreMod::Constant(40)));
    assert!(matches!(suffix_plan(SuffixFn::Sou, "い", "そう").score, ScoreMod::Constant(0)));
    assert!(matches!(suffix_plan(SuffixFn::Sou, "出来", "そう").score, ScoreMod::Constant(100)));
    assert!(matches!(suffix_plan(SuffixFn::Sou, "高", "そう").score, ScoreMod::Constant(70)));
    let b = suffix_sou_base_body("つまらなさ");
    assert_eq!(b.len(), 1);
    assert!(matches!(&b[0].query, WordQuery::ConjNeg(w, x, false) if w == "つまらない" && x.is_empty()));
    assert_eq!(b[0].patch, Some(("い", "さ")));
    assert!(suffix_sou_base_body("よさ").is_empty());
    assert_eq!(conj_type(&suffix_sou_base_body("高")[0].query), Some(("高", &[13, 51, 50][..])));
}

#[test]
fn sugiru_rebuilds_adjective() {
    assert!(suffix_plan(SuffixFn::Sugiru, "い", "すぎる").lookups.is_empty());
    let p = suffix_plan(SuffixFn::Sugiru, "高", "すぎる");
    assert!(matches!(&p.lookups[0].query, WordQuery::Pos(w, "adj-i") if w == "高い"));
    assert_eq!(p.lookups[0].patch, None);
    let n = suffix_plan(SuffixFn::Sugiru, "少なさ", "すぎる");
    assert!(matches!(&n.lookups[0].query, WordQuery::ConjNeg(w, _, false) if w == "少ない"));
    let short = suffix_plan(SuffixFn::Sugiru, "無さ", "すぎる");
    assert!(matches!(&short.lookups[0].query, WordQuery::Pos(w, "adj-i") if w == "無い"));
    assert_eq!(short.lookups[0].patch, Some(("い", "さ")));
}

#[test]
fn garu_and_ra_fall_back() {
    let g = suffix_plan(SuffixFn::Garu, "嬉しそ", "がる");
    assert_eq!(g.combine, Combine::FirstFound);
    assert_eq!(g.lookups.len(), 2);
    assert!(matches!(&g.lookups[1].query, WordQuery::WithSuffix(w, "sou") if w == "嬉しそう"));
    assert!(suffix_plan(SuffixFn::Garu, "な", "がる").lookups.is_empty());
    assert!(suffix_plan(SuffixFn::Ra, "彼ら", "ら").lookups.is_empty());
    let r = suffix_plan(SuffixFn::Ra, "私", "ら");
    assert!(matches!(&r.lookups[1].query, WordQuery::SeqOf(w, 1580640) if w == "私"));
    let rs = suffix_plan(SuffixFn::Rashii, "来た", "らしい");
    assert_eq!(rs.combine, Combine::Paired);
    assert_eq!(conj_type(&rs.lookups[1].query), Some(("来たら", &[11][..])));
}

#[test]
fn abbreviation_plans() {
    let nx = suffix_plan(SuffixFn::AbbrNx, "せ", "ず");
    assert!(matches!(&nx.lookups[0].query, WordQuery::ConjOf(w, 1157170) if w == "しない"));
    assert_eq!(nx.lookups[0].patch, Some(("しない", "せ")));
    assert!(nx.abbreviation);
    let nee = suffix_plan(SuffixFn::AbbrNee, "知ら", "ねえ");
    assert!(matches!(&nee.lookups[0].query, WordQuery::ConjNeg(w, x, true) if w == "知らない" && x == &vec![1577980, 1547720]));
    let sh = suffix_plan(SuffixFn::AbbrShimasho, "行き", "しましょ");
    assert!(matches!(&sh.lookups[0].query, WordQuery::Full(w) if w == "行きしましょう"));
    assert_eq!(sh.stem, 5);
    let d = suffix_plan(SuffixFn::Desu, "ない", "です");
    assert!(matches!(d.score, ScoreMod::Constant(200)));
    assert!(suffix_plan(SuffixFn::Desho, "なかった", "でしょ").lookups.is_empty());
}

#[test]
fn texts_and_abbreviations() {
    let plain = DefSimpleSuffixOpts { stem: 0, score: ScoreMod::Single(5), connector: "", patch: None };
    let (t, k) = simple_suffix_texts("食べ", "たい", Some("たべ".to_string()), &plain);
    assert_eq!((t.as_str(), k.as_str()), ("食べたい", "たべたい"));
    let spaced = DefSimpleSuffixOpts { stem: 0, score: ScoreMod::Single(5), connector: " ", patch: None };
    let (t2, k2) = simple_suffix_texts("勉強", "する", Some("べんきょう".to_string()), &spaced);
    assert_eq!((t2.as_str(), k2.as_str()), ("勉強する", "べんきょう する"));
    let stemmed = DefSimpleSuffixOpts { stem: 1, score: ScoreMod::Single(5), connector: "", patch: None };
    let (_, k3) = simple_suffix_texts("書き", "すぎる", Some("かきます".to_string()), &stemmed);
    assert_eq!(k3, "かきますぎる");
    let (_, k4) = simple_suffix_texts("x", "y", None, &stemmed);
    assert_eq!(k4, "y");
    let w = abbr_word(KaniWordDispatchEnum::Kana(kana(3, "しらない")), "知らねえ".into(), "しらねえ".into());
    match w {
        KaniWordDispatchEnum::Proxy(p) => {
            assert_eq!(p.text, "知らねえ");
            assert_eq!(p.kana, "しらねえ");
            assert!(p.state.hintedp);
            assert!(matches!(*p.source, KaniSimpleTextDispatchEnum::Kana(ref k) if k.seq == 3));
        },
        _ => panic!("expected a proxy"),
    }
    let c = KaniWordDispatchEnum::Compound(CompoundText {
        text: "x".into(),
        kana: "y".into(),
        primary: Box::new(KaniWordDispatchEnum::Kana(kana(1, "a"))),
        words: vec![],
        score_base: None,
        score_mod: ScoreMod::Single(2),
    });
    match abbr_word(c, "t".into(), "k".into()) {
        KaniWordDispatchEnum::Compound(d) => {
            assert_eq!((d.text.as_str(), d.kana.as_str()), ("t", "k"));
            assert!(matches!(d.score_mod, ScoreMod::Single(2)));
        },
        _ => panic!("expected a compound"),
    }
    let out = def_abbr_suffix_body(
        vec![KaniWordDispatchEnum::Kana(kana(4, "のめば")), KaniWordDispatchEnum::Kana(kana(5, "のめ"))],
        &vec![Some("のめば".to_string()), Some("のめ".to_string())],
        "飲",
        "みゃ",
        1,
        None,
    );
    assert_eq!(out.len(), 2);
    assert!(matches!(&out[1], KaniWordDispatchEnum::Proxy(p) if p.text == "飲みゃ" && p.kana == "のみゃ"));
}

#[test]
fn primary_word_from_bare_word() {
    let p = PrimaryWord::from(KaniWordDispatchEnum::Kana(kana(7, "たべ")));
    match p {
        PrimaryWord::Bare(KaniWordDispatchEnum::Kana(k)) => {
            assert_eq!(k.seq, 7);
            assert_eq!(k.text, "たべ");
        }
        _ => panic!("expected a bare kana word"),
    }
}

#[test]
fn destem_and_patch_trim_the_reading() {
    assert_eq!(destem("のめば", 1), "のめ");
    assert_eq!(destem("のめば", 0), "のめば");
    assert_eq!(destem("の", 3), "の");
    assert_eq!(trim_kana("いって", 0, Some(("て", "ちゃ"))), "いっちゃ");
    assert_eq!(trim_kana("たべる", 1, None), "たべ");
    let out = def_abbr_suffix_body(
        vec![KaniWordDispatchEnum::Kana(kana(6, "のんで"))],
        &vec![None],
        "飲ん",
        "じゃ",
        1,
        Some(("で", "")),
    );
    assert!(matches!(&out[0], KaniWordDispatchEnum::Proxy(p) if p.text == "飲んじゃ" && p.kana == "じゃ"));
}
