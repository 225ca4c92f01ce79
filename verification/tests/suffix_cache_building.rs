use kaniran_core::suffix_load::{build_suffix_caches, suffix_load_plan, KanaFormSource, LoadError, SuffixLoad};
use kaniran_core::word::{KanaText, SimpleText};

fn kana(seq: i32, text: &str) -> KanaText {
    KanaText {
        id: 0,
        seq,
        text: text.to_string(),
        ord: 0,
        common: None,
        common_tags: String::new(),
        conjugate_p: false,
        nokanji: false,
        best_kanji: None,
        state: SimpleText::default(),
    }
}

/// A source with every named form the plan asks for, and the given forms.
fn source(forms: Vec<(i32, Vec<KanaText>)>) -> KanaFormSource {
    let mut named = Vec::new();
    for op in suffix_load_plan() {
        if let SuffixLoad::Form(_, seq, text, _, _, _) = op {
            named.push((seq, text.to_string(), kana(seq, text)));
        }
    }
    KanaFormSource { forms, named }
}

#[test]
fn missing_named_form_is_row_not_found() {
    let src = KanaFormSource { forms: vec![], named: vec![] };
    assert!(matches!(build_suffix_caches(&src), Err(LoadError::RowNotFound)));
}

#[test]
fn plan_has_every_load_in_order() {
    let plan = suffix_load_plan();
    assert_eq!(plan.len(), 72);
    assert!(matches!(plan[0], SuffixLoad::Conjs("chau", 2013800, None)));
    assert!(matches!(plan[71], SuffixLoad::Abbr("ii", "ええ", false)));
}

#[test]
fn join_prepends_abbreviation_to_existing_entry() {
    let src = source(vec![]);
    let (cache, class) = build_suffix_caches(&src).unwrap();
    // ちゃ is cached by the は form as :chau, then :teba is joined in front.
    let items = cache.get("ちゃ").unwrap();
    assert_eq!(items.len(), 2);
    assert_eq!(items[0].0, "teba");
    assert!(items[0].1.is_none());
    assert_eq!(items[1].0, "chau");
    assert_eq!(items[1].1.as_ref().unwrap().seq, 2028920);
    // じゃ has no abbreviation of its own.
    let ja = cache.get("じゃ").unwrap();
    assert_eq!(ja.len(), 1);
    assert_eq!(ja[0].0, "chau");
    assert_eq!(class.get(2028920).unwrap(), "ha");
}

#[test]
fn plain_abbreviations_replace() {
    let src = source(vec![]);
    let (cache, _) = build_suffix_caches(&src).unwrap();
    let n = cache.get("ん").unwrap();
    assert_eq!(n.len(), 1);
    assert_eq!(n[0].0, "nai-n");
    assert!(cache.get("ろう").is_some());
    assert_eq!(cache.get("ろう").unwrap()[0].0, "rou");
    assert!(cache.get("だろう").is_none());
}

#[test]
fn iru_forms_cache_long_and_short_texts() {
    let src = source(vec![(1577980, vec![kana(1577980, "いる"), kana(1577980, "い")])]);
    let (cache, class) = build_suffix_caches(&src).unwrap();
    let long = cache.get("いる").unwrap();
    assert_eq!(long[0].0, "teiru+");
    let short = cache.get("る").unwrap();
    assert_eq!(short[0].0, "teiru");
    let one = cache.get("い").unwrap();
    assert_eq!(one[0].0, "teiru");
    assert_eq!(class.get(1577980).unwrap(), "iru");
}

#[test]
fn iku_short_form_is_first_write_wins() {
    // いて is loaded as a form of iru first, so the iku short form て
    // (already cached by iru's いて tail) is kept.
    let src = source(vec![
        (1577980, vec![kana(1577980, "いて")]),
        (1578850, vec![kana(1578850, "いって"), kana(1578850, "くる")]),
    ]);
    let (cache, class) = build_suffix_caches(&src).unwrap();
    assert_eq!(cache.get("て").unwrap()[0].0, "teiru");
    assert_eq!(cache.get("いって").unwrap()[0].0, "te");
    assert_eq!(cache.get("って").unwrap()[0].0, "te");
    // Forms not starting with い are skipped.
    assert!(cache.get("くる").is_none());
    assert_eq!(class.get(1578850).unwrap(), "iku");
}

#[test]
fn conjs_use_key_as_default_class() {
    let src = source(vec![(2013800, vec![kana(2013800, "ちゃう")]), (1577985, vec![kana(1577985, "おる")])]);
    let (cache, class) = build_suffix_caches(&src).unwrap();
    assert_eq!(cache.get("ちゃう").unwrap()[0].0, "chau");
    assert_eq!(class.get(2013800).unwrap(), "chau");
    assert_eq!(cache.get("おる").unwrap()[0].0, "te");
    assert_eq!(class.get(1577985).unwrap(), "oru");
}
