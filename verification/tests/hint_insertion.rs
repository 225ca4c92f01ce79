use kaniran_core::dict_predicates::is_rareru;
use kaniran_core::hint::{
    easy_hint_applies, finish_simple_hint, insert_hints, parse_kanji_split, true_kana_and_len, KANA_HINT_MOD,
    KANA_HINT_SPACE,
};
use kaniran_core::word::KaniHintKind;

/// Empty hints is a no-op.
#[test]
fn empty_hints_returns_input() {
    assert_eq!(insert_hints("こんにちは", &[]), "こんにちは");
}

/// `:mod` at position `len-1` inserts the mod sentinel before the last character.
#[test]
fn mod_before_last_char() {
    let out = insert_hints("こんにちは", &[(KaniHintKind::Mod, 4)]);
    assert_eq!(out, format!("こんにち{}は", KANA_HINT_MOD));
}

/// Position 0 prefixes the sentinel before the entire string.
#[test]
fn position_zero_prefixes() {
    let out = insert_hints("は", &[(KaniHintKind::Mod, 0)]);
    assert_eq!(out, format!("{}は", KANA_HINT_MOD));
}

/// Position equal to length suffixes after the entire string.
#[test]
fn position_equal_to_length_suffixes() {
    let out = insert_hints("ab", &[(KaniHintKind::Space, 2)]);
    assert_eq!(out, format!("ab{}", KANA_HINT_SPACE));
}

/// Out-of-range positions are silently dropped.
#[test]
fn out_of_range_position_dropped() {
    assert_eq!(insert_hints("ab", &[(KaniHintKind::Mod, 5)]), "ab");
}

/// Multiple hints at the same position emit in the supplied order.
#[test]
fn multiple_hints_same_position_keep_supplied_order() {
    let out = insert_hints("ab", &[(KaniHintKind::Space, 1), (KaniHintKind::Mod, 1)]);
    assert_eq!(out, format!("a{}{}b", KANA_HINT_SPACE, KANA_HINT_MOD));
}

/// Mixed `:space` + `:mod` at different positions.
#[test]
fn mixed_kinds_at_different_positions() {
    let out = insert_hints("ところへ", &[(KaniHintKind::Space, 3), (KaniHintKind::Mod, 3)]);
    assert_eq!(out, format!("ところ{}{}へ", KANA_HINT_SPACE, KANA_HINT_MOD));
}

/// Each of the four suffixes, a non-rareru form, the empty string, a
/// rareru substring not at the end, and a kana-only suffix.
#[test]
fn is_rareru_fixtures() {
    let cases: &[(&str, bool)] = &[
        ("食べられる", true),
        ("食べられます", true),
        ("食べられない", true),
        ("食べられません", true),
        ("食べる", false),
        ("", false),
        ("られるよ", false),
        ("られる", true),
    ];
    for (text, expected) in cases {
        assert_eq!(is_rareru(text), *expected, "text={text:?}");
    }
}

fn check_typical(text_hints: (String, Vec<(KaniHintKind, usize)>)) {
    let (text, hints) = text_hints;
    assert_eq!(text, "郷に入っては郷に従え");
    assert_eq!(
        hints,
        vec![
            (KaniHintKind::Space, 1),
            (KaniHintKind::Space, 2),
            (KaniHintKind::Space, 5),
            (KaniHintKind::Mod, 5),
            (KaniHintKind::Space, 6),
            (KaniHintKind::Space, 7),
            (KaniHintKind::Space, 8),
        ]
    );
}

/// Hints fire at every interior space plus the は modifier.
#[test]
fn engines_parse_typical_easy_hint() {
    check_typical(parse_kanji_split("郷 に 入って は 郷 に 従え"));
}

/// とは as the first part emits no modifier hint.
#[test]
fn engines_parse_with_toha_emits_mod() {
    let (text, hints) = parse_kanji_split("とは 言うものの");
    assert_eq!(text, "とは言うものの");
    assert_eq!(hints, vec![(KaniHintKind::Space, 2),]);
}

/// A single part has no interior space and no hints.
#[test]
fn engines_parse_single_part_emits_no_hints() {
    let (text, hints) = parse_kanji_split("おはよう");
    assert_eq!(text, "おはよう");
    assert!(hints.is_empty());
}

/// は inside emits a modifier hint at its own position.
#[test]
fn engines_parse_ha_in_middle() {
    let (text, hints) = parse_kanji_split("出る 釘 は 打たれる");
    assert_eq!(text, "出る釘は打たれる");
    assert_eq!(
        hints,
        vec![
            (KaniHintKind::Space, 2),
            (KaniHintKind::Space, 3),
            (KaniHintKind::Mod, 3),
            (KaniHintKind::Space, 4),
        ]
    );
}

/// Hints fire at every interior space plus the は modifier.
#[test]
fn kani_hint_engine_parse_typical_easy_hint() {
    check_typical(parse_kanji_split("郷 に 入って は 郷 に 従え"));
}

/// とは as the first part emits no modifier hint.
#[test]
fn kani_hint_engine_parse_with_toha_emits_mod() {
    let (text, hints) = parse_kanji_split("とは 言うものの");
    assert_eq!(text, "とは言うものの");
    assert_eq!(hints, vec![(KaniHintKind::Space, 2),]);
}

/// A single part has no interior space and no hints.
#[test]
fn kani_hint_engine_parse_single_part_emits_no_hints() {
    let (text, hints) = parse_kanji_split("おはよう");
    assert_eq!(text, "おはよう");
    assert!(hints.is_empty());
}

/// は inside emits a modifier hint at its own position.
#[test]
fn kani_hint_engine_parse_ha_in_middle() {
    let (text, hints) = parse_kanji_split("出る 釘 は 打たれる");
    assert_eq!(text, "出る釘は打たれる");
    assert_eq!(
        hints,
        vec![
            (KaniHintKind::Space, 2),
            (KaniHintKind::Space, 3),
            (KaniHintKind::Mod, 3),
            (KaniHintKind::Space, 4),
        ]
    );
}

#[test]
fn leading_space_gives_no_hint_at_position_zero() {
    let (text, hints) = parse_kanji_split(" は");
    assert_eq!(text, "は");
    assert!(hints.is_empty());
    let (text, hints) = parse_kanji_split(" は 犬");
    assert_eq!(text, "は犬");
    assert!(matches!(hints.as_slice(), [(KaniHintKind::Space, 1)]));
}

#[test]
fn simple_hint_helpers() {
    assert_eq!(finish_simple_hint(None, &[(KaniHintKind::Space, 1)]), None);
    let hinted = finish_simple_hint(Some("あいう".to_string()), &[(KaniHintKind::Space, 1)]).unwrap();
    assert_eq!(hinted, insert_hints("あいう", &[(KaniHintKind::Space, 1)]));
    assert_ne!(hinted, "あいう");
    assert_eq!(true_kana_and_len(Some("あいう".to_string())), Some(("あいう".to_string(), 3)));
    assert_eq!(true_kana_and_len(None), None);
    let kana = kaniran_core::word::KaniWordDispatchEnum::Kana(kaniran_core::word::KanaText {
        id: 0,
        seq: 1,
        text: "あ".into(),
        ord: 0,
        common: None,
        common_tags: String::new(),
        conjugate_p: false,
        nokanji: false,
        best_kanji: None,
        state: kaniran_core::word::SimpleText::default(),
    });
    assert!(easy_hint_applies(&kana));
}
