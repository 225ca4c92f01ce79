use kaniran_core::counter::{
    args, args_multi, args_suffix, digit_opts, find_source, Common, CounterArgs, CounterClass, CounterSource,
    DigitOp, DigitOptKey,
};
use kaniran_core::word::{KanaText, KanjiText, SimpleText, SuffixKind};

fn kanji(seq: i32, text: &str) -> KanjiText {
    KanjiText {
        id: 0,
        seq,
        text: text.to_string(),
        ord: 0,
        common: None,
        common_tags: String::new(),
        conjugate_p: false,
        nokanji: false,
        best_kana: None,
        state: SimpleText::default(),
    }
}

fn kana(seq: i32, text: &str) -> KanaText {
    KanaText {
        id: 0,
        seq,
        text: text.to_string(),
        ord: 0,
        common: None,
        common_tags: String::new(),
        conjugate_p: false,
        nokanji: false,
        best_kanji: None,
        state: SimpleText::default(),
    }
}

#[test]
fn builders_set_one_field() {
    let a = CounterArgs::new(CounterClass::Text, "本", "ほん")
        .digit_set(vec![1, 2])
        .allowed(vec![3])
        .foreign(true)
        .common(Common::Value(5))
        .accepts(vec![SuffixKind::Kan])
        .suffix_descriptions(vec!["x".to_string()])
        .ordinalp(true)
        .suffix("め")
        .digit_opts(digit_opts(&[(DigitOptKey(3), &[DigitOp::Rendaku][..])]));
    assert_eq!(a.text, "本");
    assert_eq!(a.kana, "ほん");
    assert_eq!(a.digit_set, vec![1, 2]);
    assert_eq!(a.allowed, vec![3]);
    assert!(a.foreign && a.ordinalp);
    assert_eq!(a.common, Common::Value(5));
    assert_eq!(a.suffix.as_deref(), Some("め"));
    assert_eq!(a.digit_opts.len(), 1);
    assert_eq!(a.digit_opts[0].key, DigitOptKey(3));
    let d = CounterArgs::new(CounterClass::Age, "歳", "さい");
    assert!(d.source.is_none() && !d.foreign && d.common == Common::Inherit && d.suffix.is_none());
}

#[test]
fn source_prefers_kanji_then_first_match() {
    let kj = vec![kanji(1, "本"), kanji(2, "本")];
    let kn = vec![kana(3, "ほん")];
    assert!(matches!(find_source("本", &kj, &kn), Some(CounterSource::Kanji(ref k)) if k.seq == 1));
    assert!(matches!(find_source("ほん", &kj, &kn), Some(CounterSource::Kana(ref k)) if k.seq == 3));
    assert!(find_source("枚", &kj, &kn).is_none());
}

#[test]
fn recipes() {
    let kj = vec![kanji(1, "日")];
    let a = args(CounterClass::DaysKun, "日", "か", &kj, &[]);
    assert!(matches!(a.source, Some(CounterSource::Kanji(_))));
    let m = args_multi(CounterClass::Text, &["日", "月"], "x", &kj, &[]);
    assert_eq!(m.len(), 2);
    assert!(m[1].source.is_none());
    assert_eq!(m[1].text, "月");
    let s = args_suffix(CounterClass::Months, ("日", "目"), ("にち", "め"), &kj, &[]);
    assert_eq!(s.text, "日目");
    assert_eq!(s.kana, "にち");
    assert_eq!(s.suffix.as_deref(), Some("め"));
    assert!(matches!(s.source, Some(CounterSource::Kanji(ref k)) if k.text == "日"));
    let d = digit_opts(&[(DigitOptKey(3), &[DigitOp::Rendaku][..]), (DigitOptKey(4), &[DigitOp::Handakuten, DigitOp::Kana("よ")][..])]);
    assert_eq!(d[1].ops, vec![DigitOp::Handakuten, DigitOp::Kana("よ")]);
}
