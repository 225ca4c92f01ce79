use kaniran_core::loader::{nf_tags_ok, parses_i32_exec};
use kaniran_core::loader::{
    conj_readings, conj_target, dedupe_keep_last, dedupe_keep_last_pairs, made_new_entry, new_source_readings,
    plan_readings, plan_sense, sort_conj_readings, ConjTarget, ReadingElement, ReadingTable, SenseElement,
    SENSE_PROP_TAGS, TABLE_NAMES,
};

fn s(x: &str) -> String {
    x.to_string()
}

#[test]
fn dedupe_keeps_last_occurrence() {
    assert_eq!(dedupe_keep_last(vec![s("a"), s("b"), s("a"), s("c")]), vec![s("b"), s("a"), s("c")]);
    assert!(dedupe_keep_last(vec![]).is_empty());
    assert_eq!(
        dedupe_keep_last_pairs(vec![(s("x"), s("1")), (s("y"), s("2")), (s("x"), s("1"))]),
        vec![(s("y"), s("2")), (s("x"), s("1"))]
    );
}

#[test]
fn readings_sorted_stably_by_ord_then_onum() {
    let cells = vec![
        (s("c"), 0, s("C"), 1, 0),
        (s("a"), 1, s("A"), 0, 1),
        (s("b"), 0, s("B"), 0, 1),
        (s("d"), 0, s("D"), 0, 0),
    ];
    let sorted = sort_conj_readings(&cells);
    let order: Vec<&str> = sorted.iter().map(|e| e.0.as_str()).collect();
    assert_eq!(order, vec!["d", "a", "b", "c"]);
}

#[test]
fn conj_readings_split_and_dedupe() {
    let cells = vec![
        (s("食べた"), 1, s("食べる"), 0, 0),
        (s("たべた"), 0, s("たべる"), 1, 0),
        (s("食べた"), 1, s("食べる"), 2, 0),
    ];
    let r = conj_readings(&cells).unwrap();
    assert_eq!(r.kanji_readings, vec![s("食べた")]);
    assert_eq!(r.kana_readings, vec![s("たべた")]);
    assert_eq!(r.source_readings.len(), 3);
    assert_eq!(r.source_readings[1], (s("たべた"), s("たべる")));
    assert!(conj_readings(&[(s("食"), 1, s("食"), 0, 0)]).is_none());
    assert!(conj_readings(&[]).is_none());
}

#[test]
fn conjugation_targets() {
    assert_eq!(conj_target(&[10, 20], 20, None, 99), ConjTarget::Skip);
    assert_eq!(conj_target(&[10, 20], 5, Some(10), 99), ConjTarget::Skip);
    assert_eq!(conj_target(&[10, 20], 5, Some(7), 99), ConjTarget::Existing(10));
    assert_eq!(conj_target(&[], 5, None, 99), ConjTarget::New(99));
    assert!(made_new_entry(ConjTarget::New(1)));
    assert!(!made_new_entry(ConjTarget::Existing(1)));
    assert!(!made_new_entry(ConjTarget::Skip));
}

#[test]
fn source_readings_minus_recorded() {
    let sr = vec![(s("a"), s("A")), (s("b"), s("B")), (s("a"), s("A")), (s("c"), s("C"))];
    let old = vec![(s("b"), s("B"))];
    assert_eq!(new_source_readings(&sr, &old), vec![(s("a"), s("A")), (s("c"), s("C"))]);
    assert_eq!(new_source_readings(&sr, &sr).len(), 0);
}

fn elem(reading: &str, infos: &[&str], nokanji: bool, restr: &[&str], pri: &[&str]) -> ReadingElement {
    ReadingElement {
        reading: s(reading),
        infos: infos.iter().map(|x| s(x)).collect(),
        nokanji,
        restrictions: restr.iter().map(|x| s(x)).collect(),
        priorities: pri.iter().map(|x| s(x)).collect(),
    }
}

#[test]
fn readings_plan() {
    let es = vec![
        elem("あ", &[], false, &["亜"], &["news1", "nf12"]),
        elem("い", &["ok"], true, &["以"], &["ichi1"]),
        elem("う", &[], true, &[], &["nf03", "spec1"]),
        elem("え", &["ik"], false, &[], &[]),
    ];
    let p = plan_readings(&es);
    assert_eq!(p.n_added, 3);
    assert!(p.primary_nokanji);
    assert_eq!(p.restrictions, vec![(s("あ"), s("亜"))]);
    assert_eq!(p.rows[0].text, "あ");
    assert_eq!(p.rows[0].common, Some(12));
    assert_eq!(p.rows[0].common_tags, "[news1][nf12]");
    assert_eq!(p.rows[1].text, "う");
    assert_eq!(p.rows[1].ord, 1);
    assert_eq!(p.rows[1].common, Some(3));
    assert_eq!(p.rows[2].common, None);
    assert_eq!(p.rows[2].common_tags, "");
    let q = plan_readings(&[elem("か", &[], false, &[], &["ichi1"])]);
    assert_eq!(q.rows[0].common, Some(0));
    assert!(!q.primary_nokanji);
    let neg = plan_readings(&[elem("き", &[], false, &[], &["nf-4", "nf+7"])]);
    assert_eq!(neg.rows[0].common, Some(7));
}

#[test]
fn sense_plan_numbers_rows() {
    let mut props = vec![vec![]; 7];
    props[0] = vec![s("n"), s("vs")];
    props[3] = vec![s("comp")];
    let sense = SenseElement { glosses: vec![s("study"), s("learning")], props };
    let r = plan_sense(&sense, 2);
    assert_eq!(r.ord, 2);
    assert_eq!(r.glosses, vec![(s("study"), 0), (s("learning"), 1)]);
    assert_eq!(r.props, vec![("pos", s("n"), 0), ("pos", s("vs"), 1), ("field", s("comp"), 0)]);
    assert_eq!(SENSE_PROP_TAGS.len(), 7);
}

#[test]
fn reading_table_statements() {
    assert!(ReadingTable::KanaText.insert_sql().starts_with("INSERT INTO kana_text"));
    assert!(ReadingTable::KanjiText.insert_sql().contains("best_kana"));
    assert_eq!(
        ReadingTable::KanjiText.update_sql(),
        "UPDATE entry SET primary_nokanji = $1, n_kanji = $2 WHERE seq = $3"
    );
    assert_eq!(TABLE_NAMES.len(), 10);
    assert_eq!(TABLE_NAMES[0], "entry");
}

#[test]
fn i32_spelling() {
    assert!(parses_i32_exec("12"));
    assert!(parses_i32_exec("-2147483648"));
    assert!(!parses_i32_exec("2147483648"));
    assert!(parses_i32_exec("+007"));
    assert!(!parses_i32_exec(""));
    assert!(!parses_i32_exec("-"));
    assert!(!parses_i32_exec("1a"));
    assert!(!parses_i32_exec("99999999999999999999x"));
    assert!(nf_tags_ok(&vec![s("news1"), s("nf04")]));
    assert!(!nf_tags_ok(&vec![s("nfx")]));
    assert!(nf_tags_ok(&vec![s("n")]));
}
