use kaniran_core::substring::{
    break_positions, is_final_segment, join_found_substrings, local_kanji_breaks, substring_queries, BreakRule, KanjiBreaks, SubstringQuery,
};

fn q(start: usize, end: usize, as_hiragana: bool, counter: Option<usize>) -> SubstringQuery {
    SubstringQuery { start, end, as_hiragana, counter }
}

#[test]
fn queries_skip_sticky_positions() {
    // コーヒー: sticky position 1, one katakana group 0..4.
    let r = substring_queries(4, &[1], &[(0, 4)], &[], 10);
    assert_eq!(
        r,
        vec![q(0, 2, false, None), q(0, 3, false, None), q(0, 4, true, None), q(2, 3, false, None), q(2, 4, false, None), q(3, 4, false, None)]
    );
}

#[test]
fn queries_capped_by_max_length() {
    let r = substring_queries(3, &[], &[], &[], 1);
    assert_eq!(r, vec![q(0, 1, false, None), q(1, 2, false, None), q(2, 3, false, None)]);
    assert!(substring_queries(0, &[], &[], &[], 5).is_empty());
}

#[test]
fn number_groups_give_counters() {
    // 5本: number group 0..1.
    let r = substring_queries(2, &[], &[], &[(0, 1)], 10);
    assert_eq!(r, vec![q(0, 1, false, Some(1)), q(0, 2, false, Some(1)), q(1, 2, false, None)]);
    // A group longer than 20 characters gives no counter.
    let long = substring_queries(22, &[], &[], &[(0, 21)], 30);
    assert_eq!(long[20], q(0, 21, false, None));
}

#[test]
fn kanji_breaks_follow_reachable_starts() {
    let mut kb = KanjiBreaks::new();
    kb.record_hit(0, 1, vec![]);
    kb.record_hit(0, 2, vec![1]);
    kb.record_hit(1, 2, vec![9]);
    kb.record_hit(2, 3, vec![2]);
    // start 5 is not an end seen so far: nothing added.
    kb.record_hit(5, 6, vec![7]);
    assert_eq!(kb.kanji_break, vec![2, 9, 1]);
    assert_eq!(kb.ends, vec![6, 3, 2, 1]);
    kb.record_hit(1, 3, vec![1]);
    assert_eq!(kb.ends, vec![6, 3, 2, 1]);
    assert_eq!(kb.finish(), vec![2, 9, 1]);
}

#[test]
fn break_rules() {
    assert_eq!(break_positions(BreakRule::Force, 4, 6, vec![]), vec![5]);
    assert_eq!(break_positions(BreakRule::Force, 4, 5, vec![]), Vec::<usize>::new());
    assert_eq!(break_positions(BreakRule::Force, 4, 8, vec![]), vec![5, 6, 7]);
    assert_eq!(break_positions(BreakRule::NoBreak, 1, 3, vec![2]), Vec::<usize>::new());
    assert_eq!(break_positions(BreakRule::Sequential, 2, 4, vec![3]), vec![3]);
}

#[test]
fn segment_edges() {
    assert_eq!(local_kanji_breaks(&[3, 5], 3, 5), vec![2, 0]);
    assert_eq!(local_kanji_breaks(&[3], 3, 5), vec![0]);
    assert_eq!(local_kanji_breaks(&[], 3, 5), Vec::<usize>::new());
    assert!(is_final_segment(4, 4, false));
    assert!(is_final_segment(3, 4, true));
    assert!(!is_final_segment(3, 4, false));
    assert!(is_final_segment(0, 0, true));
    assert!(!is_final_segment(5, 4, true));
}

fn kw(seq: i32) -> kaniran_core::word::KaniWordDispatchEnum {
    kaniran_core::word::KaniWordDispatchEnum::Kana(kaniran_core::word::KanaText {
        id: 0,
        seq,
        text: "x".to_string(),
        ord: 0,
        common: None,
        common_tags: String::new(),
        conjugate_p: false,
        nokanji: false,
        best_kanji: None,
        state: kaniran_core::word::SimpleText::default(),
    })
}

#[test]
fn found_substrings_keep_words_and_breaks() {
    let qs = vec![q(0, 1, false, None), q(0, 2, false, None), q(1, 2, false, None), q(3, 4, false, None)];
    let (res, kb) = join_found_substrings(
        &qs,
        vec![vec![kw(1)], vec![], vec![kw(2), kw(3)], vec![kw(4)]],
        vec![vec![], vec![1], vec![5, 7], vec![9]],
    );
    assert_eq!(res.len(), 3);
    assert_eq!((res[0].0, res[0].1, res[0].2.len()), (0, 1, 1));
    assert_eq!((res[1].0, res[1].1, res[1].2.len()), (1, 2, 2));
    assert_eq!((res[2].0, res[2].1, res[2].2.len()), (3, 4, 1));
    for (s, e, segs) in &res {
        for g in segs {
            assert_eq!((g.start, g.end), (*s, *e));
            assert!(g.score.is_none() && g.info.is_none() && g.top.is_none() && g.text.is_none());
        }
    }
    // 3 is not where an earlier found substring ended, so its 9 is not kept.
    assert_eq!(kb, vec![5, 7]);
    let (res, kb) = join_found_substrings(&[], vec![], vec![]);
    assert!(res.is_empty() && kb.is_empty());
}

#[test]
fn substring_join_spans_ordered_and_off_sticky() {
    // A 4-character sentence, sticky position 2, words of at most 3 characters.
    let qs = substring_queries(4, &[2], &[], &[], 3);
    let words: Vec<Vec<kaniran_core::word::KaniWordDispatchEnum>> =
        qs.iter().map(|q| if (q.end - q.start) % 2 == 1 { vec![kw(q.start as i32)] } else { vec![] }).collect();
    let breaks: Vec<Vec<usize>> = qs.iter().map(|q| vec![q.start + 1, q.start + 1]).collect();
    let (res, kb) = join_found_substrings(&qs, words, breaks);
    assert!(!res.is_empty());
    for w in res.windows(2) {
        assert!((w[0].0, w[0].1) < (w[1].0, w[1].1));
    }
    for (s, e, segs) in &res {
        assert!(s < e && *e <= 4 && e - s <= 3 && *s != 2 && *e != 2 && !segs.is_empty());
    }
    let mut sorted = kb.clone();
    sorted.sort();
    sorted.dedup();
    assert_eq!(sorted.len(), kb.len());
}
