use kaniran_core::context::{is_arch, kana_plan, suffix_cache, suffix_class, KaniranContext, PrimaryKana};
use kaniran_core::segment::{kani_lite_get_array, kani_lite_register_item, KaniLitePath, KaniLitePathElement, KaniLiteTopArray};
use kaniran_core::synergy::Synergy;
use kaniran_core::suffix::{SuffixCache, SuffixClass};
use kaniran_core::word::{KanaText, KanjiText, KaniSimpleTextDispatchEnum, SimpleText};

fn ctx(disable_hints: bool) -> KaniranContext {
    KaniranContext {
        suffix_cache: SuffixCache::new(),
        suffix_class: SuffixClass::new(),
        is_arch: vec![2, 4],
        disable_hints,
        suffix_map_temp: None,
        suffix_next_end: None,
    }
}

#[test]
fn top_array_keeps_best_scores_in_order() {
    let mut top = KaniLiteTopArray::new(3);
    for s in [5, 9, 1, 7, 9, 3] {
        kani_lite_register_item(&mut top, s, KaniLitePath::nil());
    }
    let scores: Vec<i32> = kani_lite_get_array(&top).iter().map(|x| x.as_ref().unwrap().score).collect();
    assert_eq!(scores, vec![9, 9, 7]);
    assert_eq!(top.count, 6);
    let mut small = KaniLiteTopArray::new(4);
    kani_lite_register_item(&mut small, 2, KaniLitePath::nil());
    assert_eq!(kani_lite_get_array(&small).len(), 1);
}

#[test]
fn context_lookups() {
    let c = ctx(false);
    assert!(is_arch(&c, 4));
    assert!(!is_arch(&c, 3));
    assert!(suffix_cache(&c).is_empty());
    assert!(suffix_class(&c).get(1).is_none());
}

#[test]
fn kana_plans() {
    let kana = KaniSimpleTextDispatchEnum::Kana(KanaText {
        id: 0,
        seq: 1,
        text: "かな".to_string(),
        ord: 0,
        common: None,
        common_tags: String::new(),
        conjugate_p: false,
        nokanji: false,
        best_kanji: None,
        state: SimpleText::default(),
    });
    let p = kana_plan(&ctx(false), &kana);
    assert!(p.try_hint);
    assert!(matches!(p.primary, PrimaryKana::Text(ref t) if t == "かな"));
    assert!(!kana_plan(&ctx(true), &kana).try_hint);
    let kanji = KaniSimpleTextDispatchEnum::Kanji(KanjiText {
        id: 0,
        seq: 1,
        text: "仮名".to_string(),
        ord: 0,
        common: None,
        common_tags: String::new(),
        conjugate_p: false,
        nokanji: false,
        best_kana: None,
        state: SimpleText { hintedp: true },
    });
    let q = kana_plan(&ctx(false), &kanji);
    assert!(!q.try_hint);
    assert!(matches!(q.primary, PrimaryKana::Lookup));
}

fn syn(score: i32) -> KaniLitePathElement {
    KaniLitePathElement::Synergy(Synergy {
        description: None,
        connector: None,
        score,
        start: 0,
        end: 0,
    })
}

fn syn_score(e: Option<&KaniLitePathElement>) -> Option<i32> {
    match e {
        Some(KaniLitePathElement::Synergy(s)) => Some(s.score),
        _ => None,
    }
}

#[test]
fn path_cons_head_tail() {
    let empty = KaniLitePath::nil();
    assert!(empty.is_empty());
    assert!(empty.head().is_none());
    assert!(empty.tail().is_empty());
    let one = KaniLitePath::cons(syn(1), &empty);
    let two = KaniLitePath::cons(syn(2), &one);
    assert_eq!(syn_score(two.head()), Some(2));
    let back = two.tail();
    assert_eq!(syn_score(back.head()), Some(1));
    assert!(back.tail().is_empty());
    let mut it = two.iter();
    assert_eq!(syn_score(it.next()), Some(2));
    assert_eq!(syn_score(it.next()), Some(1));
    assert!(it.next().is_none());
    // The longer path does not change the one it extends.
    assert_eq!(syn_score(one.head()), Some(1));
}

#[test]
fn top_array_is_stable_among_equal_scores() {
    let mut top = KaniLiteTopArray::new(3);
    for (score, tag) in [(5, 1), (7, 2), (5, 3), (7, 4), (5, 5)] {
        kani_lite_register_item(&mut top, score, KaniLitePath::cons(syn(tag), &KaniLitePath::nil()));
    }
    let got: Vec<(i32, Option<i32>)> = kani_lite_get_array(&top)
        .iter()
        .map(|x| {
            let it = x.as_ref().unwrap();
            (it.score, syn_score(it.payload.head()))
        })
        .collect();
    assert_eq!(got, vec![(7, Some(2)), (7, Some(4)), (5, Some(1))]);
    assert_eq!(top.count, 5);
}
