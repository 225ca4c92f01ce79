//! Building the suffix cache and the suffix-class registry from the kana
//! forms of the suffix words, following a fixed load plan.

use vstd::prelude::*;
use crate::alist::alist_get;
use crate::suffix::{items_view, SuffixCache, SuffixClass};
use crate::text::{char_len, chars_of, string_from_chars};
use crate::word::KanaText;

verus! {

/// A load failed: a kana form named by the plan is missing.
#[derive(Debug, Clone, Copy, PartialEq, Eq, Structural)]
pub enum LoadError {
    RowNotFound,
}

/// How the kana form of a `Form` load is looked up.
#[derive(Debug, Clone, Copy, PartialEq, Eq, Structural)]
pub enum FormLookup {
    /// Any kana form of the entry with that text.
    Plain,
    /// Only the root (unconjugated) form with that text.
    Root,
    /// The first conjugated reading with that text derived from the entry.
    ConjOf,
}

/// One step of the suffix load plan.
#[derive(Debug, Clone, Copy)]
pub enum SuffixLoad {
    /// `(key, seq, class)`: every kana form of `seq`, cached under its
    /// own text as `key`; the seq gets the class `class` (or `key`).
    Conjs(&'static str, i32, Option<&'static str>),
    /// `(key, seq, text, lookup, class, as_text)`: the kana form `text`
    /// of `seq`, cached under `as_text` (or its own text) as `key`; the
    /// seq gets the class `class` (or `key`).
    Form(&'static str, i32, &'static str, FormLookup, Option<&'static str>, Option<&'static str>),
    /// The forms of いる: each is cached as `teiru+` (longer than one
    /// character) or `teiru`, its tail without the first character as
    /// `teiru`, and the seq gets the class `iru`.
    Iru(i32),
    /// The forms of いく that start with い: each is cached as `te`, the
    /// seq gets the class `iku`, and the tail without い is cached as
    /// `te` unless something is cached there already.
    Iku(i32),
    /// `(key, text, join)`: an abbreviation with no kana form, cached
    /// under `text` as `key`; with `join` it goes in front of what is
    /// cached there.
    Abbr(&'static str, &'static str, bool),
}

/// The rows the suffix caches are built from.
pub struct KanaFormSource {
    /// Every kana form of a seq, in reading order.
    pub forms: Vec<(i32, Vec<KanaText>)>,
    /// The kana form looked up for a `(seq, text)` of a `Form` step.
    pub named: Vec<(i32, String, KanaText)>,
}

/// The load plan, in the order the loads are applied.
pub open spec fn load_plan() -> Seq<SuffixLoad> {
    seq![
        SuffixLoad::Conjs("chau", 2013800, None),
        SuffixLoad::Conjs("chau", 2210750, None),
        SuffixLoad::Form("chau", 2028920, "は", FormLookup::Plain, Some("ha"), Some("ちゃ")),
        SuffixLoad::Form("chau", 2028920, "は", FormLookup::Plain, Some("ha"), Some("じゃ")),
        SuffixLoad::Conjs("tai", 2017560, None),
        SuffixLoad::Form("tai", 900000, "たそう", FormLookup::Plain, Some("tasou"), None),
        SuffixLoad::Conjs("ren-", 2772730, Some("nikui")),
        SuffixLoad::Conjs("ren-", 2867504, Some("gatai")),
        SuffixLoad::Conjs("te", 1577985, Some("oru")),
        SuffixLoad::Conjs("te", 1296400, Some("aru")),
        SuffixLoad::Iru(1577980),
        SuffixLoad::Conjs("te", 1547720, Some("kuru")),
        SuffixLoad::Conjs("te", 1421850, Some("oku")),
        SuffixLoad::Conjs("to", 2108590, Some("oku")),
        SuffixLoad::Conjs("te", 1305380, Some("chau")),
        SuffixLoad::Conjs("te+space", 1269130, Some("kureru")),
        SuffixLoad::Conjs("te+space", 1535910, Some("morau")),
        SuffixLoad::Conjs("te+space", 1587290, Some("itadaku")),
        SuffixLoad::Iku(1578850),
        SuffixLoad::Form("teii", 2820690, "いい", FormLookup::Plain, Some("ii"), None),
        SuffixLoad::Form("teii", 900001, "もいい", FormLookup::Plain, Some("ii"), Some("もいい")),
        SuffixLoad::Form("te", 2028940, "も", FormLookup::Plain, Some("mo"), None),
        SuffixLoad::Form("kudasai", 1184270, "ください", FormLookup::Root, None, None),
        SuffixLoad::Conjs("suru", 1157170, None),
        SuffixLoad::Conjs("suru", 1421900, Some("itasu")),
        SuffixLoad::Conjs("suru", 2269820, Some("sareru")),
        SuffixLoad::Conjs("suru", 1005160, Some("saseru")),
        SuffixLoad::Conjs("sou", 1006610, None),
        SuffixLoad::Conjs("sou+", 2141080, None),
        SuffixLoad::Form("rou", 1928670, "だろう", FormLookup::Plain, None, Some("ろう")),
        SuffixLoad::Conjs("sugiru", 1195970, None),
        SuffixLoad::Form("sa", 2029120, "さ", FormLookup::Plain, None, None),
        SuffixLoad::Form("ren", 1008120, "つつ", FormLookup::Plain, Some("tsutsu"), None),
        SuffixLoad::Conjs("ren", 2027910, Some("tsutsuaru")),
        SuffixLoad::Form("ren", 1454500, "うる", FormLookup::Plain, Some("uru"), None),
        SuffixLoad::Form("neg", 1529520, "なく", FormLookup::ConjOf, Some("nai"), None),
        SuffixLoad::Conjs("adv", 1375610, Some("naru")),
        SuffixLoad::Conjs("teren", 1012740, Some("yagaru")),
        SuffixLoad::Form("ra", 2067770, "ら", FormLookup::Plain, None, None),
        SuffixLoad::Conjs("rashii", 1013240, None),
        SuffixLoad::Form("desu", 1628500, "です", FormLookup::Plain, None, None),
        SuffixLoad::Form("desho", 1008420, "でしょう", FormLookup::Plain, None, None),
        SuffixLoad::Form("desho", 1008420, "でしょ", FormLookup::Plain, None, None),
        SuffixLoad::Conjs("tosuru", 2136890, None),
        SuffixLoad::Form("kurai", 1154340, "くらい", FormLookup::Plain, None, None),
        SuffixLoad::Form("kurai", 1154340, "ぐらい", FormLookup::Plain, None, None),
        SuffixLoad::Conjs("garu", 1631750, None),
        SuffixLoad::Form("ren", 2016470, "がち", FormLookup::Plain, Some("gachi"), None),
        SuffixLoad::Form("iadj", 2006580, "げ", FormLookup::Plain, None, None),
        SuffixLoad::Form("iadj", 1604890, "め", FormLookup::Plain, Some("me"), None),
        SuffixLoad::Form("ren-", 2606690, "がい", FormLookup::Plain, Some("gai"), None),
        SuffixLoad::Abbr("nai", "ねえ", false),
        SuffixLoad::Abbr("nai", "ねぇ", false),
        SuffixLoad::Abbr("nai", "ねー", false),
        SuffixLoad::Abbr("nai-x", "ず", false),
        SuffixLoad::Abbr("nai-x", "ざる", false),
        SuffixLoad::Abbr("nai-x", "ぬ", false),
        SuffixLoad::Abbr("nai-n", "ん", false),
        SuffixLoad::Abbr("nakereba", "なきゃ", false),
        SuffixLoad::Abbr("nakereba", "なくちゃ", false),
        SuffixLoad::Abbr("nakereba", "ねば", false),
        SuffixLoad::Abbr("teba", "ちゃ", true),
        SuffixLoad::Abbr("reba", "りゃ", false),
        SuffixLoad::Abbr("keba", "きゃ", false),
        SuffixLoad::Abbr("geba", "ぎゃ", false),
        SuffixLoad::Abbr("neba", "にゃ", false),
        SuffixLoad::Abbr("beba", "びゃ", false),
        SuffixLoad::Abbr("meba", "みゃ", false),
        SuffixLoad::Abbr("seba", "しゃ", false),
        SuffixLoad::Abbr("shimashou", "しましょ", false),
        SuffixLoad::Abbr("dewanai", "じゃない", false),
        SuffixLoad::Abbr("ii", "ええ", false),
    ]
}

/// The load plan as a vector.
pub fn suffix_load_plan() -> (r: Vec<SuffixLoad>)
    ensures
        r@ == load_plan(),
{
    let r = vec![
        SuffixLoad::Conjs("chau", 2013800, None),
        SuffixLoad::Conjs("chau", 2210750, None),
        SuffixLoad::Form("chau", 2028920, "は", FormLookup::Plain, Some("ha"), Some("ちゃ")),
        SuffixLoad::Form("chau", 2028920, "は", FormLookup::Plain, Some("ha"), Some("じゃ")),
        SuffixLoad::Conjs("tai", 2017560, None),
        SuffixLoad::Form("tai", 900000, "たそう", FormLookup::Plain, Some("tasou"), None),
        SuffixLoad::Conjs("ren-", 2772730, Some("nikui")),
        SuffixLoad::Conjs("ren-", 2867504, Some("gatai")),
        SuffixLoad::Conjs("te", 1577985, Some("oru")),
        SuffixLoad::Conjs("te", 1296400, Some("aru")),
        SuffixLoad::Iru(1577980),
        SuffixLoad::Conjs("te", 1547720, Some("kuru")),
        SuffixLoad::Conjs("te", 1421850, Some("oku")),
        SuffixLoad::Conjs("to", 2108590, Some("oku")),
        SuffixLoad::Conjs("te", 1305380, Some("chau")),
        SuffixLoad::Conjs("te+space", 1269130, Some("kureru")),
        SuffixLoad::Conjs("te+space", 1535910, Some("morau")),
        SuffixLoad::Conjs("te+space", 1587290, Some("itadaku")),
        SuffixLoad::Iku(1578850),
        SuffixLoad::Form("teii", 2820690, "いい", FormLookup::Plain, Some("ii"), None),
        SuffixLoad::Form("teii", 900001, "もいい", FormLookup::Plain, Some("ii"), Some("もいい")),
        SuffixLoad::Form("te", 2028940, "も", FormLookup::Plain, Some("mo"), None),
        SuffixLoad::Form("kudasai", 1184270, "ください", FormLookup::Root, None, None),
        SuffixLoad::Conjs("suru", 1157170, None),
        SuffixLoad::Conjs("suru", 1421900, Some("itasu")),
        SuffixLoad::Conjs("suru", 2269820, Some("sareru")),
        SuffixLoad::Conjs("suru", 1005160, Some("saseru")),
        SuffixLoad::Conjs("sou", 1006610, None),
        SuffixLoad::Conjs("sou+", 2141080, None),
        SuffixLoad::Form("rou", 1928670, "だろう", FormLookup::Plain, None, Some("ろう")),
        SuffixLoad::Conjs("sugiru", 1195970, None),
        SuffixLoad::Form("sa", 2029120, "さ", FormLookup::Plain, None, None),
        SuffixLoad::Form("ren", 1008120, "つつ", FormLookup::Plain, Some("tsutsu"), None),
        SuffixLoad::Conjs("ren", 2027910, Some("tsutsuaru")),
        SuffixLoad::Form("ren", 1454500, "うる", FormLookup::Plain, Some("uru"), None),
        SuffixLoad::Form("neg", 1529520, "なく", FormLookup::ConjOf, Some("nai"), None),
        SuffixLoad::Conjs("adv", 1375610, Some("naru")),
        SuffixLoad::Conjs("teren", 1012740, Some("yagaru")),
        SuffixLoad::Form("ra", 2067770, "ら", FormLookup::Plain, None, None),
        SuffixLoad::Conjs("rashii", 1013240, None),
        SuffixLoad::Form("desu", 1628500, "です", FormLookup::Plain, None, None),
        SuffixLoad::Form("desho", 1008420, "でしょう", FormLookup::Plain, None, None),
        SuffixLoad::Form("desho", 1008420, "でしょ", FormLookup::Plain, None, None),
        SuffixLoad::Conjs("tosuru", 2136890, None),
        SuffixLoad::Form("kurai", 1154340, "くらい", FormLookup::Plain, None, None),
        SuffixLoad::Form("kurai", 1154340, "ぐらい", FormLookup::Plain, None, None),
        SuffixLoad::Conjs("garu", 1631750, None),
        SuffixLoad::Form("ren", 2016470, "がち", FormLookup::Plain, Some("gachi"), None),
        SuffixLoad::Form("iadj", 2006580, "げ", FormLookup::Plain, None, None),
        SuffixLoad::Form("iadj", 1604890, "め", FormLookup::Plain, Some("me"), None),
        SuffixLoad::Form("ren-", 2606690, "がい", FormLookup::Plain, Some("gai"), None),
        SuffixLoad::Abbr("nai", "ねえ", false),
        SuffixLoad::Abbr("nai", "ねぇ", false),
        SuffixLoad::Abbr("nai", "ねー", false),
        SuffixLoad::Abbr("nai-x", "ず", false),
        SuffixLoad::Abbr("nai-x", "ざる", false),
        SuffixLoad::Abbr("nai-x", "ぬ", false),
        SuffixLoad::Abbr("nai-n", "ん", false),
        SuffixLoad::Abbr("nakereba", "なきゃ", false),
        SuffixLoad::Abbr("nakereba", "なくちゃ", false),
        SuffixLoad::Abbr("nakereba", "ねば", false),
        SuffixLoad::Abbr("teba", "ちゃ", true),
        SuffixLoad::Abbr("reba", "りゃ", false),
        SuffixLoad::Abbr("keba", "きゃ", false),
        SuffixLoad::Abbr("geba", "ぎゃ", false),
        SuffixLoad::Abbr("neba", "にゃ", false),
        SuffixLoad::Abbr("beba", "びゃ", false),
        SuffixLoad::Abbr("meba", "みゃ", false),
        SuffixLoad::Abbr("seba", "しゃ", false),
        SuffixLoad::Abbr("shimashou", "しましょ", false),
        SuffixLoad::Abbr("dewanai", "じゃない", false),
        SuffixLoad::Abbr("ii", "ええ", false),
    ];
    assert(r@ =~= load_plan());
    r
}

/// What is cached under each suffix text, as values.
pub type CacheView = spec_fn(Seq<char>) -> Option<Seq<(Seq<char>, Option<KanaText>)>>;

/// The class of each seq, as values.
pub type ClassView = spec_fn(i32) -> Option<Seq<char>>;

/// `c` with `k` bound to `v`.
pub open spec fn cache_set(c: CacheView, k: Seq<char>, v: Seq<(Seq<char>, Option<KanaText>)>) -> CacheView {
    |x: Seq<char>| if x == k { Some(v) } else { c(x) }
}

/// `c` with `seq` given the class `v`.
pub open spec fn class_set(c: ClassView, seq: i32, v: Seq<char>) -> ClassView {
    |x: i32| if x == seq { Some(v) } else { c(x) }
}

/// Nothing cached, no classes.
pub open spec fn empty_load_state() -> (CacheView, ClassView) {
    (|x: Seq<char>| None, |x: i32| None)
}

/// Whether the cache and the registry hold exactly `st`.
pub open spec fn holds_state(cache: SuffixCache, class: SuffixClass, st: (CacheView, ClassView)) -> bool {
    &&& forall|t: Seq<char>| #[trigger] cache.spec_get(t) == (st.0)(t)
    &&& forall|s: i32| #[trigger] class.spec_get(s) == (st.1)(s)
}

/// The kana forms of `seq` in the source (none when it lists none).
pub open spec fn forms_of(forms: Seq<(i32, Vec<KanaText>)>, seq: i32) -> Seq<KanaText> {
    match alist_get(Seq::new(forms.len(), |i: int| (forms[i].0, forms[i].1@)), seq) {
        Some(v) => v,
        None => Seq::empty(),
    }
}

/// The first kana form recorded for `(seq, text)`.
pub open spec fn named_of(named: Seq<(i32, String, KanaText)>, seq: i32, text: Seq<char>) -> Option<KanaText>
    decreases named.len(),
{
    if named.len() == 0 {
        None
    } else if named[0].0 == seq && named[0].1@ == text {
        Some(named[0].2)
    } else {
        named_of(named.drop_first(), seq, text)
    }
}

/// The value of an optional string.
pub open spec fn opt_view(o: Option<&str>) -> Option<Seq<char>> {
    match o {
        Some(s) => Some(s@),
        None => None,
    }
}

/// Caching one kana form under `key`.
pub open spec fn kf_step(
    st: (CacheView, ClassView),
    key: Seq<char>,
    kf: KanaText,
    class: Option<Seq<char>>,
    text: Option<Seq<char>>,
) -> (CacheView, ClassView) {
    let t = match text {
        Some(t) => t,
        None => kf.text@,
    };
    let c = match class {
        Some(c) => c,
        None => key,
    };
    (cache_set(st.0, t, seq![(key, Some(kf))]), class_set(st.1, kf.seq, c))
}

/// Caching every form of `kfs` under `key`, in order.
pub open spec fn conjs_step(
    st: (CacheView, ClassView),
    key: Seq<char>,
    kfs: Seq<KanaText>,
    class: Option<Seq<char>>,
) -> (CacheView, ClassView)
    decreases kfs.len(),
{
    if kfs.len() == 0 {
        st
    } else {
        conjs_step(kf_step(st, key, kfs[0], class, None), key, kfs.drop_first(), class)
    }
}

/// Caching one form of いる.
pub open spec fn iru_one(st: (CacheView, ClassView), kf: KanaText) -> (CacheView, ClassView) {
    let tkf = kf.text@;
    let key = if tkf.len() > 1 { "teiru+"@ } else { "teiru"@ };
    let c1 = cache_set(st.0, tkf, seq![(key, Some(kf))]);
    let k1 = class_set(st.1, kf.seq, "iru"@);
    if tkf.len() > 1 {
        (cache_set(c1, tkf.drop_first(), seq![("teiru"@, Some(kf))]), k1)
    } else {
        (c1, k1)
    }
}

/// Caching the forms of いる, in order.
pub open spec fn iru_step(st: (CacheView, ClassView), kfs: Seq<KanaText>) -> (CacheView, ClassView)
    decreases kfs.len(),
{
    if kfs.len() == 0 {
        st
    } else {
        iru_step(iru_one(st, kfs[0]), kfs.drop_first())
    }
}

/// Caching one form of いく.
pub open spec fn iku_one(st: (CacheView, ClassView), kf: KanaText) -> (CacheView, ClassView) {
    let tkf = kf.text@;
    if tkf.len() > 0 && tkf[0] == 'い' {
        let item = seq![("te"@, Some(kf))];
        let c1 = cache_set(st.0, tkf, item);
        let k1 = class_set(st.1, kf.seq, "iku"@);
        let short = tkf.drop_first();
        if c1(short) is None {
            (cache_set(c1, short, item), k1)
        } else {
            (c1, k1)
        }
    } else {
        st
    }
}

/// Caching the forms of いく, in order.
pub open spec fn iku_step(st: (CacheView, ClassView), kfs: Seq<KanaText>) -> (CacheView, ClassView)
    decreases kfs.len(),
{
    if kfs.len() == 0 {
        st
    } else {
        iku_step(iku_one(st, kfs[0]), kfs.drop_first())
    }
}

/// Caching an abbreviation.
pub open spec fn abbr_step(st: (CacheView, ClassView), key: Seq<char>, text: Seq<char>, join: bool) -> (CacheView, ClassView) {
    let item = (key, None::<KanaText>);
    match (st.0)(text) {
        Some(old) => if join {
            (cache_set(st.0, text, seq![item] + old), st.1)
        } else {
            (cache_set(st.0, text, seq![item]), st.1)
        },
        None => (cache_set(st.0, text, seq![item]), st.1),
    }
}

/// Applying one load.
pub open spec fn load_step(src: KanaFormSource, op: SuffixLoad, st: (CacheView, ClassView)) -> Result<(CacheView, ClassView), LoadError> {
    match op {
        SuffixLoad::Conjs(key, seq, class) => Ok(conjs_step(st, key@, forms_of(src.forms@, seq), opt_view(class))),
        SuffixLoad::Form(key, seq, text, lookup, class, as_text) => match named_of(src.named@, seq, text@) {
            Some(kf) => Ok(kf_step(st, key@, kf, opt_view(class), opt_view(as_text))),
            None => Err(LoadError::RowNotFound),
        },
        SuffixLoad::Iru(seq) => Ok(iru_step(st, forms_of(src.forms@, seq))),
        SuffixLoad::Iku(seq) => Ok(iku_step(st, forms_of(src.forms@, seq))),
        SuffixLoad::Abbr(key, text, join) => Ok(abbr_step(st, key@, text@, join)),
    }
}

/// Applying the loads of `plan` in order, stopping at the first failure.
pub open spec fn run_loads(src: KanaFormSource, plan: Seq<SuffixLoad>, st: (CacheView, ClassView)) -> Result<(CacheView, ClassView), LoadError>
    decreases plan.len(),
{
    if plan.len() == 0 {
        Ok(st)
    } else {
        match load_step(src, plan[0], st) {
            Ok(next) => run_loads(src, plan.drop_first(), next),
            Err(e) => Err(e),
        }
    }
}

/// The cache and registry that the load plan yields on `src`.
pub open spec fn built_caches(src: KanaFormSource) -> Result<(CacheView, ClassView), LoadError> {
    run_loads(src, load_plan(), empty_load_state())
}

/// The cache and registry under construction.
struct SuffixCacheBuilder {
    cache: SuffixCache,
    class: SuffixClass,
}

impl SuffixCacheBuilder {
    /// Caches `new` under `text`: alone, or with `join` in front of what
    /// is cached there already.
    fn update_suffix_cache(&mut self, text: &str, new: (String, Option<KanaText>), join: bool)
        ensures
            final(self).class == old(self).class,
            forall|k: Seq<char>|
                #[trigger] final(self).cache.spec_get(k) == if k == text@ {
                    match old(self).cache.spec_get(k) {
                        Some(v) => if join {
                            Some(seq![(new.0@, new.1)] + v)
                        } else {
                            Some(seq![(new.0@, new.1)])
                        },
                        None => Some(seq![(new.0@, new.1)]),
                    }
                } else {
                    old(self).cache.spec_get(k)
                },
    {
        if join {
            self.cache.prepend(text.to_owned(), new);
        } else {
            let ghost item = (new.0@, new.1);
            let mut v: Vec<(String, Option<KanaText>)> = Vec::new();
            v.push(new);
            assert(items_view(v@) =~= seq![item]);
            self.cache.set(text.to_owned(), v);
        }
    }

    /// Caches one kana form under `key`.
    fn load_kf(
        &mut self,
        key: &str,
        kf: KanaText,
        class: Option<&str>,
        text: Option<&str>,
        Ghost(st): Ghost<(CacheView, ClassView)>,
    )
        requires
            holds_state(old(self).cache, old(self).class, st),
        ensures
            holds_state(final(self).cache, final(self).class, kf_step(st, key@, kf, opt_view(class), opt_view(text))),
    {
        let resolved_text = match text {
            Some(t) => t.to_owned(),
            None => kf.text.as_str().to_owned(),
        };
        let resolved_class = match class {
            Some(c) => c.to_owned(),
            None => key.to_owned(),
        };
        let kf_seq = kf.seq;
        let ghost kfv = kf;
        self.update_suffix_cache(resolved_text.as_str(), (key.to_owned(), Some(kf)), false);
        self.class.set(kf_seq, resolved_class);
        let ghost next = kf_step(st, key@, kfv, opt_view(class), opt_view(text));
        assert forall|t: Seq<char>| #[trigger] self.cache.spec_get(t) == (next.0)(t) by {}
        assert forall|s: i32| #[trigger] self.class.spec_get(s) == (next.1)(s) by {}
    }

    /// Caches every form of `kfs` under `key`, in order.
    fn load_conjs(
        &mut self,
        key: &str,
        kfs: &Vec<KanaText>,
        class: Option<&str>,
        Ghost(st): Ghost<(CacheView, ClassView)>,
    )
        requires
            holds_state(old(self).cache, old(self).class, st),
        ensures
            holds_state(final(self).cache, final(self).class, conjs_step(st, key@, kfs@, opt_view(class))),
    {
        let ghost mut cur = st;
        let mut i: usize = 0;
        assert(kfs@.skip(0) =~= kfs@);
        while i < kfs.len()
            invariant
                i <= kfs@.len(),
                holds_state(self.cache, self.class, cur),
                conjs_step(st, key@, kfs@, opt_view(class)) == conjs_step(cur, key@, kfs@.skip(i as int), opt_view(class)),
            decreases kfs@.len() - i,
        {
            assert(kfs@.skip(i as int).drop_first() =~= kfs@.skip(i + 1));
            let kf = kfs[i].duplicate();
            self.load_kf(key, kf, class, None, Ghost(cur));
            proof {
                cur = kf_step(cur, key@, kfs@[i as int], opt_view(class), None);
            }
            i = i + 1;
        }
    }

    /// Caches an abbreviation with no kana form.
    fn load_abbr(&mut self, key: &str, text: &str, join: bool, Ghost(st): Ghost<(CacheView, ClassView)>)
        requires
            holds_state(old(self).cache, old(self).class, st),
        ensures
            holds_state(final(self).cache, final(self).class, abbr_step(st, key@, text@, join)),
    {
        self.update_suffix_cache(text, (key.to_owned(), None), join);
        let ghost next = abbr_step(st, key@, text@, join);
        assert forall|t: Seq<char>| #[trigger] self.cache.spec_get(t) == (next.0)(t) by {}
        assert forall|s: i32| #[trigger] self.class.spec_get(s) == (next.1)(s) by {}
    }

    /// Caches the forms of いる.
    fn load_iru(&mut self, kfs: &Vec<KanaText>, Ghost(st): Ghost<(CacheView, ClassView)>)
        requires
            holds_state(old(self).cache, old(self).class, st),
        ensures
            holds_state(final(self).cache, final(self).class, iru_step(st, kfs@)),
    {
        let ghost mut cur = st;
        let mut i: usize = 0;
        assert(kfs@.skip(0) =~= kfs@);
        while i < kfs.len()
            invariant
                i <= kfs@.len(),
                holds_state(self.cache, self.class, cur),
                iru_step(st, kfs@) == iru_step(cur, kfs@.skip(i as int)),
            decreases kfs@.len() - i,
        {
            assert(kfs@.skip(i as int).drop_first() =~= kfs@.skip(i + 1));
            let kf = &kfs[i];
            let n = char_len(kf.text.as_str());
            let key = if n > 1 { "teiru+" } else { "teiru" };
            let mut v: Vec<(String, Option<KanaText>)> = Vec::new();
            v.push((key.to_owned(), Some(kf.duplicate())));
            assert(items_view(v@) =~= seq![(key@, Some(*kf))]);
            self.cache.set(kf.text.as_str().to_owned(), v);
            self.class.set(kf.seq, "iru".to_owned());
            if n > 1 {
                let short = kf.text.as_str().substring_char(1, n).to_owned();
                assert(short@ =~= kf.text@.drop_first());
                let mut v2: Vec<(String, Option<KanaText>)> = Vec::new();
                v2.push(("teiru".to_owned(), Some(kf.duplicate())));
                assert(items_view(v2@) =~= seq![("teiru"@, Some(*kf))]);
                self.cache.set(short, v2);
            }
            let ghost next = iru_one(cur, *kf);
            assert forall|t: Seq<char>| #[trigger] self.cache.spec_get(t) == (next.0)(t) by {}
            assert forall|s: i32| #[trigger] self.class.spec_get(s) == (next.1)(s) by {}
            proof {
                cur = next;
            }
            i = i + 1;
        }
    }

    /// Caches the forms of いく that start with い.
    fn load_iku(&mut self, kfs: &Vec<KanaText>, Ghost(st): Ghost<(CacheView, ClassView)>)
        requires
            holds_state(old(self).cache, old(self).class, st),
        ensures
            holds_state(final(self).cache, final(self).class, iku_step(st, kfs@)),
    {
        let ghost mut cur = st;
        let mut i: usize = 0;
        assert(kfs@.skip(0) =~= kfs@);
        while i < kfs.len()
            invariant
                i <= kfs@.len(),
                holds_state(self.cache, self.class, cur),
                iku_step(st, kfs@) == iku_step(cur, kfs@.skip(i as int)),
            decreases kfs@.len() - i,
        {
            assert(kfs@.skip(i as int).drop_first() =~= kfs@.skip(i + 1));
            let kf = &kfs[i];
            let n = char_len(kf.text.as_str());
            let ghost next = iku_one(cur, *kf);
            if n > 0 && kf.text.as_str().get_char(0) == 'い' {
                let mut v: Vec<(String, Option<KanaText>)> = Vec::new();
                v.push(("te".to_owned(), Some(kf.duplicate())));
                assert(items_view(v@) =~= seq![("te"@, Some(*kf))]);
                self.cache.set(kf.text.as_str().to_owned(), v);
                self.class.set(kf.seq, "iku".to_owned());
                let short = kf.text.as_str().substring_char(1, n).to_owned();
                assert(short@ =~= kf.text@.drop_first());
                if self.cache.get(short.as_str()).is_none() {
                    let mut v2: Vec<(String, Option<KanaText>)> = Vec::new();
                    v2.push(("te".to_owned(), Some(kf.duplicate())));
                    assert(items_view(v2@) =~= seq![("te"@, Some(*kf))]);
                    self.cache.set(short, v2);
                }
            }
            assert forall|t: Seq<char>| #[trigger] self.cache.spec_get(t) == (next.0)(t) by {}
            assert forall|s: i32| #[trigger] self.class.spec_get(s) == (next.1)(s) by {}
            proof {
                cur = next;
            }
            i = i + 1;
        }
    }
}

/// The kana forms the source lists for `seq`.
fn kana_forms(src: &KanaFormSource, seq: i32) -> (r: Option<&Vec<KanaText>>)
    ensures
        match r {
            Some(v) => forms_of(src.forms@, seq) == v@,
            None => forms_of(src.forms@, seq) == Seq::<KanaText>::empty(),
        },
{
    let ghost view = Seq::new(src.forms@.len(), |i: int| (src.forms@[i].0, src.forms@[i].1@));
    let mut i: usize = 0;
    assert(view.skip(0) =~= view);
    while i < src.forms.len()
        invariant
            i <= src.forms@.len(),
            view == Seq::new(src.forms@.len(), |i: int| (src.forms@[i].0, src.forms@[i].1@)),
            alist_get(view, seq) == alist_get(view.skip(i as int), seq),
        decreases src.forms@.len() - i,
    {
        assert(view.skip(i as int).drop_first() =~= view.skip(i + 1));
        assert(view.skip(i as int)[0] == view[i as int]);
        if src.forms[i].0 == seq {
            return Some(&src.forms[i].1);
        }
        i = i + 1;
    }
    assert(view.skip(i as int).len() == 0);
    None
}

/// The kana form recorded for `(seq, text)`; missing is a load failure.
fn require_kana_form<'a>(src: &'a KanaFormSource, seq: i32, text: &str) -> (r: Result<&'a KanaText, LoadError>)
    ensures
        match named_of(src.named@, seq, text@) {
            Some(kf) => r matches Ok(x) && *x == kf,
            None => r == Err::<&KanaText, LoadError>(LoadError::RowNotFound),
        },
{
    let mut i: usize = 0;
    assert(src.named@.skip(0) =~= src.named@);
    while i < src.named.len()
        invariant
            i <= src.named@.len(),
            named_of(src.named@, seq, text@) == named_of(src.named@.skip(i as int), seq, text@),
        decreases src.named@.len() - i,
    {
        assert(src.named@.skip(i as int).drop_first() =~= src.named@.skip(i + 1));
        assert(src.named@.skip(i as int)[0] == src.named@[i as int]);
        if src.named[i].0 == seq && crate::text::str_eq(src.named[i].1.as_str(), text) {
            return Ok(&src.named[i].2);
        }
        i = i + 1;
    }
    Err(LoadError::RowNotFound)
}

/// Builds the suffix cache and the suffix-class registry by applying the
/// load plan to `src`; fails when a kana form that the plan names is
/// missing.
pub fn build_suffix_caches(src: &KanaFormSource) -> (r: Result<(SuffixCache, SuffixClass), LoadError>)
    ensures
        match (r, built_caches(*src)) {
            (Ok(p), Ok(st)) => holds_state(p.0, p.1, st),
            (Err(e), Err(e2)) => e == e2,
            _ => false,
        },
{
    let mut b = SuffixCacheBuilder { cache: SuffixCache::new(), class: SuffixClass::new() };
    let plan = suffix_load_plan();
    let ghost mut cur = empty_load_state();
    let mut i: usize = 0;
    assert(plan@.skip(0) =~= plan@);
    while i < plan.len()
        invariant
            plan@ == load_plan(),
            i <= plan@.len(),
            holds_state(b.cache, b.class, cur),
            built_caches(*src) == run_loads(*src, plan@.skip(i as int), cur),
        decreases plan@.len() - i,
    {
        assert(plan@.skip(i as int).drop_first() =~= plan@.skip(i + 1));
        assert(plan@.skip(i as int)[0] == plan@[i as int]);
        let op = plan[i];
        let ghost next = load_step(*src, op, cur);
        match op {
            SuffixLoad::Conjs(key, seq, class) => {
                match kana_forms(src, seq) {
                    Some(kfs) => b.load_conjs(key, kfs, class, Ghost(cur)),
                    None => {},
                }
            },
            SuffixLoad::Form(key, seq, text, lookup, class, as_text) => {
                match require_kana_form(src, seq, text) {
                    Ok(kf) => b.load_kf(key, kf.duplicate(), class, as_text, Ghost(cur)),
                    Err(e) => {
                        return Err(e);
                    },
                }
            },
            SuffixLoad::Iru(seq) => {
                match kana_forms(src, seq) {
                    Some(kfs) => b.load_iru(kfs, Ghost(cur)),
                    None => {},
                }
            },
            SuffixLoad::Iku(seq) => {
                match kana_forms(src, seq) {
                    Some(kfs) => b.load_iku(kfs, Ghost(cur)),
                    None => {},
                }
            },
            SuffixLoad::Abbr(key, text, join) => {
                b.load_abbr(key, text, join, Ghost(cur));
            },
        }
        proof {
            cur = next.unwrap();
        }
        i = i + 1;
    }
    Ok((b.cache, b.class))
}

} // verus!
