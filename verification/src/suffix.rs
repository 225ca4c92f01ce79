//! Grammatical suffixes: description tables, the suffix registries and
//! the suffix-class registry.

use vstd::prelude::*;
use crate::alist::{alist_get, alist_index, lemma_alist_index, lemma_alist_push, lemma_alist_replace};
use crate::text::str_eq;
use crate::word::KanaText;
use crate::context::KaniranContext;
use std::collections::HashMap;

verus! {

/// Key of the suffix description table: a suffix class or a seq.
#[derive(Debug, Clone)]
pub enum SuffixDescKey {
    Class(String),
    SeqNum(i32),
}

/// The value of a description key.
pub enum DescKeyView {
    Class(Seq<char>),
    SeqNum(i32),
}

impl SuffixDescKey {
    /// The value of the key.
    pub open spec fn key_view(&self) -> DescKeyView {
        match *self {
            SuffixDescKey::Class(c) => DescKeyView::Class(c@),
            SuffixDescKey::SeqNum(s) => DescKeyView::SeqNum(s),
        }
    }
}

/// The suffix description table, in registration order: suffix classes
/// first, then the seqs of particles that split segments.
pub open spec fn desc_table() -> Seq<(DescKeyView, Seq<char>)> {
    seq![
        (DescKeyView::Class("chau"@), "indicates completion (to finish ...)"@),
        (DescKeyView::Class("ha"@), "topic marker particle"@),
        (DescKeyView::Class("tai"@), "want to... / would like to..."@),
        (DescKeyView::Class("iru"@), "indicates continuing action (to be ...ing)"@),
        (DescKeyView::Class("oru"@), "indicates continuing action (to be ...ing) (humble)"@),
        (DescKeyView::Class("aru"@), "indicates completion / finished action"@),
        (DescKeyView::Class("kuru"@), "indicates action that had been continuing up till now / came to be "@),
        (DescKeyView::Class("oku"@), "to do in advance / to leave in the current state expecting a later change"@),
        (DescKeyView::Class("kureru"@), "(asking) to do something for one"@),
        (DescKeyView::Class("morau"@), "(asking) to get somebody to do something"@),
        (DescKeyView::Class("itadaku"@), "(asking) to get somebody to do something (polite)"@),
        (DescKeyView::Class("iku"@), "is becoming / action starting now and continuing"@),
        (DescKeyView::Class("suru"@), "makes a verb from a noun"@),
        (DescKeyView::Class("itasu"@), "makes a verb from a noun (humble)"@),
        (DescKeyView::Class("sareru"@), "makes a verb from a noun (honorific or passive)"@),
        (DescKeyView::Class("saseru"@), "let/make someone/something do ..."@),
        (DescKeyView::Class("rou"@), "probably / it seems that... / I guess ..."@),
        (DescKeyView::Class("ii"@), "it's ok if ... / is it ok if ...?"@),
        (DescKeyView::Class("mo"@), "even if ..."@),
        (DescKeyView::Class("sugiru"@), "to be too (much) ..."@),
        (DescKeyView::Class("nikui"@), "difficult to..."@),
        (DescKeyView::Class("gatai"@), "difficult to..."@),
        (DescKeyView::Class("sa"@), "-ness (degree or condition of adjective)"@),
        (DescKeyView::Class("tsutsu"@), "while ... / in the process of ..."@),
        (DescKeyView::Class("tsutsuaru"@), "to be doing ... / to be in the process of doing ..."@),
        (DescKeyView::Class("uru"@), "can ... / to be able to ..."@),
        (DescKeyView::Class("sou"@), "looking like ... / seeming ..."@),
        (DescKeyView::Class("nai"@), "negative suffix"@),
        (DescKeyView::Class("ra"@), "pluralizing suffix (not polite)"@),
        (DescKeyView::Class("kudasai"@), "please do ..."@),
        (DescKeyView::Class("yagaru"@), "indicates disdain or contempt"@),
        (DescKeyView::Class("naru"@), "to become ..."@),
        (DescKeyView::Class("desu"@), "formal copula"@),
        (DescKeyView::Class("desho"@), "it seems/perhaps/don't you think?"@),
        (DescKeyView::Class("tosuru"@), "to try to .../to be about to..."@),
        (DescKeyView::Class("garu"@), "to feel .../have a ... impression of someone"@),
        (DescKeyView::Class("me"@), "somewhat/-ish"@),
        (DescKeyView::Class("gai"@), "worth it to ..."@),
        (DescKeyView::Class("tasou"@), "seem to want to... (tai+sou)"@),
        (DescKeyView::SeqNum(2826528i32), "polite prefix"@),
        (DescKeyView::SeqNum(2028980i32), "at / in / by"@),
        (DescKeyView::SeqNum(2028970i32), "or / questioning particle"@),
        (DescKeyView::SeqNum(2028990i32), "to / at / in"@),
        (DescKeyView::SeqNum(2029010i32), "indicates direct object of action"@),
        (DescKeyView::SeqNum(1469800i32), "indicates possessive (...'s)"@),
        (DescKeyView::SeqNum(2086960i32), "quoting particle"@),
        (DescKeyView::SeqNum(1002980i32), "from / because"@)
    ]
}

/// The first description registered under `k` in `t`.
pub open spec fn find_desc(t: Seq<(DescKeyView, Seq<char>)>, k: DescKeyView) -> Option<Seq<char>>
    decreases t.len(),
{
    if t.len() == 0 {
        None
    } else if t[0].0 == k {
        Some(t[0].1)
    } else {
        find_desc(t.drop_first(), k)
    }
}

/// The description of a suffix class or seq, if it has one.
pub open spec fn describe(k: DescKeyView) -> Option<Seq<char>> {
    find_desc(desc_table(), k)
}

/// The text of an optional static string.
pub open spec fn opt_str_view(o: Option<&'static str>) -> Option<Seq<char>> {
    match o {
        Some(s) => Some(s@),
        None => None,
    }
}

/// The suffix description table.
pub struct SuffixDescription {
    entries: Vec<(SuffixDescKey, &'static str)>,
}

impl SuffixDescription {
    /// The table held, in order.
    pub closed spec fn table_view(&self) -> Seq<(DescKeyView, Seq<char>)> {
        Seq::new(self.entries@.len(), |i: int| (self.entries@[i].0.key_view(), self.entries@[i].1@))
    }

    /// The entries hold the description table, in order.
    #[verifier::type_invariant]
    closed spec fn holds_table(&self) -> bool {
        &&& self.entries@.len() == desc_table().len()
        &&& forall|i: int|
            0 <= i < self.entries@.len() ==> (#[trigger] self.entries@[i]).0.key_view()
                == desc_table()[i].0 && self.entries@[i].1@ == desc_table()[i].1
    }

    /// Number of entries.
    pub fn len(&self) -> (n: usize)
        ensures
            n == desc_table().len(),
    {
        proof {
            use_type_invariant(self);
        }
        self.entries.len()
    }

    /// The description registered under `key`.
    pub fn get(&self, key: &SuffixDescKey) -> (r: Option<&'static str>)
        ensures
            opt_str_view(r) == describe(key.key_view()),
    {
        proof {
            use_type_invariant(self);
        }
        let mut i: usize = 0;
        assert(desc_table().skip(0) =~= desc_table());
        while i < self.entries.len()
            invariant
                0 <= i <= self.entries@.len(),
                self.entries@.len() == desc_table().len(),
                forall|j: int|
                    0 <= j < self.entries@.len() ==> (#[trigger] self.entries@[j]).0.key_view()
                        == desc_table()[j].0 && self.entries@[j].1@ == desc_table()[j].1,
                describe(key.key_view()) == find_desc(desc_table().skip(i as int), key.key_view()),
            decreases self.entries@.len() - i,
        {
            let ghost rest = desc_table().skip(i as int);
            assert(rest.drop_first() =~= desc_table().skip(i + 1));
            assert(rest[0] == desc_table()[i as int]);
            assert(self.entries@[i as int].0.key_view() == desc_table()[i as int].0);
            if desc_key_eq(&self.entries[i].0, key) {
                return Some(self.entries[i].1);
            }
            i = i + 1;
        }
        assert(desc_table().skip(i as int).len() == 0);
        None
    }

    /// The keys, in table order.
    pub fn keys(&self) -> (r: Vec<&SuffixDescKey>)
        ensures
            r@.len() == desc_table().len(),
            forall|i: int| 0 <= i < r@.len() ==> (#[trigger] r@[i]).key_view() == desc_table()[i].0,
    {
        proof {
            use_type_invariant(self);
        }
        let mut r: Vec<&SuffixDescKey> = Vec::new();
        let mut i: usize = 0;
        while i < self.entries.len()
            invariant
                0 <= i <= self.entries@.len(),
                self.entries@.len() == desc_table().len(),
                forall|j: int|
                    0 <= j < self.entries@.len() ==> (#[trigger] self.entries@[j]).0.key_view()
                        == desc_table()[j].0,
                r@.len() == i,
                forall|j: int| 0 <= j < i ==> (#[trigger] r@[j]).key_view() == desc_table()[j].0,
            decreases self.entries@.len() - i,
        {
            r.push(&self.entries[i].0);
            i = i + 1;
        }
        r
    }
}

fn desc_key_eq(a: &SuffixDescKey, b: &SuffixDescKey) -> (r: bool)
    ensures
        r == (a.key_view() == b.key_view()),
{
    match (a, b) {
        (SuffixDescKey::Class(x), SuffixDescKey::Class(y)) => str_eq(x.as_str(), y.as_str()),
        (SuffixDescKey::SeqNum(x), SuffixDescKey::SeqNum(y)) => *x == *y,
        _ => false,
    }
}

/// The suffix description table: descriptions of the suffix classes and of
/// the seqs of the particles that split segments.
pub fn suffix_description() -> (r: SuffixDescription)
    ensures
        r.table_view() == desc_table(),
{
    let mut entries: Vec<(SuffixDescKey, &'static str)> = Vec::new();
    entries.push((SuffixDescKey::Class("chau".to_owned()), "indicates completion (to finish ...)"));
    entries.push((SuffixDescKey::Class("ha".to_owned()), "topic marker particle"));
    entries.push((SuffixDescKey::Class("tai".to_owned()), "want to... / would like to..."));
    entries.push((SuffixDescKey::Class("iru".to_owned()), "indicates continuing action (to be ...ing)"));
    entries.push((SuffixDescKey::Class("oru".to_owned()), "indicates continuing action (to be ...ing) (humble)"));
    entries.push((SuffixDescKey::Class("aru".to_owned()), "indicates completion / finished action"));
    entries.push((SuffixDescKey::Class("kuru".to_owned()), "indicates action that had been continuing up till now / came to be "));
    entries.push((SuffixDescKey::Class("oku".to_owned()), "to do in advance / to leave in the current state expecting a later change"));
    entries.push((SuffixDescKey::Class("kureru".to_owned()), "(asking) to do something for one"));
    entries.push((SuffixDescKey::Class("morau".to_owned()), "(asking) to get somebody to do something"));
    entries.push((SuffixDescKey::Class("itadaku".to_owned()), "(asking) to get somebody to do something (polite)"));
    entries.push((SuffixDescKey::Class("iku".to_owned()), "is becoming / action starting now and continuing"));
    entries.push((SuffixDescKey::Class("suru".to_owned()), "makes a verb from a noun"));
    entries.push((SuffixDescKey::Class("itasu".to_owned()), "makes a verb from a noun (humble)"));
    entries.push((SuffixDescKey::Class("sareru".to_owned()), "makes a verb from a noun (honorific or passive)"));
    entries.push((SuffixDescKey::Class("saseru".to_owned()), "let/make someone/something do ..."));
    entries.push((SuffixDescKey::Class("rou".to_owned()), "probably / it seems that... / I guess ..."));
    entries.push((SuffixDescKey::Class("ii".to_owned()), "it's ok if ... / is it ok if ...?"));
    entries.push((SuffixDescKey::Class("mo".to_owned()), "even if ..."));
    entries.push((SuffixDescKey::Class("sugiru".to_owned()), "to be too (much) ..."));
    entries.push((SuffixDescKey::Class("nikui".to_owned()), "difficult to..."));
    entries.push((SuffixDescKey::Class("gatai".to_owned()), "difficult to..."));
    entries.push((SuffixDescKey::Class("sa".to_owned()), "-ness (degree or condition of adjective)"));
    entries.push((SuffixDescKey::Class("tsutsu".to_owned()), "while ... / in the process of ..."));
    entries.push((SuffixDescKey::Class("tsutsuaru".to_owned()), "to be doing ... / to be in the process of doing ..."));
    entries.push((SuffixDescKey::Class("uru".to_owned()), "can ... / to be able to ..."));
    entries.push((SuffixDescKey::Class("sou".to_owned()), "looking like ... / seeming ..."));
    entries.push((SuffixDescKey::Class("nai".to_owned()), "negative suffix"));
    entries.push((SuffixDescKey::Class("ra".to_owned()), "pluralizing suffix (not polite)"));
    entries.push((SuffixDescKey::Class("kudasai".to_owned()), "please do ..."));
    entries.push((SuffixDescKey::Class("yagaru".to_owned()), "indicates disdain or contempt"));
    entries.push((SuffixDescKey::Class("naru".to_owned()), "to become ..."));
    entries.push((SuffixDescKey::Class("desu".to_owned()), "formal copula"));
    entries.push((SuffixDescKey::Class("desho".to_owned()), "it seems/perhaps/don't you think?"));
    entries.push((SuffixDescKey::Class("tosuru".to_owned()), "to try to .../to be about to..."));
    entries.push((SuffixDescKey::Class("garu".to_owned()), "to feel .../have a ... impression of someone"));
    entries.push((SuffixDescKey::Class("me".to_owned()), "somewhat/-ish"));
    entries.push((SuffixDescKey::Class("gai".to_owned()), "worth it to ..."));
    entries.push((SuffixDescKey::Class("tasou".to_owned()), "seem to want to... (tai+sou)"));
    entries.push((SuffixDescKey::SeqNum(2826528), "polite prefix"));
    entries.push((SuffixDescKey::SeqNum(2028980), "at / in / by"));
    entries.push((SuffixDescKey::SeqNum(2028970), "or / questioning particle"));
    entries.push((SuffixDescKey::SeqNum(2028990), "to / at / in"));
    entries.push((SuffixDescKey::SeqNum(2029010), "indicates direct object of action"));
    entries.push((SuffixDescKey::SeqNum(1469800), "indicates possessive (...'s)"));
    entries.push((SuffixDescKey::SeqNum(2086960), "quoting particle"));
    entries.push((SuffixDescKey::SeqNum(1002980), "from / because"));
    proof {
        assert forall|i: int| 0 <= i < entries@.len() implies (#[trigger] entries@[i]).0.key_view()
            == desc_table()[i].0 && entries@[i].1@ == desc_table()[i].1 by {}
    }
    let r = SuffixDescription { entries };
    assert(r.table_view() =~= desc_table());
    r
}

/// The views of the `(class, kana form)` items cached under one suffix text.
pub open spec fn items_view(v: Seq<(String, Option<KanaText>)>) -> Seq<(Seq<char>, Option<KanaText>)> {
    Seq::new(v.len(), |i: int| (v[i].0@, v[i].1))
}

/// Suffix surface text → the `(suffix key, kana-form row)` matches loaded
/// for that text.
#[derive(Debug)]
pub struct SuffixCache {
    entries: Vec<(String, Vec<(String, Option<KanaText>)>)>,
}

impl SuffixCache {
    /// The pairs held, as values.
    pub closed spec fn pairs(&self) -> Seq<(Seq<char>, Seq<(Seq<char>, Option<KanaText>)>)> {
        Seq::new(self.entries@.len(), |i: int| (self.entries@[i].0@, items_view(self.entries@[i].1@)))
    }

    /// The items cached under `k`.
    pub open spec fn spec_get(&self, k: Seq<char>) -> Option<Seq<(Seq<char>, Option<KanaText>)>> {
        alist_get(self.pairs(), k)
    }

    /// The empty cache.
    pub fn new() -> (r: Self)
        ensures
            forall|k: Seq<char>| r.spec_get(k) is None,
    {
        let r = SuffixCache { entries: Vec::new() };
        assert forall|k: Seq<char>| r.spec_get(k) is None by {
            assert(r.pairs().len() == 0);
        }
        r
    }

    /// Whether nothing is cached.
    pub fn is_empty(&self) -> (b: bool)
        ensures
            b == (forall|k: Seq<char>| self.spec_get(k) is None),
    {
        if self.entries.len() == 0 {
            assert forall|k: Seq<char>| self.spec_get(k) is None by {
                assert(self.pairs().len() == 0);
            }
            true
        } else {
            assert(self.spec_get(self.pairs()[0].0) is Some);
            false
        }
    }

    fn find(&self, text: &str) -> (i: usize)
        ensures
            i == alist_index(self.pairs(), text@),
    {
        proof {
            lemma_alist_index(self.pairs(), text@);
        }
        let mut i: usize = 0;
        while i < self.entries.len()
            invariant
                i <= self.entries@.len(),
                alist_index(self.pairs(), text@) >= i,
                forall|j: int| 0 <= j < i ==> self.pairs()[j].0 != text@,
            decreases self.entries@.len() - i,
        {
            if str_eq(self.entries[i].0.as_str(), text) {
                proof {
                    lemma_alist_index(self.pairs(), text@);
                    if alist_index(self.pairs(), text@) > i {
                        assert(self.pairs()[i as int].0 == text@);
                    }
                }
                return i;
            }
            proof {
                lemma_alist_index(self.pairs(), text@);
                if alist_index(self.pairs(), text@) == i {
                    assert(self.pairs()[i as int].0 == self.entries@[i as int].0@);
                }
            }
            i = i + 1;
        }
        i
    }

    /// The items cached under `text`.
    pub fn get(&self, text: &str) -> (r: Option<&Vec<(String, Option<KanaText>)>>)
        ensures
            match r {
                Some(v) => self.spec_get(text@) == Some(items_view(v@)),
                None => self.spec_get(text@) is None,
            },
    {
        let i = self.find(text);
        proof {
            lemma_alist_index(self.pairs(), text@);
        }
        if i < self.entries.len() {
            Some(&self.entries[i].1)
        } else {
            None
        }
    }

    /// Binds `text` to `items`, replacing what was cached under it.
    pub fn set(&mut self, text: String, items: Vec<(String, Option<KanaText>)>)
        ensures
            forall|k: Seq<char>|
                #[trigger] final(self).spec_get(k) == if k == text@ {
                    Some(items_view(items@))
                } else {
                    old(self).spec_get(k)
                },
    {
        let i = self.find(text.as_str());
        let ghost old_pairs = self.pairs();
        let ghost new_pair = (text@, items_view(items@));
        proof {
            lemma_alist_index(old_pairs, text@);
        }
        if i < self.entries.len() {
            self.entries.set(i, (text, items));
            assert(self.pairs() =~= old_pairs.update(i as int, new_pair));
            assert forall|k: Seq<char>| #[trigger] self.spec_get(k) == if k == new_pair.0 {
                Some(new_pair.1)
            } else {
                alist_get(old_pairs, k)
            } by {
                lemma_alist_replace(old_pairs, new_pair.0, new_pair.1, k);
            }
        } else {
            self.entries.push((text, items));
            assert(self.pairs() =~= old_pairs.push(new_pair));
            assert forall|k: Seq<char>| #[trigger] self.spec_get(k) == if k == new_pair.0 {
                Some(new_pair.1)
            } else {
                alist_get(old_pairs, k)
            } by {
                lemma_alist_push(old_pairs, new_pair.0, new_pair.1, k);
            }
        }
    }
}

impl SuffixCache {
    /// Puts `item` in front of what is cached under `text` (or caches it
    /// alone when nothing is).
    pub fn prepend(&mut self, text: String, item: (String, Option<KanaText>))
        ensures
            forall|k: Seq<char>|
                #[trigger] final(self).spec_get(k) == if k == text@ {
                    match old(self).spec_get(k) {
                        Some(v) => Some(seq![(item.0@, item.1)] + v),
                        None => Some(seq![(item.0@, item.1)]),
                    }
                } else {
                    old(self).spec_get(k)
                },
    {
        let i = self.find(text.as_str());
        let ghost old_pairs = self.pairs();
        proof {
            lemma_alist_index(old_pairs, text@);
        }
        if i < self.entries.len() {
            let (t, mut items) = self.entries.remove(i);
            let ghost old_items = items@;
            assert(old_pairs[i as int].1 == items_view(old_items));
            let mut v: Vec<(String, Option<KanaText>)> = Vec::new();
            v.push(item);
            v.append(&mut items);
            let ghost new_pair = (t@, items_view(v@));
            assert(items_view(v@) =~= seq![(item.0@, item.1)] + items_view(old_items));
            self.entries.insert(i, (t, v));
            assert(self.pairs() =~= old_pairs.update(i as int, new_pair));
            assert forall|k: Seq<char>| #[trigger] self.spec_get(k) == if k == new_pair.0 {
                Some(new_pair.1)
            } else {
                alist_get(old_pairs, k)
            } by {
                lemma_alist_replace(old_pairs, new_pair.0, new_pair.1, k);
            }
        } else {
            let mut v: Vec<(String, Option<KanaText>)> = Vec::new();
            v.push(item);
            let ghost new_pair = (text@, items_view(v@));
            assert(items_view(v@) =~= seq![(item.0@, item.1)]);
            self.entries.push((text, v));
            assert(self.pairs() =~= old_pairs.push(new_pair));
            assert forall|k: Seq<char>| #[trigger] self.spec_get(k) == if k == new_pair.0 {
                Some(new_pair.1)
            } else {
                alist_get(old_pairs, k)
            } by {
                lemma_alist_push(old_pairs, new_pair.0, new_pair.1, k);
            }
        }
    }
}

/// JMdict seq → the suffix class its entry belongs to.
#[derive(Debug)]
pub struct SuffixClass {
    classes: HashMap<i32, String>,
}

impl SuffixClass {
    /// The class of `seq`.
    pub closed spec fn spec_get(&self, seq: i32) -> Option<Seq<char>> {
        if self.classes@.contains_key(seq) {
            Some(self.classes@[seq]@)
        } else {
            None
        }
    }

    /// No seq has a class.
    pub fn new() -> (r: Self)
        ensures
            forall|k: i32| r.spec_get(k) is None,
    {
        SuffixClass { classes: HashMap::new() }
    }

    /// The class of `seq`.
    pub fn get(&self, seq: i32) -> (r: Option<&String>)
        ensures
            match r {
                Some(c) => self.spec_get(seq) == Some(c@),
                None => self.spec_get(seq) is None,
            },
    {
        broadcast use vstd::std_specs::hash::group_hash_axioms;
        self.classes.get(&seq)
    }

    /// Gives `seq` the class `class`.
    pub fn set(&mut self, seq: i32, class: String)
        ensures
            forall|k: i32|
                #[trigger] final(self).spec_get(k) == if k == seq {
                    Some(class@)
                } else {
                    old(self).spec_get(k)
                },
    {
        broadcast use vstd::std_specs::hash::group_hash_axioms;
        self.classes.insert(seq, class);
    }
}

/// The description of `seq`: by its suffix class when it has one,
/// otherwise by the seq itself.
pub fn get_suffix_description(ctx: &KaniranContext, seq: i32) -> (r: Option<&'static str>)
    ensures
        opt_str_view(r) == describe(
            match ctx.suffix_class.spec_get(seq) {
                Some(c) => DescKeyView::Class(c),
                None => DescKeyView::SeqNum(seq),
            },
        ),
{
    let key = match ctx.suffix_class.get(seq) {
        Some(c) => SuffixDescKey::Class(c.clone()),
        None => SuffixDescKey::SeqNum(seq),
    };
    suffix_description().get(&key)
}

/// The suffix rules: the twenty-eight simple suffixes and the fifteen
/// abbreviated suffixes, each naming the rule that builds compounds for a
/// root followed by a cached suffix.
#[derive(Debug, Clone, Copy, PartialEq, Eq, Structural)]
pub enum SuffixFn {
    Suru,
    Ra,
    Tai,
    Ren,
    RenMinus,
    Neg,
    Te,
    Teiru,
    TeiruPlus,
    TePlusSpace,
    Kudasai,
    TeRen,
    Teii,
    Rou,
    Adv,
    Iadj,
    Tosuru,
    Kurai,
    Chau,
    To,
    Sa,
    Sou,
    SouPlus,
    Sugiru,
    Garu,
    Desu,
    Desho,
    Rashii,
    AbbrNee,
    AbbrNx,
    AbbrN,
    AbbrNakereba,
    AbbrShimasho,
    AbbrDewanai,
    AbbrTeba,
    AbbrReba,
    AbbrKeba,
    AbbrGeba,
    AbbrNeba,
    AbbrBeba,
    AbbrMeba,
    AbbrSeba,
    AbbrIi,
}

/// The suffix registry: suffix key → rule, in registration order.
pub const SUFFIX_LIST: [(&'static str, SuffixFn); 43] = [
    ("suru", SuffixFn::Suru),
    ("ra", SuffixFn::Ra),
    ("tai", SuffixFn::Tai),
    ("ren", SuffixFn::Ren),
    ("ren-", SuffixFn::RenMinus),
    ("neg", SuffixFn::Neg),
    ("te", SuffixFn::Te),
    ("teiru", SuffixFn::Teiru),
    ("teiru+", SuffixFn::TeiruPlus),
    ("te+space", SuffixFn::TePlusSpace),
    ("kudasai", SuffixFn::Kudasai),
    ("teren", SuffixFn::TeRen),
    ("teii", SuffixFn::Teii),
    ("rou", SuffixFn::Rou),
    ("adv", SuffixFn::Adv),
    ("iadj", SuffixFn::Iadj),
    ("tosuru", SuffixFn::Tosuru),
    ("kurai", SuffixFn::Kurai),
    ("chau", SuffixFn::Chau),
    ("to", SuffixFn::To),
    ("sa", SuffixFn::Sa),
    ("sou", SuffixFn::Sou),
    ("sou+", SuffixFn::SouPlus),
    ("sugiru", SuffixFn::Sugiru),
    ("garu", SuffixFn::Garu),
    ("desu", SuffixFn::Desu),
    ("desho", SuffixFn::Desho),
    ("rashii", SuffixFn::Rashii),
    ("nai", SuffixFn::AbbrNee),
    ("nai-x", SuffixFn::AbbrNx),
    ("nai-n", SuffixFn::AbbrN),
    ("nakereba", SuffixFn::AbbrNakereba),
    ("shimashou", SuffixFn::AbbrShimasho),
    ("dewanai", SuffixFn::AbbrDewanai),
    ("teba", SuffixFn::AbbrTeba),
    ("reba", SuffixFn::AbbrReba),
    ("keba", SuffixFn::AbbrKeba),
    ("geba", SuffixFn::AbbrGeba),
    ("neba", SuffixFn::AbbrNeba),
    ("beba", SuffixFn::AbbrBeba),
    ("meba", SuffixFn::AbbrMeba),
    ("seba", SuffixFn::AbbrSeba),
    ("ii", SuffixFn::AbbrIi),
];

/// Looks up a key in a registry of string keys.
fn lookup_static<V: Copy>(table: &[(&'static str, V)], key: &str) -> (r: Option<V>)
    ensures
        r == alist_get(Seq::new(table@.len(), |i: int| (table@[i].0@, table@[i].1)), key@),
{
    let ghost view = Seq::new(table@.len(), |i: int| (table@[i].0@, table@[i].1));
    let mut i: usize = 0;
    assert(view.skip(0) =~= view);
    while i < table.len()
        invariant
            i <= table@.len(),
            view == Seq::new(table@.len(), |i: int| (table@[i].0@, table@[i].1)),
            alist_get(view, key@) == alist_get(view.skip(i as int), key@),
        decreases table@.len() - i,
    {
        assert(view.skip(i as int).drop_first() =~= view.skip(i + 1));
        assert(view.skip(i as int)[0] == view[i as int]);
        let (k, v) = table[i];
        if str_eq(k, key) {
            assert(view.skip(i as int)[0].0 == key@);
            return Some(v);
        }
        i = i + 1;
    }
    assert(view.skip(i as int).len() == 0);
    None
}

/// The suffix registry as values.
pub open spec fn suffix_list_view() -> Seq<(Seq<char>, SuffixFn)> {
    Seq::new(SUFFIX_LIST@.len(), |i: int| (SUFFIX_LIST@[i].0@, SUFFIX_LIST@[i].1))
}

/// The rule registered under `keyword`, if any.
pub fn lookup_suffix_fn(keyword: &str) -> (r: Option<SuffixFn>)
    ensures
        r == alist_get(suffix_list_view(), keyword@),
{
    lookup_static(SUFFIX_LIST.as_slice(), keyword)
}

/// How a suffix class that suppresses further suffix expansion matches.
#[derive(Debug, Clone, Copy, PartialEq, Eq, Structural)]
pub enum SuffixUniqueOnly {
    Bare,
    Desu,
    Sa,
}

/// The suffix classes that suppress suffix expansion of words already
/// matched, each with its match behaviour.
pub const SUFFIX_UNIQUE_ONLY: [(&'static str, SuffixUniqueOnly); 18] = [
    ("ii", SuffixUniqueOnly::Bare),
    ("seba", SuffixUniqueOnly::Bare),
    ("meba", SuffixUniqueOnly::Bare),
    ("beba", SuffixUniqueOnly::Bare),
    ("neba", SuffixUniqueOnly::Bare),
    ("geba", SuffixUniqueOnly::Bare),
    ("keba", SuffixUniqueOnly::Bare),
    ("reba", SuffixUniqueOnly::Bare),
    ("teba", SuffixUniqueOnly::Bare),
    ("eba", SuffixUniqueOnly::Bare),
    ("dewanai", SuffixUniqueOnly::Bare),
    ("nai-n", SuffixUniqueOnly::Bare),
    ("gai", SuffixUniqueOnly::Bare),
    ("nikui", SuffixUniqueOnly::Bare),
    ("mo", SuffixUniqueOnly::Bare),
    ("desu", SuffixUniqueOnly::Desu),
    ("ra", SuffixUniqueOnly::Bare),
    ("sa", SuffixUniqueOnly::Sa),
];

/// The unique-only registry as values.
pub open spec fn unique_only_view() -> Seq<(Seq<char>, SuffixUniqueOnly)> {
    Seq::new(SUFFIX_UNIQUE_ONLY@.len(), |i: int| (SUFFIX_UNIQUE_ONLY@[i].0@, SUFFIX_UNIQUE_ONLY@[i].1))
}

/// The unique-only behaviour of a suffix class, if it has one.
pub fn unique_only_kind(suffix_class: &str) -> (r: Option<SuffixUniqueOnly>)
    ensures
        r == alist_get(unique_only_view(), suffix_class@),
{
    lookup_static(SUFFIX_UNIQUE_ONLY.as_slice(), suffix_class)
}

} // verus!
