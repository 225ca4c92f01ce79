//! The suffix rules: for a root followed by a cached suffix, which
//! dictionary lookups find the primary words, and how the compounds (or,
//! for abbreviations, the proxies) built from them are scored, spliced and
//! stemmed.

use vstd::prelude::*;
use crate::suffix::SuffixFn;
use crate::text::{char_len, concat2, seq_ends_with, str_ends_with, str_eq};
use crate::word::{CompoundText, KaniSimpleTextDispatchEnum, KaniWordDispatchEnum, ProxyText, ScoreMod, SimpleText};
use crate::text::concat3;

verus! {

/// A primary word, alone or with the word whose score stands in for it.
#[derive(Debug)]
pub enum PrimaryWord {
    Bare(KaniWordDispatchEnum),
    WithScoreBase(KaniWordDispatchEnum, KaniWordDispatchEnum),
}

/// A bare word is a primary word without a score base.
impl From<KaniWordDispatchEnum> for PrimaryWord {
    fn from(word: KaniWordDispatchEnum) -> (r: Self) {
        PrimaryWord::Bare(word)
    }
}

impl vstd::std_specs::convert::FromSpecImpl<KaniWordDispatchEnum> for PrimaryWord {
    open spec fn obeys_from_spec() -> bool {
        true
    }

    open spec fn from_spec(v: KaniWordDispatchEnum) -> Self {
        PrimaryWord::Bare(v)
    }
}

/// How a simple suffix splices and scores its compounds.
#[derive(Debug, Clone, Copy)]
pub struct DefSimpleSuffixOpts<'a> {
    /// Characters dropped from the end of the primary word's kana.
    pub stem: usize,
    pub score: ScoreMod,
    /// Text put between the primary word's kana and the suffix.
    pub connector: &'a str,
    /// `(replacement, removed)`: when present, the kana drops as many
    /// characters as `replacement` has and ends in `removed` instead.
    pub patch: Option<(&'a str, &'a str)>,
}

/// Replaces the trailing `removed` characters of `root` with `replacement`
/// (the patch is `(replacement, removed)`).
pub fn apply_patch(root: &str, patch: (&str, &str)) -> (r: String)
    requires
        patch.1@.len() <= root@.len(),
    ensures
        r@ == root@.subrange(0, root@.len() - patch.1@.len()) + patch.0@,
{
    let (replacement, removed) = patch;
    let removed_chars = char_len(removed);
    let root_chars = char_len(root);
    let prefix = root.substring_char(0, root_chars - removed_chars);
    concat2(prefix, replacement)
}

/// A dictionary lookup that a suffix rule asks for.
#[derive(Debug)]
pub enum WordQuery {
    /// Conjugated words with this text whose conjugation type is one of these.
    ConjType(String, Vec<i32>),
    /// Negative conjugations with this text not derived from any of these
    /// entries; with the flag, unconjugated words with this text too.
    ConjNeg(String, Vec<i32>, bool),
    /// Words with this text and this part of speech.
    Pos(String, &'static str),
    /// Words with this text and this part of speech, or failing that the
    /// same lookup on the text read as hiragana.
    PosOrAsHiragana(String, &'static str),
    /// Words with this text of this entry.
    SeqOf(String, i32),
    /// Conjugated words with this text derived from this entry.
    ConjOf(String, i32),
    /// Words with this text formed with this suffix.
    WithSuffix(String, &'static str),
    /// Every word with this text.
    Full(String),
}

/// A lookup as values.
pub enum QueryView {
    ConjType(Seq<char>, Seq<i32>),
    ConjNeg(Seq<char>, Seq<i32>, bool),
    Pos(Seq<char>, Seq<char>),
    PosOrAsHiragana(Seq<char>, Seq<char>),
    SeqOf(Seq<char>, i32),
    ConjOf(Seq<char>, i32),
    WithSuffix(Seq<char>, Seq<char>),
    Full(Seq<char>),
}

/// A lookup as values.
pub open spec fn query_view(q: WordQuery) -> QueryView {
    match q {
        WordQuery::ConjType(w, t) => QueryView::ConjType(w@, t@),
        WordQuery::ConjNeg(w, x, r) => QueryView::ConjNeg(w@, x@, r),
        WordQuery::Pos(w, p) => QueryView::Pos(w@, p@),
        WordQuery::PosOrAsHiragana(w, p) => QueryView::PosOrAsHiragana(w@, p@),
        WordQuery::SeqOf(w, s) => QueryView::SeqOf(w@, s),
        WordQuery::ConjOf(w, s) => QueryView::ConjOf(w@, s),
        WordQuery::WithSuffix(w, k) => QueryView::WithSuffix(w@, k@),
        WordQuery::Full(w) => QueryView::Full(w@),
    }
}

/// One lookup of a plan: what to look up, the patch the compounds then
/// use, and whether it runs without the sentence's suffix map.
#[derive(Debug)]
pub struct Lookup {
    pub query: WordQuery,
    pub patch: Option<(&'static str, &'static str)>,
    pub fresh_map: bool,
}

/// How the results of a plan's lookups make the primary words.
#[derive(Debug, Clone, Copy, PartialEq, Eq, Structural)]
pub enum Combine {
    /// All results, in lookup order.
    All,
    /// The results of the first lookup that finds any.
    FirstFound,
    /// The two results paired by conjugation: the first word of a pair is
    /// the primary word and the second its score base.
    Paired,
}

/// What a suffix rule does for one root and suffix.
#[derive(Debug)]
pub struct SuffixPlan {
    pub lookups: Vec<Lookup>,
    pub combine: Combine,
    pub stem: usize,
    pub score: ScoreMod,
    pub connector: &'static str,
    /// Whether the rule builds abbreviations (proxies whose text and kana
    /// splice the root and the suffix) rather than compounds.
    pub abbreviation: bool,
}

/// A plan as values: lookups (query, patch, fresh map), combination,
/// stem, score, connector, abbreviation.
pub type PlanView = (
    Seq<(QueryView, Option<(Seq<char>, Seq<char>)>, bool)>,
    Combine,
    int,
    ScoreMod,
    Seq<char>,
    bool,
);

/// An optional patch as values.
pub open spec fn patch_view(p: Option<(&'static str, &'static str)>) -> Option<(Seq<char>, Seq<char>)> {
    match p {
        Some(pp) => Some((pp.0@, pp.1@)),
        None => None,
    }
}

/// Lookups as values.
pub open spec fn lookups_view(ls: Seq<Lookup>) -> Seq<(QueryView, Option<(Seq<char>, Seq<char>)>, bool)> {
    Seq::new(ls.len(), |i: int| (query_view(ls[i].query), patch_view(ls[i].patch), ls[i].fresh_map))
}

/// A plan as values.
pub open spec fn plan_view(p: SuffixPlan) -> PlanView {
    (
        lookups_view(p.lookups@),
        p.combine,
        p.stem as int,
        p.score,
        p.connector@,
        p.abbreviation,
    )
}

/// A lookup as values.
pub open spec fn lk(q: QueryView, patch: Option<(Seq<char>, Seq<char>)>, fresh: bool) -> (QueryView, Option<(Seq<char>, Seq<char>)>, bool) {
    (q, patch, fresh)
}

/// The rules that read the last character of the root.
pub open spec fn reads_last_char(rule: SuffixFn) -> bool {
    match rule {
        SuffixFn::Te | SuffixFn::Teiru | SuffixFn::TeiruPlus | SuffixFn::TePlusSpace | SuffixFn::Kudasai
        | SuffixFn::TeRen | SuffixFn::Teii => true,
        _ => false,
    }
}

/// Whether the last character of `s` is て or で.
pub open spec fn ends_te(s: Seq<char>) -> bool {
    s.len() > 0 && (s.last() == 'て' || s.last() == 'で')
}

/// The te-form lookup: conj-type 3 for a root that ends in て or で and
/// is not で itself.
pub open spec fn te_check_spec(root: Seq<char>) -> Seq<(QueryView, Option<(Seq<char>, Seq<char>)>, bool)> {
    if root == "で"@ || !ends_te(root) {
        Seq::empty()
    } else {
        seq![lk(QueryView::ConjType(root, seq![3i32]), None, false)]
    }
}

/// The te-form lookup for ～ている: none for いて, else [`te_check_spec`].
pub open spec fn teiru_check_spec(root: Seq<char>) -> Seq<(QueryView, Option<(Seq<char>, Seq<char>)>, bool)> {
    if root == "いて"@ {
        Seq::empty()
    } else {
        te_check_spec(root)
    }
}

/// The lookup of the ～そう rules.
pub open spec fn sou_base_spec(root: Seq<char>) -> Seq<(QueryView, Option<(Seq<char>, Seq<char>)>, bool)> {
    if seq_ends_with(root, "なさ"@) {
        seq![lk(
            QueryView::ConjNeg(root.subrange(0, root.len() - 1) + "い"@, Seq::empty(), false),
            Some(("い"@, "さ"@)),
            true,
        )]
    } else if root == "な"@ || root == "よ"@ || root == "よさ"@ || root == "に"@ || root == "き"@ {
        Seq::empty()
    } else {
        seq![lk(QueryView::ConjType(root, seq![13i32, 51i32, 50i32]), None, false)]
    }
}

/// One conj-type lookup on `root`.
pub open spec fn conj_type_spec(root: Seq<char>, types: Seq<i32>) -> Seq<(QueryView, Option<(Seq<char>, Seq<char>)>, bool)> {
    seq![lk(QueryView::ConjType(root, types), None, false)]
}

/// An abbreviation's lookup of the full form.
pub open spec fn full_spec(root: Seq<char>, tail: Seq<char>) -> Seq<(QueryView, Option<(Seq<char>, Seq<char>)>, bool)> {
    seq![lk(QueryView::Full(root + tail), None, true)]
}

/// The plan of `rule` for `root` followed by `suffix`.
pub open spec fn spec_suffix_plan(rule: SuffixFn, root: Seq<char>, suffix: Seq<char>) -> PlanView {
    match rule {
        SuffixFn::Tai => (
            if root == "い"@ { Seq::empty() } else { conj_type_spec(root, seq![13i32]) },
            Combine::All, 0, ScoreMod::Single(5), ""@, false,
        ),
        SuffixFn::Ren => (conj_type_spec(root, seq![13i32]), Combine::All, 0, ScoreMod::Single(5), ""@, false),
        SuffixFn::RenMinus => (conj_type_spec(root, seq![13i32]), Combine::All, 0, ScoreMod::Single(0), ""@, false),
        SuffixFn::Neg => (conj_type_spec(root, seq![13i32, 52i32]), Combine::All, 0, ScoreMod::Single(5), ""@, false),
        SuffixFn::Te => (te_check_spec(root), Combine::All, 0, ScoreMod::Single(0), ""@, false),
        SuffixFn::Teiru => (teiru_check_spec(root), Combine::All, 0, ScoreMod::Single(3), ""@, false),
        SuffixFn::TeiruPlus => (teiru_check_spec(root), Combine::All, 0, ScoreMod::Single(6), ""@, false),
        SuffixFn::TePlusSpace => (te_check_spec(root), Combine::All, 0, ScoreMod::Single(3), " "@, false),
        SuffixFn::Kudasai => (te_check_spec(root), Combine::All, 0, ScoreMod::Constant(360), " "@, false),
        SuffixFn::TeRen => (
            if root == "で"@ {
                Seq::empty()
            } else if ends_te(root) {
                conj_type_spec(root, seq![3i32])
            } else if root != "い"@ {
                conj_type_spec(root, seq![13i32])
            } else {
                Seq::empty()
            },
            Combine::All, 0, ScoreMod::Single(4), ""@, false,
        ),
        SuffixFn::Teii => (
            if ends_te(root) { conj_type_spec(root, seq![3i32]) } else { Seq::empty() },
            Combine::All, 0, ScoreMod::Single(1), " "@, false,
        ),
        SuffixFn::Chau => (
            if suffix.len() > 0 && suffix[0] == 'じ' {
                seq![lk(QueryView::ConjType(root + "で"@, seq![3i32]), None, true)]
            } else if suffix.len() > 0 && suffix[0] == 'ち' {
                seq![lk(QueryView::ConjType(root + "て"@, seq![3i32]), None, true)]
            } else {
                Seq::empty()
            },
            Combine::All, 1, ScoreMod::Single(5), ""@, false,
        ),
        SuffixFn::To => (
            if suffix.len() > 0 && suffix[0] == 'と' {
                seq![lk(QueryView::ConjType(root + "て"@, seq![3i32]), None, true)]
            } else if suffix.len() > 0 && suffix[0] == 'ど' {
                seq![lk(QueryView::ConjType(root + "で"@, seq![3i32]), None, true)]
            } else {
                Seq::empty()
            },
            Combine::All, 1, ScoreMod::Single(0), ""@, false,
        ),
        SuffixFn::Suru => (seq![lk(QueryView::Pos(root, "vs"@), None, false)], Combine::All, 0, ScoreMod::Single(5), " "@, false),
        SuffixFn::Sou => (
            sou_base_spec(root),
            Combine::All, 0,
            ScoreMod::Constant(
                if root == "から"@ { 40 } else if root == "い"@ { 0 } else if root == "出来"@ { 100 } else { 70 },
            ),
            ""@, false,
        ),
        SuffixFn::SouPlus => (sou_base_spec(root), Combine::All, 0, ScoreMod::Single(1), ""@, false),
        SuffixFn::Rou => (conj_type_spec(root, seq![2i32]), Combine::All, 0, ScoreMod::Single(1), ""@, false),
        SuffixFn::Adv => (conj_type_spec(root, seq![50i32]), Combine::All, 0, ScoreMod::Single(1), ""@, false),
        SuffixFn::Sugiru => (
            if root == "い"@ {
                Seq::empty()
            } else if seq_ends_with(root, "なさ"@) || seq_ends_with(root, "無さ"@) {
                let new_root = root.subrange(0, root.len() - 1) + "い"@;
                if new_root.len() > 2 {
                    seq![lk(QueryView::ConjNeg(new_root, Seq::empty(), false), Some(("い"@, "さ"@)), true)]
                } else {
                    seq![lk(QueryView::Pos(new_root, "adj-i"@), Some(("い"@, "さ"@)), true)]
                }
            } else {
                seq![lk(QueryView::Pos(root + "い"@, "adj-i"@), None, true)]
            },
            Combine::All, 1, ScoreMod::Single(5), ""@, false,
        ),
        SuffixFn::Sa => (
            seq![
                lk(QueryView::ConjType(root, seq![51i32]), None, false),
                lk(QueryView::Pos(root, "adj-na"@), None, false),
            ],
            Combine::All, 0, ScoreMod::Single(2), ""@, false,
        ),
        SuffixFn::Iadj => (conj_type_spec(root, seq![51i32]), Combine::All, 0, ScoreMod::Single(1), ""@, false),
        SuffixFn::Garu => (
            if root == "な"@ || root == "い"@ || root == "よ"@ {
                Seq::empty()
            } else if seq_ends_with(root, "そ"@) {
                seq![
                    lk(QueryView::ConjType(root, seq![51i32]), None, false),
                    lk(QueryView::WithSuffix(root + "う"@, "sou"@), Some(("う"@, ""@)), true),
                ]
            } else {
                conj_type_spec(root, seq![51i32])
            },
            Combine::FirstFound, 0, ScoreMod::Single(0), ""@, false,
        ),
        SuffixFn::Ra => (
            if seq_ends_with(root, "ら"@) {
                Seq::empty()
            } else {
                seq![
                    lk(QueryView::PosOrAsHiragana(root, "pn"@), None, false),
                    lk(QueryView::SeqOf(root, 1580640), None, false),
                ]
            },
            Combine::FirstFound, 0, ScoreMod::Single(1), ""@, false,
        ),
        SuffixFn::Rashii => (
            seq![
                lk(QueryView::ConjType(root, seq![2i32]), None, false),
                lk(QueryView::ConjType(root + "ら"@, seq![11i32]), None, false),
            ],
            Combine::Paired, 0, ScoreMod::Single(3), ""@, false,
        ),
        SuffixFn::Desu => (
            if seq_ends_with(root, "ない"@) || seq_ends_with(root, "なかった"@) {
                seq![lk(QueryView::ConjNeg(root, Seq::empty(), false), None, false)]
            } else {
                Seq::empty()
            },
            Combine::All, 0, ScoreMod::Constant(200), " "@, false,
        ),
        SuffixFn::Desho => (
            if seq_ends_with(root, "ない"@) {
                seq![lk(QueryView::ConjNeg(root, Seq::empty(), false), None, false)]
            } else {
                Seq::empty()
            },
            Combine::All, 0, ScoreMod::Constant(300), " "@, false,
        ),
        SuffixFn::Tosuru => (conj_type_spec(root, seq![9i32]), Combine::All, 0, ScoreMod::Single(3), " "@, false),
        SuffixFn::Kurai => (conj_type_spec(root, seq![2i32]), Combine::All, 0, ScoreMod::Single(3), " "@, false),
        SuffixFn::AbbrNee => (
            seq![lk(QueryView::ConjNeg(root + "ない"@, seq![1577980i32, 1547720i32], true), None, true)],
            Combine::All, 2, ScoreMod::Single(0), ""@, true,
        ),
        SuffixFn::AbbrNx => (
            if root == "せ"@ {
                seq![lk(QueryView::ConjOf("しない"@, 1157170), Some(("しない"@, "せ"@)), true)]
            } else {
                seq![lk(QueryView::ConjNeg(root + "ない"@, seq![1157170i32], false), None, true)]
            },
            Combine::All, 2, ScoreMod::Single(0), ""@, true,
        ),
        SuffixFn::AbbrN => (
            seq![lk(QueryView::ConjNeg(root + "ない"@, seq![1577980i32, 1547720i32], false), None, true)],
            Combine::All, 2, ScoreMod::Single(0), ""@, true,
        ),
        SuffixFn::AbbrNakereba => (full_spec(root, "なければ"@), Combine::All, 4, ScoreMod::Single(0), ""@, true),
        SuffixFn::AbbrShimasho => (full_spec(root, "しましょう"@), Combine::All, 5, ScoreMod::Single(0), ""@, true),
        SuffixFn::AbbrDewanai => (full_spec(root, "ではない"@), Combine::All, 4, ScoreMod::Single(0), ""@, true),
        SuffixFn::AbbrTeba => (full_spec(root, "てば"@), Combine::All, 2, ScoreMod::Single(0), ""@, true),
        SuffixFn::AbbrReba => (full_spec(root, "れば"@), Combine::All, 2, ScoreMod::Single(0), ""@, true),
        SuffixFn::AbbrKeba => (full_spec(root, "けば"@), Combine::All, 2, ScoreMod::Single(0), ""@, true),
        SuffixFn::AbbrGeba => (full_spec(root, "げば"@), Combine::All, 2, ScoreMod::Single(0), ""@, true),
        SuffixFn::AbbrNeba => (full_spec(root, "ねば"@), Combine::All, 2, ScoreMod::Single(0), ""@, true),
        SuffixFn::AbbrBeba => (full_spec(root, "べば"@), Combine::All, 2, ScoreMod::Single(0), ""@, true),
        SuffixFn::AbbrMeba => (full_spec(root, "めば"@), Combine::All, 2, ScoreMod::Single(0), ""@, true),
        SuffixFn::AbbrSeba => (full_spec(root, "せば"@), Combine::All, 2, ScoreMod::Single(0), ""@, true),
        SuffixFn::AbbrIi => (full_spec(root, "いい"@), Combine::All, 2, ScoreMod::Single(0), ""@, true),
    }
}

/// A one-element list.
fn ints1(a: i32) -> (r: Vec<i32>)
    ensures
        r@ == seq![a],
{
    let mut r: Vec<i32> = Vec::new();
    r.push(a);
    assert(r@ =~= seq![a]);
    r
}

/// A two-element list.
fn ints2(a: i32, b: i32) -> (r: Vec<i32>)
    ensures
        r@ == seq![a, b],
{
    let mut r: Vec<i32> = Vec::new();
    r.push(a);
    r.push(b);
    assert(r@ =~= seq![a, b]);
    r
}

/// A three-element list.
fn ints3(a: i32, b: i32, c: i32) -> (r: Vec<i32>)
    ensures
        r@ == seq![a, b, c],
{
    let mut r: Vec<i32> = Vec::new();
    r.push(a);
    r.push(b);
    r.push(c);
    assert(r@ =~= seq![a, b, c]);
    r
}

/// A single lookup.
fn lookup1(query: WordQuery, patch: Option<(&'static str, &'static str)>, fresh_map: bool) -> (r: Vec<Lookup>)
    ensures
        lookups_view(r@) == seq![lk(query_view(query), patch_view(patch), fresh_map)],
{
    let mut r: Vec<Lookup> = Vec::new();
    r.push(Lookup { query, patch, fresh_map });
    assert(lookups_view(r@) =~= seq![lk(query_view(query), patch_view(patch), fresh_map)]);
    r
}

/// Two lookups, in order.
fn lookup2(a: Lookup, b: Lookup) -> (r: Vec<Lookup>)
    ensures
        lookups_view(r@) == seq![
            lk(query_view(a.query), patch_view(a.patch), a.fresh_map),
            lk(query_view(b.query), patch_view(b.patch), b.fresh_map),
        ],
{
    let ghost va = lk(query_view(a.query), patch_view(a.patch), a.fresh_map);
    let ghost vb = lk(query_view(b.query), patch_view(b.patch), b.fresh_map);
    let mut r: Vec<Lookup> = Vec::new();
    r.push(a);
    r.push(b);
    assert(lookups_view(r@) =~= seq![va, vb]);
    r
}

/// No lookup.
fn no_lookup() -> (r: Vec<Lookup>)
    ensures
        lookups_view(r@) == Seq::<(QueryView, Option<(Seq<char>, Seq<char>)>, bool)>::empty(),
{
    let r: Vec<Lookup> = Vec::new();
    assert(lookups_view(r@) =~= Seq::<(QueryView, Option<(Seq<char>, Seq<char>)>, bool)>::empty());
    r
}

/// One conj-type lookup on `root`.
fn conj_type(root: &str, types: Vec<i32>) -> (r: Vec<Lookup>)
    ensures
        lookups_view(r@) == conj_type_spec(root@, types@),
{
    lookup1(WordQuery::ConjType(root.to_owned(), types), None, false)
}

/// An abbreviation's lookup of `root` followed by `tail`.
fn full(root: &str, tail: &str) -> (r: Vec<Lookup>)
    ensures
        lookups_view(r@) == full_spec(root@, tail@),
{
    lookup1(WordQuery::Full(concat2(root, tail)), None, true)
}

/// Whether the last character of `s` is て or で.
fn ends_te_exec(s: &str) -> (r: bool)
    ensures
        r == ends_te(s@),
{
    let n = char_len(s);
    if n == 0 {
        false
    } else {
        let c = s.get_char(n - 1);
        c == 'て' || c == 'で'
    }
}

/// The te-form lookup: conj-type 3 for a root that ends in て or で and
/// is not で itself.
pub fn te_check(root: &str) -> (r: Vec<Lookup>)
    requires
        root@.len() > 0,
    ensures
        lookups_view(r@) == te_check_spec(root@),
{
    if str_eq(root, "で") || !ends_te_exec(root) {
        no_lookup()
    } else {
        conj_type(root, ints1(3))
    }
}

/// The te-form lookup for ～ている: none for いて, else [`te_check`].
pub fn teiru_check(root: &str) -> (r: Vec<Lookup>)
    requires
        root@.len() > 0,
    ensures
        lookups_view(r@) == teiru_check_spec(root@),
{
    if str_eq(root, "いて") {
        no_lookup()
    } else {
        te_check(root)
    }
}

/// The lookup of the ～そう rules: for a root ending in なさ, the negative
/// conjugations of the root patched to ～ない's stem; otherwise (unless
/// the root is な, よ, よさ, に or き) conj-types 13, 51 and 50.
pub fn suffix_sou_base_body(root: &str) -> (r: Vec<Lookup>)
    ensures
        lookups_view(r@) == sou_base_spec(root@),
{
    if str_ends_with(root, "なさ") {
        proof {
            reveal_strlit("なさ");
            reveal_strlit("さ");
        }
        let patched = apply_patch(root, ("い", "さ"));
        lookup1(WordQuery::ConjNeg(patched, Vec::new(), false), Some(("い", "さ")), true)
    } else if str_eq(root, "な") || str_eq(root, "よ") || str_eq(root, "よさ") || str_eq(root, "に") || str_eq(root, "き") {
        no_lookup()
    } else {
        conj_type(root, ints3(13, 51, 50))
    }
}

/// The plan of `rule` for `root` followed by `suffix`.
pub fn suffix_plan(rule: SuffixFn, root: &str, suffix: &str) -> (r: SuffixPlan)
    requires
        reads_last_char(rule) ==> root@.len() > 0,
    ensures
        plan_view(r) == spec_suffix_plan(rule, root@, suffix@),
{
    let suffix_len = char_len(suffix);
    match rule {
        SuffixFn::Tai => {
            let lookups = if str_eq(root, "い") {
                no_lookup()
            } else {
                conj_type(root, ints1(13))
            };
            SuffixPlan { lookups, combine: Combine::All, stem: 0, score: ScoreMod::Single(5), connector: "", abbreviation: false }
        },
        SuffixFn::Ren => SuffixPlan {
            lookups: conj_type(root, ints1(13)), combine: Combine::All, stem: 0, score: ScoreMod::Single(5), connector: "", abbreviation: false,
        },
        SuffixFn::RenMinus => SuffixPlan {
            lookups: conj_type(root, ints1(13)), combine: Combine::All, stem: 0, score: ScoreMod::Single(0), connector: "", abbreviation: false,
        },
        SuffixFn::Neg => SuffixPlan {
            lookups: conj_type(root, ints2(13, 52)), combine: Combine::All, stem: 0, score: ScoreMod::Single(5), connector: "", abbreviation: false,
        },
        SuffixFn::Te => SuffixPlan {
            lookups: te_check(root), combine: Combine::All, stem: 0, score: ScoreMod::Single(0), connector: "", abbreviation: false,
        },
        SuffixFn::Teiru => SuffixPlan {
            lookups: teiru_check(root), combine: Combine::All, stem: 0, score: ScoreMod::Single(3), connector: "", abbreviation: false,
        },
        SuffixFn::TeiruPlus => SuffixPlan {
            lookups: teiru_check(root), combine: Combine::All, stem: 0, score: ScoreMod::Single(6), connector: "", abbreviation: false,
        },
        SuffixFn::TePlusSpace => SuffixPlan {
            lookups: te_check(root), combine: Combine::All, stem: 0, score: ScoreMod::Single(3), connector: " ", abbreviation: false,
        },
        SuffixFn::Kudasai => SuffixPlan {
            lookups: te_check(root), combine: Combine::All, stem: 0, score: ScoreMod::Constant(360), connector: " ", abbreviation: false,
        },
        SuffixFn::TeRen => {
            let lookups = if str_eq(root, "で") {
                no_lookup()
            } else if ends_te_exec(root) {
                conj_type(root, ints1(3))
            } else if !str_eq(root, "い") {
                conj_type(root, ints1(13))
            } else {
                no_lookup()
            };
            SuffixPlan { lookups, combine: Combine::All, stem: 0, score: ScoreMod::Single(4), connector: "", abbreviation: false }
        },
        SuffixFn::Teii => {
            let lookups = if ends_te_exec(root) { conj_type(root, ints1(3)) } else { no_lookup() };
            SuffixPlan { lookups, combine: Combine::All, stem: 0, score: ScoreMod::Single(1), connector: " ", abbreviation: false }
        },
        SuffixFn::Chau => {
            let lookups = if suffix_len > 0 && suffix.get_char(0) == 'じ' {
                lookup1(WordQuery::ConjType(concat2(root, "で"), ints1(3)), None, true)
            } else if suffix_len > 0 && suffix.get_char(0) == 'ち' {
                lookup1(WordQuery::ConjType(concat2(root, "て"), ints1(3)), None, true)
            } else {
                no_lookup()
            };
            SuffixPlan { lookups, combine: Combine::All, stem: 1, score: ScoreMod::Single(5), connector: "", abbreviation: false }
        },
        SuffixFn::To => {
            let lookups = if suffix_len > 0 && suffix.get_char(0) == 'と' {
                lookup1(WordQuery::ConjType(concat2(root, "て"), ints1(3)), None, true)
            } else if suffix_len > 0 && suffix.get_char(0) == 'ど' {
                lookup1(WordQuery::ConjType(concat2(root, "で"), ints1(3)), None, true)
            } else {
                no_lookup()
            };
            SuffixPlan { lookups, combine: Combine::All, stem: 1, score: ScoreMod::Single(0), connector: "", abbreviation: false }
        },
        SuffixFn::Suru => SuffixPlan {
            lookups: lookup1(WordQuery::Pos(root.to_owned(), "vs"), None, false),
            combine: Combine::All, stem: 0, score: ScoreMod::Single(5), connector: " ", abbreviation: false,
        },
        SuffixFn::Sou => {
            let score: i64 = if str_eq(root, "から") {
                40
            } else if str_eq(root, "い") {
                0
            } else if str_eq(root, "出来") {
                100
            } else {
                70
            };
            SuffixPlan {
                lookups: suffix_sou_base_body(root), combine: Combine::All, stem: 0, score: ScoreMod::Constant(score), connector: "", abbreviation: false,
            }
        },
        SuffixFn::SouPlus => SuffixPlan {
            lookups: suffix_sou_base_body(root), combine: Combine::All, stem: 0, score: ScoreMod::Single(1), connector: "", abbreviation: false,
        },
        SuffixFn::Rou => SuffixPlan {
            lookups: conj_type(root, ints1(2)), combine: Combine::All, stem: 0, score: ScoreMod::Single(1), connector: "", abbreviation: false,
        },
        SuffixFn::Adv => SuffixPlan {
            lookups: conj_type(root, ints1(50)), combine: Combine::All, stem: 0, score: ScoreMod::Single(1), connector: "", abbreviation: false,
        },
        SuffixFn::Sugiru => {
            let lookups = if str_eq(root, "い") {
                no_lookup()
            } else if str_ends_with(root, "なさ") || str_ends_with(root, "無さ") {
                proof {
                    reveal_strlit("なさ");
                    reveal_strlit("無さ");
                    reveal_strlit("さ");
                }
                let new_root = apply_patch(root, ("い", "さ"));
                if char_len(new_root.as_str()) > 2 {
                    lookup1(WordQuery::ConjNeg(new_root, Vec::new(), false), Some(("い", "さ")), true)
                } else {
                    lookup1(WordQuery::Pos(new_root, "adj-i"), Some(("い", "さ")), true)
                }
            } else {
                lookup1(WordQuery::Pos(concat2(root, "い"), "adj-i"), None, true)
            };
            SuffixPlan { lookups, combine: Combine::All, stem: 1, score: ScoreMod::Single(5), connector: "", abbreviation: false }
        },
        SuffixFn::Sa => SuffixPlan {
            lookups: lookup2(
                Lookup { query: WordQuery::ConjType(root.to_owned(), ints1(51)), patch: None, fresh_map: false },
                Lookup { query: WordQuery::Pos(root.to_owned(), "adj-na"), patch: None, fresh_map: false },
            ),
            combine: Combine::All, stem: 0, score: ScoreMod::Single(2), connector: "", abbreviation: false,
        },
        SuffixFn::Iadj => SuffixPlan {
            lookups: conj_type(root, ints1(51)), combine: Combine::All, stem: 0, score: ScoreMod::Single(1), connector: "", abbreviation: false,
        },
        SuffixFn::Garu => {
            let lookups = if str_eq(root, "な") || str_eq(root, "い") || str_eq(root, "よ") {
                no_lookup()
            } else if str_ends_with(root, "そ") {
                proof {
                    reveal_strlit("");
                }
                assert(root@.subrange(0, root@.len() - ""@.len()) =~= root@);
                lookup2(
                    Lookup { query: WordQuery::ConjType(root.to_owned(), ints1(51)), patch: None, fresh_map: false },
                    Lookup { query: WordQuery::WithSuffix(apply_patch(root, ("う", "")), "sou"), patch: Some(("う", "")), fresh_map: true },
                )
            } else {
                conj_type(root, ints1(51))
            };
            SuffixPlan { lookups, combine: Combine::FirstFound, stem: 0, score: ScoreMod::Single(0), connector: "", abbreviation: false }
        },
        SuffixFn::Ra => {
            let lookups = if str_ends_with(root, "ら") {
                no_lookup()
            } else {
                lookup2(
                    Lookup { query: WordQuery::PosOrAsHiragana(root.to_owned(), "pn"), patch: None, fresh_map: false },
                    Lookup { query: WordQuery::SeqOf(root.to_owned(), 1580640), patch: None, fresh_map: false },
                )
            };
            SuffixPlan { lookups, combine: Combine::FirstFound, stem: 0, score: ScoreMod::Single(1), connector: "", abbreviation: false }
        },
        SuffixFn::Rashii => SuffixPlan {
            lookups: lookup2(
                Lookup { query: WordQuery::ConjType(root.to_owned(), ints1(2)), patch: None, fresh_map: false },
                Lookup { query: WordQuery::ConjType(concat2(root, "ら"), ints1(11)), patch: None, fresh_map: false },
            ),
            combine: Combine::Paired, stem: 0, score: ScoreMod::Single(3), connector: "", abbreviation: false,
        },
        SuffixFn::Desu => {
            let lookups = if str_ends_with(root, "ない") || str_ends_with(root, "なかった") {
                lookup1(WordQuery::ConjNeg(root.to_owned(), Vec::new(), false), None, false)
            } else {
                no_lookup()
            };
            SuffixPlan { lookups, combine: Combine::All, stem: 0, score: ScoreMod::Constant(200), connector: " ", abbreviation: false }
        },
        SuffixFn::Desho => {
            let lookups = if str_ends_with(root, "ない") {
                lookup1(WordQuery::ConjNeg(root.to_owned(), Vec::new(), false), None, false)
            } else {
                no_lookup()
            };
            SuffixPlan { lookups, combine: Combine::All, stem: 0, score: ScoreMod::Constant(300), connector: " ", abbreviation: false }
        },
        SuffixFn::Tosuru => SuffixPlan {
            lookups: conj_type(root, ints1(9)), combine: Combine::All, stem: 0, score: ScoreMod::Single(3), connector: " ", abbreviation: false,
        },
        SuffixFn::Kurai => SuffixPlan {
            lookups: conj_type(root, ints1(2)), combine: Combine::All, stem: 0, score: ScoreMod::Single(3), connector: " ", abbreviation: false,
        },
        SuffixFn::AbbrNee => SuffixPlan {
            lookups: lookup1(WordQuery::ConjNeg(concat2(root, "ない"), ints2(1577980, 1547720), true), None, true),
            combine: Combine::All, stem: 2, score: ScoreMod::Single(0), connector: "", abbreviation: true,
        },
        SuffixFn::AbbrNx => {
            let lookups = if str_eq(root, "せ") {
                lookup1(WordQuery::ConjOf("しない".to_owned(), 1157170), Some(("しない", "せ")), true)
            } else {
                lookup1(WordQuery::ConjNeg(concat2(root, "ない"), ints1(1157170), false), None, true)
            };
            SuffixPlan { lookups, combine: Combine::All, stem: 2, score: ScoreMod::Single(0), connector: "", abbreviation: true }
        },
        SuffixFn::AbbrN => SuffixPlan {
            lookups: lookup1(WordQuery::ConjNeg(concat2(root, "ない"), ints2(1577980, 1547720), false), None, true),
            combine: Combine::All, stem: 2, score: ScoreMod::Single(0), connector: "", abbreviation: true,
        },
        SuffixFn::AbbrNakereba => SuffixPlan {
            lookups: full(root, "なければ"), combine: Combine::All, stem: 4, score: ScoreMod::Single(0), connector: "", abbreviation: true,
        },
        SuffixFn::AbbrShimasho => SuffixPlan {
            lookups: full(root, "しましょう"), combine: Combine::All, stem: 5, score: ScoreMod::Single(0), connector: "", abbreviation: true,
        },
        SuffixFn::AbbrDewanai => SuffixPlan {
            lookups: full(root, "ではない"), combine: Combine::All, stem: 4, score: ScoreMod::Single(0), connector: "", abbreviation: true,
        },
        SuffixFn::AbbrTeba => SuffixPlan {
            lookups: full(root, "てば"), combine: Combine::All, stem: 2, score: ScoreMod::Single(0), connector: "", abbreviation: true,
        },
        SuffixFn::AbbrReba => SuffixPlan {
            lookups: full(root, "れば"), combine: Combine::All, stem: 2, score: ScoreMod::Single(0), connector: "", abbreviation: true,
        },
        SuffixFn::AbbrKeba => SuffixPlan {
            lookups: full(root, "けば"), combine: Combine::All, stem: 2, score: ScoreMod::Single(0), connector: "", abbreviation: true,
        },
        SuffixFn::AbbrGeba => SuffixPlan {
            lookups: full(root, "げば"), combine: Combine::All, stem: 2, score: ScoreMod::Single(0), connector: "", abbreviation: true,
        },
        SuffixFn::AbbrNeba => SuffixPlan {
            lookups: full(root, "ねば"), combine: Combine::All, stem: 2, score: ScoreMod::Single(0), connector: "", abbreviation: true,
        },
        SuffixFn::AbbrBeba => SuffixPlan {
            lookups: full(root, "べば"), combine: Combine::All, stem: 2, score: ScoreMod::Single(0), connector: "", abbreviation: true,
        },
        SuffixFn::AbbrMeba => SuffixPlan {
            lookups: full(root, "めば"), combine: Combine::All, stem: 2, score: ScoreMod::Single(0), connector: "", abbreviation: true,
        },
        SuffixFn::AbbrSeba => SuffixPlan {
            lookups: full(root, "せば"), combine: Combine::All, stem: 2, score: ScoreMod::Single(0), connector: "", abbreviation: true,
        },
        SuffixFn::AbbrIi => SuffixPlan {
            lookups: full(root, "いい"), combine: Combine::All, stem: 2, score: ScoreMod::Single(0), connector: "", abbreviation: true,
        },
    }
}

/// A reading with its last `stem` kana dropped; a reading shorter than
/// `stem` stays whole.
pub open spec fn destem_kana(k: Seq<char>, stem: int) -> Seq<char> {
    if 0 <= stem <= k.len() {
        k.subrange(0, k.len() - stem)
    } else {
        k
    }
}

/// The kana a suffix is put behind: with a patch `(dropped, added)`, the
/// reading loses as many characters as `dropped` has and ends in `added`;
/// without one it loses `stem` characters.
pub open spec fn trimmed_kana(k: Seq<char>, stem: int, patch: Option<(Seq<char>, Seq<char>)>) -> Seq<char> {
    match patch {
        Some(p) => destem_kana(k, p.0.len() as int) + p.1,
        None => destem_kana(k, stem),
    }
}

/// A reading that may be missing, as values (a missing one is empty).
pub open spec fn kana_or_empty(k: Option<String>) -> Seq<char> {
    match k {
        Some(s) => s@,
        None => Seq::empty(),
    }
}

/// An optional patch as values.
pub open spec fn opt_patch_view(p: Option<(&str, &str)>) -> Option<(Seq<char>, Seq<char>)> {
    match p {
        Some(pp) => Some((pp.0@, pp.1@)),
        None => None,
    }
}

/// `word` with its last `stem` kana dropped (whole when shorter).
pub fn destem(word: &str, stem: usize) -> (r: String)
    ensures
        r@ == destem_kana(word@, stem as int),
{
    let n = char_len(word);
    if stem <= n {
        word.substring_char(0, n - stem).to_owned()
    } else {
        word.to_owned()
    }
}

/// The kana a suffix is put behind, from the primary word's reading.
pub fn trim_kana(kana: &str, stem: usize, patch: Option<(&str, &str)>) -> (r: String)
    ensures
        r@ == trimmed_kana(kana@, stem as int, opt_patch_view(patch)),
{
    match patch {
        Some((dropped, added)) => {
            let d = destem(kana, char_len(dropped));
            concat2(d.as_str(), added)
        },
        None => destem(kana, stem),
    }
}

/// The text and kana of a simple-suffix compound: the root followed by the
/// suffix, and the primary word's reading (empty when it has none),
/// trimmed by the options' stem or patch, then the connector and the
/// suffix.
pub fn simple_suffix_texts(root: &str, suffix: &str, kana: Option<String>, opts: &DefSimpleSuffixOpts) -> (r: (String, String))
    ensures
        r.0@ == root@ + suffix@,
        r.1@ == trimmed_kana(kana_or_empty(kana), opts.stem as int, opt_patch_view(opts.patch)) + opts.connector@ + suffix@,
{
    let k = match kana {
        Some(s) => s,
        None => String::new(),
    };
    let trimmed = trim_kana(k.as_str(), opts.stem, opts.patch);
    (concat2(root, suffix), concat3(trimmed.as_str(), opts.connector, suffix))
}

/// The abbreviation of a primary word: a simple reading becomes a hinted
/// proxy of it with the new text and kana; a compound takes the new text
/// and kana itself.
pub open spec fn abbr_of(pw: KaniWordDispatchEnum, text: Seq<char>, kana: Seq<char>, r: KaniWordDispatchEnum) -> bool {
    match pw {
        KaniWordDispatchEnum::Kanji(k) => r matches KaniWordDispatchEnum::Proxy(p) && p.text@ == text && p.kana@ == kana
            && *p.source == KaniSimpleTextDispatchEnum::Kanji(k) && p.state.hintedp,
        KaniWordDispatchEnum::Kana(k) => r matches KaniWordDispatchEnum::Proxy(p) && p.text@ == text && p.kana@ == kana
            && *p.source == KaniSimpleTextDispatchEnum::Kana(k) && p.state.hintedp,
        KaniWordDispatchEnum::Proxy(q) => r matches KaniWordDispatchEnum::Proxy(p) && p.text@ == text && p.kana@ == kana
            && *p.source == KaniSimpleTextDispatchEnum::Proxy(q) && p.state.hintedp,
        KaniWordDispatchEnum::Compound(c) => r matches KaniWordDispatchEnum::Compound(d) && d.text@ == text && d.kana@ == kana
            && d.primary == c.primary && d.words == c.words && d.score_base == c.score_base && d.score_mod == c.score_mod,
        KaniWordDispatchEnum::Counter(_) => false,
    }
}

/// The abbreviation of `pw` under `text` and `kana`.
pub fn abbr_word(pw: KaniWordDispatchEnum, text: String, kana: String) -> (r: KaniWordDispatchEnum)
    requires
        !(pw is Counter),
    ensures
        abbr_of(pw, text@, kana@, r),
{
    let state = SimpleText { hintedp: true };
    match pw {
        KaniWordDispatchEnum::Kanji(k) => KaniWordDispatchEnum::Proxy(ProxyText {
            text,
            kana,
            source: Box::new(KaniSimpleTextDispatchEnum::Kanji(k)),
            state,
        }),
        KaniWordDispatchEnum::Kana(k) => KaniWordDispatchEnum::Proxy(ProxyText {
            text,
            kana,
            source: Box::new(KaniSimpleTextDispatchEnum::Kana(k)),
            state,
        }),
        KaniWordDispatchEnum::Proxy(q) => KaniWordDispatchEnum::Proxy(ProxyText {
            text,
            kana,
            source: Box::new(KaniSimpleTextDispatchEnum::Proxy(q)),
            state,
        }),
        KaniWordDispatchEnum::Compound(c) => KaniWordDispatchEnum::Compound(CompoundText {
            text,
            kana,
            primary: c.primary,
            words: c.words,
            score_base: c.score_base,
            score_mod: c.score_mod,
        }),
        KaniWordDispatchEnum::Counter(c) => {
            proof {
                assert(false);
            }
            KaniWordDispatchEnum::Counter(c)
        },
    }
}

/// The abbreviations of the primary words: each with the root followed
/// by the abbreviated suffix as text, and as kana its reading (the
/// matching entry of `kanas`, empty when missing) trimmed by `stem` or
/// `patch`, followed by the suffix.
pub fn def_abbr_suffix_body(
    primary_words: Vec<KaniWordDispatchEnum>,
    kanas: &Vec<Option<String>>,
    root: &str,
    suf_var: &str,
    stem: usize,
    patch: Option<(&str, &str)>,
) -> (r: Vec<KaniWordDispatchEnum>)
    requires
        kanas@.len() == primary_words@.len(),
        forall|i: int| 0 <= i < primary_words@.len() ==> !(#[trigger] primary_words@[i] is Counter),
    ensures
        r@.len() == primary_words@.len(),
        forall|i: int|
            0 <= i < r@.len() ==> abbr_of(
                primary_words@[i],
                root@ + suf_var@,
                trimmed_kana(kana_or_empty(kanas@[i]), stem as int, opt_patch_view(patch)) + suf_var@,
                #[trigger] r@[i],
            ),
{
    let ghost pws = primary_words@;
    let mut words = primary_words;
    let mut out: Vec<KaniWordDispatchEnum> = Vec::new();
    let mut i: usize = 0;
    let n = words.len();
    assert(words@ =~= pws.subrange(0, n as int));
    while i < n
        invariant
            n == pws.len(),
            kanas@.len() == n,
            i <= n,
            words@ =~= pws.subrange(i as int, n as int),
            forall|k: int| 0 <= k < n ==> !(#[trigger] pws[k] is Counter),
            out@.len() == i,
            forall|k: int|
                0 <= k < i ==> abbr_of(
                    pws[k],
                    root@ + suf_var@,
                    trimmed_kana(kana_or_empty(kanas@[k]), stem as int, opt_patch_view(patch)) + suf_var@,
                    #[trigger] out@[k],
                ),
        decreases n - i,
    {
        let pw = words.remove(0);
        assert(pw == pws[i as int]);
        let text = concat2(root, suf_var);
        let raw: &str = match &kanas[i] {
            Some(s) => s.as_str(),
            None => "",
        };
        proof {
            reveal_strlit("");
        }
        assert(raw@ == kana_or_empty(kanas@[i as int]));
        let trimmed = trim_kana(raw, stem, patch);
        let kana = concat2(trimmed.as_str(), suf_var);
        out.push(abbr_word(pw, text, kana));
        assert(words@ =~= pws.subrange(i + 1, n as int));
        i = i + 1;
    }
    out
}

/// A lookup of the words with `text` conjugated with one of `types`, run
/// with the sentence's suffix map and no patch.
pub open spec fn conj_lookup(text: Seq<char>, types: Seq<i32>) -> (QueryView, Option<(Seq<char>, Seq<char>)>, bool) {
    (QueryView::ConjType(text, types), None, false)
}

/// The rules that find their primary words by conjugation type look the
/// root up among exactly these conjugation types: the continuative stem
/// (13) for ～たい (unless the root is い), the ren'youkei rules; the
/// continuative and the negative stem (13, 52) for ～ない; the plain past
/// (2) for ～だろう and ～くらい; the adverbial form (50) for the adverb
/// rule; the adjective stem (51) for the i-adjective rule; the volitional
/// (9) for ～とする. ～さ looks the root up as an adjective stem (51) and
/// then as a na-adjective, ～する as a suru-verb noun.
pub proof fn law_conj_type_lookups(root: Seq<char>, suffix: Seq<char>)
    ensures
        spec_suffix_plan(SuffixFn::Neg, root, suffix).0 == seq![conj_lookup(root, seq![13i32, 52i32])],
        root != "い"@ ==> spec_suffix_plan(SuffixFn::Tai, root, suffix).0 == seq![conj_lookup(root, seq![13i32])],
        spec_suffix_plan(SuffixFn::Ren, root, suffix).0 == seq![conj_lookup(root, seq![13i32])],
        spec_suffix_plan(SuffixFn::RenMinus, root, suffix).0 == seq![conj_lookup(root, seq![13i32])],
        spec_suffix_plan(SuffixFn::Rou, root, suffix).0 == seq![conj_lookup(root, seq![2i32])],
        spec_suffix_plan(SuffixFn::Kurai, root, suffix).0 == seq![conj_lookup(root, seq![2i32])],
        spec_suffix_plan(SuffixFn::Adv, root, suffix).0 == seq![conj_lookup(root, seq![50i32])],
        spec_suffix_plan(SuffixFn::Iadj, root, suffix).0 == seq![conj_lookup(root, seq![51i32])],
        spec_suffix_plan(SuffixFn::Tosuru, root, suffix).0 == seq![conj_lookup(root, seq![9i32])],
        spec_suffix_plan(SuffixFn::Sa, root, suffix).0 == seq![
            conj_lookup(root, seq![51i32]),
            (QueryView::Pos(root, "adj-na"@), None::<(Seq<char>, Seq<char>)>, false),
        ],
        spec_suffix_plan(SuffixFn::Suru, root, suffix).0 == seq![(QueryView::Pos(root, "vs"@), None::<(Seq<char>, Seq<char>)>, false)],
{
}

/// The te-form rules (～て, ～ている, ～ている+, ～て + space, ～ください)
/// look up nothing unless the root ends in て or で; when they look up
/// anything it is the root as a te-form (conjugation type 3).
pub proof fn law_te_rules(root: Seq<char>, suffix: Seq<char>)
    ensures
        forall|rule: SuffixFn|
            (rule == SuffixFn::Te || rule == SuffixFn::Teiru || rule == SuffixFn::TeiruPlus || rule
                == SuffixFn::TePlusSpace || rule == SuffixFn::Kudasai) ==> {
                let ls = #[trigger] spec_suffix_plan(rule, root, suffix).0;
                &&& !(root.len() > 0 && (root.last() == 'て' || root.last() == 'で')) ==> ls.len() == 0
                &&& ls.len() > 0 ==> ls == seq![conj_lookup(root, seq![3i32])]
            },
{
}

/// The full ending an abbreviation rule stands for, if it stands for one.
pub open spec fn full_form_tail(rule: SuffixFn) -> Option<Seq<char>> {
    match rule {
        SuffixFn::AbbrNakereba => Some("なければ"@),
        SuffixFn::AbbrShimasho => Some("しましょう"@),
        SuffixFn::AbbrDewanai => Some("ではない"@),
        SuffixFn::AbbrTeba => Some("てば"@),
        SuffixFn::AbbrReba => Some("れば"@),
        SuffixFn::AbbrKeba => Some("けば"@),
        SuffixFn::AbbrGeba => Some("げば"@),
        SuffixFn::AbbrNeba => Some("ねば"@),
        SuffixFn::AbbrBeba => Some("べば"@),
        SuffixFn::AbbrMeba => Some("めば"@),
        SuffixFn::AbbrSeba => Some("せば"@),
        SuffixFn::AbbrIi => Some("いい"@),
        _ => None,
    }
}

/// The abbreviations that stand for a full ending look up the root
/// followed by that ending (without the sentence's suffix map), and drop
/// exactly the ending's kana from the found word's reading: なければ,
/// しましょう, ではない, てば, れば, けば, げば, ねば, べば, めば, せば, いい.
/// Exactly the abbreviation rules build abbreviations.
pub proof fn law_full_form_abbreviations(root: Seq<char>, suffix: Seq<char>)
    ensures
        forall|rule: SuffixFn|
            #[trigger] full_form_tail(rule) matches Some(tail) ==> {
                let p = spec_suffix_plan(rule, root, suffix);
                &&& p.0 == seq![(QueryView::Full(root + tail), None::<(Seq<char>, Seq<char>)>, true)]
                &&& p.2 == tail.len()
                &&& p.5
            },
        forall|rule: SuffixFn|
            #[trigger] spec_suffix_plan(rule, root, suffix).5 == (rule == SuffixFn::AbbrNee || rule == SuffixFn::AbbrNx
                || rule == SuffixFn::AbbrN || rule == SuffixFn::AbbrNakereba || rule == SuffixFn::AbbrShimasho
                || rule == SuffixFn::AbbrDewanai || rule == SuffixFn::AbbrTeba || rule == SuffixFn::AbbrReba
                || rule == SuffixFn::AbbrKeba || rule == SuffixFn::AbbrGeba || rule == SuffixFn::AbbrNeba
                || rule == SuffixFn::AbbrBeba || rule == SuffixFn::AbbrMeba || rule == SuffixFn::AbbrSeba
                || rule == SuffixFn::AbbrIi),
{
    reveal_strlit("なければ");
    reveal_strlit("しましょう");
    reveal_strlit("ではない");
    reveal_strlit("てば");
    reveal_strlit("れば");
    reveal_strlit("けば");
    reveal_strlit("げば");
    reveal_strlit("ねば");
    reveal_strlit("べば");
    reveal_strlit("めば");
    reveal_strlit("せば");
    reveal_strlit("いい");
}

/// How each simple suffix rule scores its compounds and what it puts
/// between the primary word's kana and the suffix.
pub proof fn law_rule_scores(root: Seq<char>, suffix: Seq<char>)
    ensures
        ({
            let s = |rule: SuffixFn| spec_suffix_plan(rule, root, suffix);
            &&& s(SuffixFn::Tai).3 == ScoreMod::Single(5) && s(SuffixFn::Tai).4 == ""@
            &&& s(SuffixFn::Ren).3 == ScoreMod::Single(5) && s(SuffixFn::Ren).4 == ""@
            &&& s(SuffixFn::RenMinus).3 == ScoreMod::Single(0) && s(SuffixFn::RenMinus).4 == ""@
            &&& s(SuffixFn::Neg).3 == ScoreMod::Single(5) && s(SuffixFn::Neg).4 == ""@
            &&& s(SuffixFn::Te).3 == ScoreMod::Single(0) && s(SuffixFn::Te).4 == ""@
            &&& s(SuffixFn::Teiru).3 == ScoreMod::Single(3) && s(SuffixFn::Teiru).4 == ""@
            &&& s(SuffixFn::TeiruPlus).3 == ScoreMod::Single(6) && s(SuffixFn::TeiruPlus).4 == ""@
            &&& s(SuffixFn::TePlusSpace).3 == ScoreMod::Single(3) && s(SuffixFn::TePlusSpace).4 == " "@
            &&& s(SuffixFn::Kudasai).3 == ScoreMod::Constant(360) && s(SuffixFn::Kudasai).4 == " "@
            &&& s(SuffixFn::TeRen).3 == ScoreMod::Single(4) && s(SuffixFn::TeRen).4 == ""@
            &&& s(SuffixFn::Teii).3 == ScoreMod::Single(1) && s(SuffixFn::Teii).4 == " "@
            &&& s(SuffixFn::Chau).3 == ScoreMod::Single(5) && s(SuffixFn::Chau).2 == 1
            &&& s(SuffixFn::To).3 == ScoreMod::Single(0) && s(SuffixFn::To).2 == 1
            &&& s(SuffixFn::Suru).3 == ScoreMod::Single(5) && s(SuffixFn::Suru).4 == " "@
            &&& s(SuffixFn::SouPlus).3 == ScoreMod::Single(1)
            &&& s(SuffixFn::Rou).3 == ScoreMod::Single(1)
            &&& s(SuffixFn::Adv).3 == ScoreMod::Single(1)
            &&& s(SuffixFn::Sugiru).3 == ScoreMod::Single(5) && s(SuffixFn::Sugiru).2 == 1
            &&& s(SuffixFn::Sa).3 == ScoreMod::Single(2)
            &&& s(SuffixFn::Iadj).3 == ScoreMod::Single(1)
            &&& s(SuffixFn::Garu).3 == ScoreMod::Single(0) && s(SuffixFn::Garu).1 == Combine::FirstFound
            &&& s(SuffixFn::Ra).3 == ScoreMod::Single(1) && s(SuffixFn::Ra).1 == Combine::FirstFound
            &&& s(SuffixFn::Rashii).3 == ScoreMod::Single(3) && s(SuffixFn::Rashii).1 == Combine::Paired
            &&& s(SuffixFn::Desu).3 == ScoreMod::Constant(200) && s(SuffixFn::Desu).4 == " "@
            &&& s(SuffixFn::Desho).3 == ScoreMod::Constant(300) && s(SuffixFn::Desho).4 == " "@
            &&& s(SuffixFn::Tosuru).3 == ScoreMod::Single(3) && s(SuffixFn::Tosuru).4 == " "@
            &&& s(SuffixFn::Kurai).3 == ScoreMod::Single(3) && s(SuffixFn::Kurai).4 == " "@
            &&& s(SuffixFn::Sou).3 == ScoreMod::Constant(
                if root == "から"@ { 40 } else if root == "い"@ { 0 } else if root == "出来"@ { 100 } else { 70 },
            )
        }),
{
}

} // verus!
