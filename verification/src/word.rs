//! The reading and tokenization types that segmentation and scoring
//! dispatch over, and the small closed tag enums shared across the
//! dictionary layer.

use vstd::prelude::*;

verus! {

/// Tags of the kana-hint system: a word-boundary space or a particle
/// modifier.
#[derive(Debug, Clone, Copy, PartialEq, Eq, Structural, Hash)]
pub enum KaniHintKind {
    Space,
    Mod,
}

/// One element of an alignment list: an equal run (`Atom`) or a differing
/// pair (`Pair`), carried as character counts.
#[derive(Debug, Clone, Copy, PartialEq, Eq, Structural)]
pub enum KaniMatchPart {
    Atom(usize),
    Pair(usize, usize),
}

/// Counter suffix tags (`:kan`, `:kango`, `:chuu`).
#[derive(Debug, Clone, Copy, PartialEq, Eq, Structural, Hash)]
pub enum SuffixKind {
    Kan,
    Kango,
    Chuu,
}

/// One cell of a conjugation-form match pattern.
#[derive(Debug, Clone, Copy, PartialEq, Eq)]
pub enum FormToken {
    Any,
    Int(i32),
    Str(&'static str),
    Bool(bool),
    DbNull,
}

/// A conjugation-form match pattern: `(conj-type neg fml)` or
/// `(pos conj-type neg fml)`.
#[derive(Debug, Clone, Copy)]
pub enum ConjForm {
    Triple(FormToken, FormToken, FormToken),
    Quadruple(FormToken, FormToken, FormToken, FormToken),
}

/// Which reading table a row lives in.
#[derive(Debug, Clone, Copy, PartialEq, Eq, Structural)]
pub enum KaniReadingTable {
    Kanji,
    Kana,
}

impl KaniReadingTable {
    /// The SQL table name of the reading table.
    pub fn table_name(self) -> (r: &'static str)
        ensures
            r@ == (match self {
                KaniReadingTable::Kanji => "kanji_text"@,
                KaniReadingTable::Kana => "kana_text"@,
            }),
    {
        match self {
            KaniReadingTable::Kanji => "kanji_text",
            KaniReadingTable::Kana => "kana_text",
        }
    }
}

/// The script class of a simple reading.
#[derive(Debug, Clone, Copy, PartialEq, Eq, Structural)]
pub enum WordType {
    Kanji,
    Kana,
}

/// Mutable per-reading state shared by kanji and kana readings.
#[derive(Debug, Clone, Copy)]
pub struct SimpleText {
    /// Set once the reading carries hint marks, so hints are not applied twice.
    pub hintedp: bool,
}

impl Default for SimpleText {
    fn default() -> (r: Self)
        ensures
            !r.hintedp,
    {
        SimpleText { hintedp: false }
    }
}

/// A kana reading row of a dictionary entry.
#[derive(Debug, Clone)]
pub struct KanaText {
    pub id: i32,
    pub seq: i32,
    pub text: String,
    pub ord: i32,
    pub common: Option<i32>,
    pub common_tags: String,
    pub conjugate_p: bool,
    pub nokanji: bool,
    pub best_kanji: Option<String>,
    pub state: SimpleText,
}

/// A kanji reading row of a dictionary entry.
#[derive(Debug, Clone)]
pub struct KanjiText {
    pub id: i32,
    pub seq: i32,
    pub text: String,
    pub ord: i32,
    pub common: Option<i32>,
    pub common_tags: String,
    pub conjugate_p: bool,
    pub nokanji: bool,
    pub best_kana: Option<String>,
    pub state: SimpleText,
}

/// An equal copy of an optional string.
pub fn duplicate_opt_string(s: &Option<String>) -> (r: Option<String>)
    ensures
        r == *s,
{
    match s {
        Some(x) => Some(x.clone()),
        None => None,
    }
}

impl KanaText {
    /// An equal copy.
    pub fn duplicate(&self) -> (r: Self)
        ensures
            r == *self,
    {
        KanaText {
            id: self.id,
            seq: self.seq,
            text: self.text.clone(),
            ord: self.ord,
            common: self.common,
            common_tags: self.common_tags.clone(),
            conjugate_p: self.conjugate_p,
            nokanji: self.nokanji,
            best_kanji: duplicate_opt_string(&self.best_kanji),
            state: self.state,
        }
    }
}

impl KanjiText {
    /// An equal copy.
    pub fn duplicate(&self) -> (r: Self)
        ensures
            r == *self,
    {
        KanjiText {
            id: self.id,
            seq: self.seq,
            text: self.text.clone(),
            ord: self.ord,
            common: self.common,
            common_tags: self.common_tags.clone(),
            conjugate_p: self.conjugate_p,
            nokanji: self.nokanji,
            best_kana: duplicate_opt_string(&self.best_kana),
            state: self.state,
        }
    }
}

/// A reading that stands for another simple reading under a different
/// surface text and kana (for example an abbreviated form).
#[derive(Debug)]
pub struct ProxyText {
    pub text: String,
    pub kana: String,
    pub source: Box<KaniSimpleTextDispatchEnum>,
    pub state: SimpleText,
}

/// How a suffix compound adjusts the score of its primary word.
#[derive(Debug, Clone, Copy, PartialEq, Eq, Structural)]
pub enum ScoreMod {
    /// A fixed additive modifier.
    Single(i64),
    /// A constant score that replaces the computed one.
    Constant(i64),
}

/// A word built from a primary word and one or more suffix words.
#[derive(Debug)]
pub struct CompoundText {
    pub text: String,
    pub kana: String,
    /// The word the suffixes attach to.
    pub primary: Box<KaniWordDispatchEnum>,
    /// Every part, the primary word first.
    pub words: Vec<KaniWordDispatchEnum>,
    /// The word whose score stands in for the primary word's, if any.
    pub score_base: Option<Box<KaniWordDispatchEnum>>,
    pub score_mod: ScoreMod,
}

/// A counter expression such as 三匹.
#[derive(Debug, Clone)]
pub struct Counter {
    pub text: String,
    pub kana: String,
    pub value: i64,
    pub ordinalp: bool,
}

/// The simple-text family: kanji readings, kana readings and proxies.
#[derive(Debug)]
pub enum KaniSimpleTextDispatchEnum {
    Kanji(KanjiText),
    Kana(KanaText),
    Proxy(ProxyText),
}

/// Every word-like value that segmentation scores.
#[derive(Debug)]
pub enum KaniWordDispatchEnum {
    Kanji(KanjiText),
    Kana(KanaText),
    Proxy(ProxyText),
    Compound(CompoundText),
    Counter(Counter),
}

/// The seq identity of a word: one seq, or one per part of a compound.
#[derive(Debug, Clone, PartialEq, Eq)]
pub enum WordInfoSeq {
    Single(i32),
    Multi(Vec<i32>),
}

/// One element of a split-parts list: a word, or a score marker.
#[derive(Debug)]
pub enum SplitPart {
    Word(KaniWordDispatchEnum),
    Score,
    PScore,
}

impl KaniSimpleTextDispatchEnum {
    /// The seq reached by following proxies down to a kanji or kana reading.
    pub open spec fn spec_seq(&self) -> i32
        decreases *self,
    {
        match *self {
            KaniSimpleTextDispatchEnum::Kanji(k) => k.seq,
            KaniSimpleTextDispatchEnum::Kana(k) => k.seq,
            KaniSimpleTextDispatchEnum::Proxy(p) => (*p.source).spec_seq(),
        }
    }

    /// The text of the kanji or kana reading at the end of the proxy chain.
    pub open spec fn spec_true_text(&self) -> Seq<char>
        decreases *self,
    {
        match *self {
            KaniSimpleTextDispatchEnum::Kanji(k) => k.text@,
            KaniSimpleTextDispatchEnum::Kana(k) => k.text@,
            KaniSimpleTextDispatchEnum::Proxy(p) => (*p.source).spec_true_text(),
        }
    }

    /// The script class of the reading at the end of the proxy chain.
    pub open spec fn spec_word_type(&self) -> WordType
        decreases *self,
    {
        match *self {
            KaniSimpleTextDispatchEnum::Kanji(_) => WordType::Kanji,
            KaniSimpleTextDispatchEnum::Kana(_) => WordType::Kana,
            KaniSimpleTextDispatchEnum::Proxy(p) => (*p.source).spec_word_type(),
        }
    }

    /// Seq of the underlying dictionary reading.
    pub fn seq(&self) -> (r: i32)
        ensures
            r == self.spec_seq(),
        decreases *self,
    {
        match self {
            KaniSimpleTextDispatchEnum::Kanji(k) => k.seq,
            KaniSimpleTextDispatchEnum::Kana(k) => k.seq,
            KaniSimpleTextDispatchEnum::Proxy(p) => p.source.seq(),
        }
    }

    /// Text of the underlying dictionary reading.
    pub fn true_text(&self) -> (r: &str)
        ensures
            r@ == self.spec_true_text(),
        decreases *self,
    {
        match self {
            KaniSimpleTextDispatchEnum::Kanji(k) => k.text.as_str(),
            KaniSimpleTextDispatchEnum::Kana(k) => k.text.as_str(),
            KaniSimpleTextDispatchEnum::Proxy(p) => p.source.true_text(),
        }
    }

    /// Script class of the underlying dictionary reading.
    pub fn word_type(&self) -> (r: WordType)
        ensures
            r == self.spec_word_type(),
        decreases *self,
    {
        match self {
            KaniSimpleTextDispatchEnum::Kanji(_) => WordType::Kanji,
            KaniSimpleTextDispatchEnum::Kana(_) => WordType::Kana,
            KaniSimpleTextDispatchEnum::Proxy(p) => p.source.word_type(),
        }
    }

    /// The reading's own hinted flag (a proxy answers with its own state).
    pub open spec fn spec_hintedp(&self) -> bool {
        match *self {
            KaniSimpleTextDispatchEnum::Kanji(k) => k.state.hintedp,
            KaniSimpleTextDispatchEnum::Kana(k) => k.state.hintedp,
            KaniSimpleTextDispatchEnum::Proxy(p) => p.state.hintedp,
        }
    }

    /// The reading's own hinted flag (a proxy answers with its own state).
    pub fn hintedp(&self) -> (r: bool)
        ensures
            r == self.spec_hintedp(),
    {
        match self {
            KaniSimpleTextDispatchEnum::Kanji(k) => k.state.hintedp,
            KaniSimpleTextDispatchEnum::Kana(k) => k.state.hintedp,
            KaniSimpleTextDispatchEnum::Proxy(p) => p.state.hintedp,
        }
    }

    /// An equal copy.
    pub fn duplicate(&self) -> (r: Self)
        ensures
            r == *self,
        decreases *self,
    {
        match self {
            KaniSimpleTextDispatchEnum::Kanji(k) => KaniSimpleTextDispatchEnum::Kanji(k.duplicate()),
            KaniSimpleTextDispatchEnum::Kana(k) => KaniSimpleTextDispatchEnum::Kana(k.duplicate()),
            KaniSimpleTextDispatchEnum::Proxy(p) => {
                let source = p.source.duplicate();
                KaniSimpleTextDispatchEnum::Proxy(
                    ProxyText {
                        text: p.text.clone(),
                        kana: p.kana.clone(),
                        source: Box::new(source),
                        state: p.state,
                    },
                )
            },
        }
    }

    /// The same reading as a member of the wider word family.
    pub fn to_word(&self) -> (r: KaniWordDispatchEnum)
        ensures
            r == (match *self {
                KaniSimpleTextDispatchEnum::Kanji(k) => KaniWordDispatchEnum::Kanji(k),
                KaniSimpleTextDispatchEnum::Kana(k) => KaniWordDispatchEnum::Kana(k),
                KaniSimpleTextDispatchEnum::Proxy(p) => KaniWordDispatchEnum::Proxy(p),
            }),
    {
        match self.duplicate() {
            KaniSimpleTextDispatchEnum::Kanji(k) => KaniWordDispatchEnum::Kanji(k),
            KaniSimpleTextDispatchEnum::Kana(k) => KaniWordDispatchEnum::Kana(k),
            KaniSimpleTextDispatchEnum::Proxy(p) => KaniWordDispatchEnum::Proxy(p),
        }
    }
}

impl KaniWordDispatchEnum {
    /// The single seq of a word: simple readings (through proxies) have
    /// one; a compound (one seq per part) and a counter have none.
    pub open spec fn spec_single_seq(&self) -> Option<i32> {
        match *self {
            KaniWordDispatchEnum::Kanji(k) => Some(k.seq),
            KaniWordDispatchEnum::Kana(k) => Some(k.seq),
            KaniWordDispatchEnum::Proxy(p) => Some((*p.source).spec_seq()),
            _ => None,
        }
    }

    /// The surface text of a word.
    pub open spec fn spec_text(&self) -> Seq<char> {
        match *self {
            KaniWordDispatchEnum::Kanji(k) => k.text@,
            KaniWordDispatchEnum::Kana(k) => k.text@,
            KaniWordDispatchEnum::Proxy(p) => p.text@,
            KaniWordDispatchEnum::Compound(c) => c.text@,
            KaniWordDispatchEnum::Counter(c) => c.text@,
        }
    }

    /// Whether the word's seq identity is a single seq.
    pub fn has_simple_seq(&self) -> (r: bool)
        ensures
            r == self.spec_single_seq() is Some,
    {
        match self {
            KaniWordDispatchEnum::Kanji(_) => true,
            KaniWordDispatchEnum::Kana(_) => true,
            KaniWordDispatchEnum::Proxy(_) => true,
            KaniWordDispatchEnum::Compound(_) => false,
            KaniWordDispatchEnum::Counter(_) => false,
        }
    }

    /// The single seq of a word, when it has one.
    pub fn single_seq(&self) -> (r: Option<i32>)
        ensures
            r == self.spec_single_seq(),
    {
        match self {
            KaniWordDispatchEnum::Kanji(k) => Some(k.seq),
            KaniWordDispatchEnum::Kana(k) => Some(k.seq),
            KaniWordDispatchEnum::Proxy(p) => Some(p.source.seq()),
            KaniWordDispatchEnum::Compound(_) => None,
            KaniWordDispatchEnum::Counter(_) => None,
        }
    }

    /// The surface text of a word.
    pub fn text(&self) -> (r: &str)
        ensures
            r@ == self.spec_text(),
    {
        match self {
            KaniWordDispatchEnum::Kanji(k) => k.text.as_str(),
            KaniWordDispatchEnum::Kana(k) => k.text.as_str(),
            KaniWordDispatchEnum::Proxy(p) => p.text.as_str(),
            KaniWordDispatchEnum::Compound(c) => c.text.as_str(),
            KaniWordDispatchEnum::Counter(c) => c.text.as_str(),
        }
    }
}

} // verus!
