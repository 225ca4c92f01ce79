//! Counter recipes: the arguments a counter entry is built from, and the
//! lookups of the readings a counter text stands for.

use vstd::prelude::*;
use crate::text::{concat2, str_eq};
use crate::word::{KanaText, KanjiText, SuffixKind};

verus! {

/// The counter flavour a recipe builds.
#[derive(Debug, Clone, Copy, PartialEq, Eq, Structural)]
pub enum CounterClass {
    Text,
    NumberText,
    Halfhour,
    Hifumi,
    Tsu,
    Wari,
    Age,
    DaysKun,
    DaysOn,
    Months,
    People,
}

/// The dictionary reading a counter text stands for.
#[derive(Debug)]
pub enum CounterSource {
    Kanji(KanjiText),
    Kana(KanaText),
}

/// The digit a digit option applies to.
#[derive(Debug, Clone, Copy, PartialEq, Eq, Structural)]
pub struct DigitOptKey(pub i32);

/// A sound change a digit option makes.
#[derive(Debug, Clone, Copy, PartialEq, Eq)]
pub enum DigitOp {
    /// Rendaku on the counter.
    Rendaku,
    /// Handakuten on the counter.
    Handakuten,
    /// Gemination of the digit.
    Gemination,
    /// A replacement reading of the digit.
    Kana(&'static str),
}

/// The sound changes for one digit.
#[derive(Debug, Clone)]
pub struct DigitOptEntry {
    pub key: DigitOptKey,
    pub ops: Vec<DigitOp>,
}

/// How a counter's commonness is set.
#[derive(Debug, Clone, Copy, PartialEq, Eq, Structural)]
pub enum Common {
    /// From the source reading.
    Inherit,
    /// Not common.
    Null,
    /// This value.
    Value(i32),
}

/// The arguments a counter entry is built from.
#[derive(Debug)]
pub struct CounterArgs {
    pub class: CounterClass,
    pub text: String,
    pub kana: String,
    pub source: Option<CounterSource>,
    pub digit_opts: Vec<DigitOptEntry>,
    pub digit_set: Vec<i32>,
    pub allowed: Vec<i32>,
    pub foreign: bool,
    pub common: Common,
    pub accepts: Vec<SuffixKind>,
    pub suffix_descriptions: Vec<String>,
    pub ordinalp: bool,
    pub suffix: Option<String>,
}

impl CounterArgs {
    /// A recipe for `text` read `kana`, with every option at its default.
    pub fn new(class: CounterClass, text: &str, kana: &str) -> (r: Self)
        ensures
            r.class == class,
            r.text@ == text@,
            r.kana@ == kana@,
            r.source is None,
            r.digit_opts@.len() == 0,
            r.digit_set@.len() == 0,
            r.allowed@.len() == 0,
            !r.foreign,
            r.common == Common::Inherit,
            r.accepts@.len() == 0,
            r.suffix_descriptions@.len() == 0,
            !r.ordinalp,
            r.suffix is None,
    {
        CounterArgs {
            class,
            text: text.to_owned(),
            kana: kana.to_owned(),
            source: None,
            digit_opts: Vec::new(),
            digit_set: Vec::new(),
            allowed: Vec::new(),
            foreign: false,
            common: Common::Inherit,
            accepts: Vec::new(),
            suffix_descriptions: Vec::new(),
            ordinalp: false,
            suffix: None,
        }
    }

    /// The recipe with the source reading `source`.
    pub fn source(self, source: Option<CounterSource>) -> (r: Self)
        ensures
            r == (CounterArgs { source, ..self }),
    {
        CounterArgs { source, ..self }
    }

    /// The recipe with the digit options `opts`.
    pub fn digit_opts(self, opts: Vec<DigitOptEntry>) -> (r: Self)
        ensures
            r == (CounterArgs { digit_opts: opts, ..self }),
    {
        CounterArgs { digit_opts: opts, ..self }
    }

    /// The recipe with the digit set `set`.
    pub fn digit_set(self, set: Vec<i32>) -> (r: Self)
        ensures
            r == (CounterArgs { digit_set: set, ..self }),
    {
        CounterArgs { digit_set: set, ..self }
    }

    /// The recipe with the allowed values `allowed`.
    pub fn allowed(self, allowed: Vec<i32>) -> (r: Self)
        ensures
            r == (CounterArgs { allowed, ..self }),
    {
        CounterArgs { allowed, ..self }
    }

    /// The recipe with the foreign flag `foreign`.
    pub fn foreign(self, foreign: bool) -> (r: Self)
        ensures
            r == (CounterArgs { foreign, ..self }),
    {
        CounterArgs { foreign, ..self }
    }

    /// The recipe with the commonness `common`.
    pub fn common(self, common: Common) -> (r: Self)
        ensures
            r == (CounterArgs { common, ..self }),
    {
        CounterArgs { common, ..self }
    }

    /// The recipe accepting the suffixes `accepts`.
    pub fn accepts(self, accepts: Vec<SuffixKind>) -> (r: Self)
        ensures
            r == (CounterArgs { accepts, ..self }),
    {
        CounterArgs { accepts, ..self }
    }

    /// The recipe with the suffix descriptions `descriptions`.
    pub fn suffix_descriptions(self, descriptions: Vec<String>) -> (r: Self)
        ensures
            r == (CounterArgs { suffix_descriptions: descriptions, ..self }),
    {
        CounterArgs { suffix_descriptions: descriptions, ..self }
    }

    /// The recipe with the ordinal flag `ordinalp`.
    pub fn ordinalp(self, ordinalp: bool) -> (r: Self)
        ensures
            r == (CounterArgs { ordinalp, ..self }),
    {
        CounterArgs { ordinalp, ..self }
    }

    /// The recipe with the suffix kana `suffix`.
    pub fn suffix(self, suffix: &str) -> (r: Self)
        ensures
            r.suffix matches Some(s) && s@ == suffix@,
            r == (CounterArgs { suffix: r.suffix, ..self }),
    {
        CounterArgs { suffix: Some(suffix.to_owned()), ..self }
    }
}

/// The index of the first reading whose text is `query`, or the length.
pub open spec fn first_kanji_with(rows: Seq<KanjiText>, query: Seq<char>) -> int
    decreases rows.len(),
{
    if rows.len() == 0 {
        0
    } else if rows[0].text@ == query {
        0
    } else {
        1 + first_kanji_with(rows.drop_first(), query)
    }
}

/// The index of the first reading whose text is `query`, or the length.
pub open spec fn first_kana_with(rows: Seq<KanaText>, query: Seq<char>) -> int
    decreases rows.len(),
{
    if rows.len() == 0 {
        0
    } else if rows[0].text@ == query {
        0
    } else {
        1 + first_kana_with(rows.drop_first(), query)
    }
}

proof fn lemma_first_kanji(rows: Seq<KanjiText>, query: Seq<char>, k: int)
    requires
        0 <= k <= rows.len(),
        forall|j: int| 0 <= j < k ==> (#[trigger] rows[j]).text@ != query,
        k == rows.len() || rows[k].text@ == query,
    ensures
        first_kanji_with(rows, query) == k,
    decreases rows.len(),
{
    if rows.len() > 0 && k > 0 {
        assert forall|j: int| 0 <= j < k - 1 implies (#[trigger] rows.drop_first()[j]).text@ != query by {
            assert(rows.drop_first()[j] == rows[j + 1]);
        }
        lemma_first_kanji(rows.drop_first(), query, k - 1);
    }
}

proof fn lemma_first_kana(rows: Seq<KanaText>, query: Seq<char>, k: int)
    requires
        0 <= k <= rows.len(),
        forall|j: int| 0 <= j < k ==> (#[trigger] rows[j]).text@ != query,
        k == rows.len() || rows[k].text@ == query,
    ensures
        first_kana_with(rows, query) == k,
    decreases rows.len(),
{
    if rows.len() > 0 && k > 0 {
        assert forall|j: int| 0 <= j < k - 1 implies (#[trigger] rows.drop_first()[j]).text@ != query by {
            assert(rows.drop_first()[j] == rows[j + 1]);
        }
        lemma_first_kana(rows.drop_first(), query, k - 1);
    }
}

/// The source a counter text has among the readings: the first kanji
/// reading with that text, else the first kana reading with it.
pub open spec fn source_of(query: Seq<char>, kanji: Seq<KanjiText>, kana: Seq<KanaText>) -> Option<CounterSource> {
    let i = first_kanji_with(kanji, query);
    if i < kanji.len() {
        Some(CounterSource::Kanji(kanji[i]))
    } else {
        let j = first_kana_with(kana, query);
        if j < kana.len() {
            Some(CounterSource::Kana(kana[j]))
        } else {
            None
        }
    }
}

/// The reading that `query` stands for among `kanji` and `kana`.
pub fn find_source(query: &str, kanji: &[KanjiText], kana: &[KanaText]) -> (r: Option<CounterSource>)
    ensures
        r == source_of(query@, kanji@, kana@),
{
    let mut i: usize = 0;
    while i < kanji.len()
        invariant
            i <= kanji@.len(),
            forall|j: int| 0 <= j < i ==> (#[trigger] kanji@[j]).text@ != query@,
        decreases kanji@.len() - i,
    {
        if str_eq(kanji[i].text.as_str(), query) {
            proof {
                lemma_first_kanji(kanji@, query@, i as int);
            }
            return Some(CounterSource::Kanji(kanji[i].duplicate()));
        }
        i = i + 1;
    }
    proof {
        lemma_first_kanji(kanji@, query@, i as int);
    }
    let mut j: usize = 0;
    while j < kana.len()
        invariant
            j <= kana@.len(),
            first_kanji_with(kanji@, query@) == kanji@.len(),
            forall|k: int| 0 <= k < j ==> (#[trigger] kana@[k]).text@ != query@,
        decreases kana@.len() - j,
    {
        if str_eq(kana[j].text.as_str(), query) {
            proof {
                lemma_first_kana(kana@, query@, j as int);
            }
            return Some(CounterSource::Kana(kana[j].duplicate()));
        }
        j = j + 1;
    }
    proof {
        lemma_first_kana(kana@, query@, j as int);
    }
    None
}

/// Whether a recipe is the default recipe for `text` read `kana`, of
/// class `class`, with source `source`.
pub open spec fn is_recipe(r: CounterArgs, class: CounterClass, text: Seq<char>, kana: Seq<char>, source: Option<CounterSource>) -> bool {
    &&& r.class == class
    &&& r.text@ == text
    &&& r.kana@ == kana
    &&& r.source == source
    &&& r.digit_opts@.len() == 0
    &&& r.digit_set@.len() == 0
    &&& r.allowed@.len() == 0
    &&& !r.foreign
    &&& r.common == Common::Inherit
    &&& r.accepts@.len() == 0
    &&& r.suffix_descriptions@.len() == 0
    &&& !r.ordinalp
}

/// The recipe for one counter text, with its source found among the
/// readings.
pub fn args(class: CounterClass, text: &str, kana: &str, kanji: &[KanjiText], kana_rows: &[KanaText]) -> (r: CounterArgs)
    ensures
        is_recipe(r, class, text@, kana@, source_of(text@, kanji@, kana_rows@)),
        r.suffix is None,
{
    CounterArgs::new(class, text, kana).source(find_source(text, kanji, kana_rows))
}

/// One recipe per counter text, all read `kana`, in order.
pub fn args_multi(class: CounterClass, texts: &[&str], kana: &str, kanji: &[KanjiText], kana_rows: &[KanaText]) -> (r: Vec<CounterArgs>)
    ensures
        r@.len() == texts@.len(),
        forall|i: int| 0 <= i < texts@.len() ==> {
            &&& is_recipe(#[trigger] r@[i], class, texts@[i]@, kana@, source_of(texts@[i]@, kanji@, kana_rows@))
            &&& r@[i].suffix is None
        },
{
    let mut r: Vec<CounterArgs> = Vec::new();
    let mut i: usize = 0;
    while i < texts.len()
        invariant
            i <= texts@.len(),
            r@.len() == i,
            forall|k: int| 0 <= k < i ==> {
                &&& is_recipe(#[trigger] r@[k], class, texts@[k]@, kana@, source_of(texts@[k]@, kanji@, kana_rows@))
                &&& r@[k].suffix is None
            },
        decreases texts@.len() - i,
    {
        r.push(args(class, texts[i], kana, kanji, kana_rows));
        i = i + 1;
    }
    r
}

/// The recipe for a counter text made of a stem and a suffix: its text is
/// both together, its kana the stem's, its suffix the suffix's kana, and
/// its source the stem's reading.
pub fn args_suffix(
    class: CounterClass,
    text_parts: (&str, &str),
    kana_parts: (&str, &str),
    kanji: &[KanjiText],
    kana_rows: &[KanaText],
) -> (r: CounterArgs)
    ensures
        is_recipe(r, class, text_parts.0@ + text_parts.1@, kana_parts.0@, source_of(text_parts.0@, kanji@, kana_rows@)),
        r.suffix matches Some(s) && s@ == kana_parts.1@,
{
    let (stem, suf) = text_parts;
    let (kana_stem, kana_suf) = kana_parts;
    let combined = concat2(stem, suf);
    CounterArgs::new(class, combined.as_str(), kana_stem).suffix(kana_suf).source(find_source(stem, kanji, kana_rows))
}

/// The digit options, one per (digit, sound changes) item, in order.
pub fn digit_opts(items: &[(DigitOptKey, &[DigitOp])]) -> (r: Vec<DigitOptEntry>)
    ensures
        r@.len() == items@.len(),
        forall|i: int| 0 <= i < items@.len() ==> (#[trigger] r@[i]).key == items@[i].0 && r@[i].ops@ == items@[i].1@,
{
    let mut r: Vec<DigitOptEntry> = Vec::new();
    let mut i: usize = 0;
    while i < items.len()
        invariant
            i <= items@.len(),
            r@.len() == i,
            forall|k: int| 0 <= k < i ==> (#[trigger] r@[k]).key == items@[k].0 && r@[k].ops@ == items@[k].1@,
        decreases items@.len() - i,
    {
        let (key, ops) = items[i];
        let mut v: Vec<DigitOp> = Vec::new();
        let mut j: usize = 0;
        while j < ops.len()
            invariant
                j <= ops@.len(),
                v@ == ops@.subrange(0, j as int),
            decreases ops@.len() - j,
        {
            v.push(ops[j]);
            j = j + 1;
        }
        assert(v@ =~= ops@);
        r.push(DigitOptEntry { key, ops: v });
        i = i + 1;
    }
    r
}

} // verus!
