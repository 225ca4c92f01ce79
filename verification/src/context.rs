//! The dictionary context: the loaded suffix tables and the per-call
//! bindings that suffix resolution reads.

use vstd::prelude::*;
use std::sync::Arc;
use crate::suffix::{SuffixCache, SuffixClass};
use crate::suffix_lookup::SuffixMap;
use crate::word::KaniSimpleTextDispatchEnum;

verus! {

/// What dictionary lookups read besides the database.
pub struct KaniranContext {
    /// Suffix surface text → suffix matches.
    pub suffix_cache: SuffixCache,
    /// Seq → suffix class.
    pub suffix_class: SuffixClass,
    /// Seqs of archaic entries.
    pub is_arch: Vec<i32>,
    /// Whether kana hints are suppressed.
    pub disable_hints: bool,
    /// The suffix map of the sentence being segmented, when one is bound.
    pub suffix_map_temp: Option<Arc<SuffixMap>>,
    /// The end position (in characters) of the word being resolved, when bound.
    pub suffix_next_end: Option<i32>,
}

/// The suffix cache of `ctx`.
pub fn suffix_cache(ctx: &KaniranContext) -> (r: &SuffixCache)
    ensures
        *r == ctx.suffix_cache,
{
    &ctx.suffix_cache
}

/// The suffix-class registry of `ctx`.
pub fn suffix_class(ctx: &KaniranContext) -> (r: &SuffixClass)
    ensures
        *r == ctx.suffix_class,
{
    &ctx.suffix_class
}

/// Whether `seq` is an archaic entry.
pub fn is_arch(ctx: &KaniranContext, seq: i32) -> (r: bool)
    ensures
        r == ctx.is_arch@.contains(seq),
{
    let mut i: usize = 0;
    while i < ctx.is_arch.len()
        invariant
            i <= ctx.is_arch@.len(),
            forall|j: int| 0 <= j < i ==> ctx.is_arch@[j] != seq,
        decreases ctx.is_arch@.len() - i,
    {
        if ctx.is_arch[i] == seq {
            return true;
        }
        i = i + 1;
    }
    false
}

/// Where the kana of a simple reading comes from once no hint applies.
#[derive(Debug)]
pub enum PrimaryKana {
    /// The reading's own kana.
    Text(String),
    /// A kanji reading: its kana is looked up in the dictionary.
    Lookup,
}

/// How the kana of a simple reading is found: a hint is tried first
/// unless hints are off or the reading is hinted already; then the
/// primary kana.
#[derive(Debug)]
pub struct KanaPlan {
    pub try_hint: bool,
    pub primary: PrimaryKana,
}

/// How the kana of `reading` is found under `ctx`.
pub fn kana_plan(ctx: &KaniranContext, reading: &KaniSimpleTextDispatchEnum) -> (r: KanaPlan)
    ensures
        r.try_hint == (!ctx.disable_hints && !reading.spec_hintedp()),
        match *reading {
            KaniSimpleTextDispatchEnum::Kanji(_) => r.primary is Lookup,
            KaniSimpleTextDispatchEnum::Kana(k) => r.primary matches PrimaryKana::Text(t) && t@ == k.text@,
            KaniSimpleTextDispatchEnum::Proxy(p) => r.primary matches PrimaryKana::Text(t) && t@ == p.kana@,
        },
{
    let try_hint = !ctx.disable_hints && !reading.hintedp();
    let primary = match reading {
        KaniSimpleTextDispatchEnum::Kanji(_) => PrimaryKana::Lookup,
        KaniSimpleTextDispatchEnum::Kana(k) => PrimaryKana::Text(k.text.clone()),
        KaniSimpleTextDispatchEnum::Proxy(p) => PrimaryKana::Text(p.kana.clone()),
    };
    KanaPlan { try_hint, primary }
}

} // verus!
