//! The simple-split engine: a registered split is data (a seq, a base
//! score and a list of steps), and running it on a reading walks the
//! steps, testing the reading and collecting the parts it splits into.
//! Looking up the word of a part is the caller's work, between steps.

use vstd::prelude::*;
use crate::text::{chars_of, str_eq, str_starts_with, seq_starts_with};
use crate::word::{KaniSimpleTextDispatchEnum, SplitPart, WordType};

verus! {

/// A test on the reading being split.
#[derive(Debug, Clone, Copy)]
pub enum Pred {
    /// The reading is of this word type.
    WordType(WordType),
    /// The reading's text is this.
    TextEquals(&'static str),
    /// The reading's text starts with this.
    TextStartsWith(&'static str),
    /// The text is longer than this.
    LenGt(i32),
    /// The text has this length.
    LenEq(i32),
}

/// A score marker a step pushes.
#[derive(Debug, Clone, Copy, PartialEq, Eq, Structural)]
pub enum ScorePush {
    Score,
    PScore,
}

/// The seqs a part's word may have.
#[derive(Debug, Clone, Copy)]
pub enum PartSeq {
    /// These seqs.
    Static(&'static [i32]),
    /// The seq of the first conjugation of `seq` with text `text`.
    Dynamic { text: &'static str, seq: i32 },
}

/// How long a part is.
#[derive(Debug, Clone, Copy, PartialEq, Eq, Structural)]
pub enum Len {
    /// The rest of the text.
    Open,
    /// This many characters.
    Fixed(usize),
    /// The text's length less this, at least 0.
    LenMinus(usize),
    /// Up to (not including) the first occurrence of the character.
    CharPos(char),
    /// Up to and including the first occurrence of the character.
    CharPosPlus1(char),
}

/// How a part's word is looked up.
#[derive(Debug, Clone, Copy, PartialEq, Eq, Structural)]
pub enum Finder {
    /// A word of one of the seqs.
    SeqOf,
    /// A conjugation of one of the seqs.
    ConjOf,
}

/// How a part's text is changed before it is looked up.
#[derive(Debug, Clone, Copy)]
pub enum Modify {
    /// Unchanged.
    Keep,
    /// Undo rendaku.
    Unrendaku,
    /// The prefix is optional.
    OptPrefix(&'static str),
}

/// A part of the split.
#[derive(Debug, Clone, Copy)]
pub struct WordPart {
    pub seq: PartSeq,
    pub length: Len,
    pub finder: Finder,
    pub modify: Modify,
}

/// One step of a split.
#[derive(Debug, Clone, Copy)]
pub enum Step {
    /// Unless the test holds, stop: the score becomes `score_mod` and
    /// `push` is pushed, when given.
    Test { pred: Pred, score_mod: Option<i32>, push: Option<ScorePush> },
    /// Push a score marker.
    Push(ScorePush),
    /// Split off a part.
    Word(WordPart),
}

/// A registered split.
#[derive(Debug, Clone, Copy)]
pub struct SplitDef {
    /// The seq the split is registered under.
    pub seq: i32,
    /// The score when no test stops the split.
    pub score: i32,
    pub steps: &'static [Step],
}

/// Whether the test holds of a reading with text `txt`, word type `wt` and
/// length `len_`.
pub open spec fn pred_holds(p: Pred, txt: Seq<char>, wt: WordType, len_: usize) -> bool {
    match p {
        Pred::WordType(w) => wt == w,
        Pred::TextEquals(s) => txt == s@,
        Pred::TextStartsWith(s) => seq_starts_with(txt, s@),
        Pred::LenGt(n) => (len_ as i32) > n,
        Pred::LenEq(n) => (len_ as i32) == n,
    }
}

impl Pred {
    /// Whether the test holds of `reading`, whose text is `txt` of length `len_`.
    pub fn eval(&self, txt: &str, reading: &KaniSimpleTextDispatchEnum, len_: usize) -> (r: bool)
        ensures
            r == pred_holds(*self, txt@, reading.spec_word_type(), len_),
    {
        match self {
            Pred::WordType(wt) => reading.word_type() == *wt,
            Pred::TextEquals(s) => str_eq(txt, s),
            Pred::TextStartsWith(s) => str_starts_with(txt, s),
            Pred::LenGt(n) => (len_ as i32) > *n,
            Pred::LenEq(n) => (len_ as i32) == *n,
        }
    }
}

/// The part a score marker stands for.
pub open spec fn push_part(p: ScorePush) -> SplitPart {
    match p {
        ScorePush::Score => SplitPart::Score,
        ScorePush::PScore => SplitPart::PScore,
    }
}

impl ScorePush {
    /// The part this marker stands for.
    pub fn to_part(&self) -> (r: SplitPart)
        ensures
            r == push_part(*self),
    {
        match self {
            ScorePush::Score => SplitPart::Score,
            ScorePush::PScore => SplitPart::PScore,
        }
    }
}

/// The index of the first `c` in `s`, if any.
pub open spec fn first_index_of(s: Seq<char>, c: char) -> Option<int>
    decreases s.len(),
{
    if s.len() == 0 {
        None
    } else if s[0] == c {
        Some(0)
    } else {
        match first_index_of(s.drop_first(), c) {
            Some(i) => Some(i + 1),
            None => None,
        }
    }
}

proof fn lemma_first_index(s: Seq<char>, c: char, k: int)
    requires
        0 <= k <= s.len(),
        forall|j: int| 0 <= j < k ==> s[j] != c,
        k == s.len() || s[k] == c,
    ensures
        first_index_of(s, c) == if k == s.len() { None } else { Some(k) },
    decreases s.len(),
{
    if s.len() > 0 && k > 0 {
        assert forall|j: int| 0 <= j < k - 1 implies s.drop_first()[j] != c by {
            assert(s.drop_first()[j] == s[j + 1]);
        }
        lemma_first_index(s.drop_first(), c, k - 1);
    }
}

/// The length a part has in a text `txt` of length `len_`.
pub open spec fn len_value(l: Len, txt: Seq<char>, len_: usize) -> Option<int> {
    match l {
        Len::Open => None,
        Len::Fixed(n) => Some(n as int),
        Len::LenMinus(n) => {
            let d = (len_ as i32) - (n as i32);
            Some(if d > 0 { d } else { 0 })
        },
        Len::CharPos(c) => first_index_of(txt, c),
        Len::CharPosPlus1(c) => match first_index_of(txt, c) {
            Some(i) => Some(i + 1),
            None => None,
        },
    }
}

/// The arithmetic of a `LenMinus` length stays within `i32`.
pub open spec fn len_fits(l: Len, len_: usize) -> bool {
    match l {
        Len::LenMinus(n) => i32::MIN <= (len_ as i32) - (n as i32) <= i32::MAX,
        _ => true,
    }
}

/// The first position of `c` in `txt`.
fn char_position(txt: &str, c: char) -> (r: Option<usize>)
    ensures
        txt@.len() <= usize::MAX,
        match r {
            Some(i) => first_index_of(txt@, c) == Some(i as int),
            None => first_index_of(txt@, c) is None,
        },
{
    let chars = chars_of(txt);
    let n = chars.len();
    let mut i: usize = 0;
    while i < chars.len()
        invariant
            i <= chars@.len(),
            n == chars@.len(),
            chars@ == txt@,
            forall|j: int| 0 <= j < i ==> chars@[j] != c,
        decreases chars@.len() - i,
    {
        if chars[i] == c {
            proof {
                lemma_first_index(txt@, c, i as int);
            }
            return Some(i);
        }
        i = i + 1;
    }
    proof {
        lemma_first_index(txt@, c, i as int);
    }
    None
}

impl Len {
    /// The length of the part in `txt` (of length `len_`); `None` for the
    /// rest of the text, or when the character looked for is absent.
    pub fn eval(&self, txt: &str, len_: usize) -> (r: Option<usize>)
        requires
            len_fits(*self, len_),
        ensures
            match r {
                Some(n) => len_value(*self, txt@, len_) == Some(n as int),
                None => len_value(*self, txt@, len_) is None,
            },
    {
        match self {
            Len::Open => None,
            Len::Fixed(n) => Some(*n),
            Len::LenMinus(n) => {
                let d: i32 = (len_ as i32) - (*n as i32);
                Some(if d > 0 { d as usize } else { 0 })
            },
            Len::CharPos(c) => char_position(txt, *c),
            Len::CharPosPlus1(c) => match char_position(txt, *c) {
                Some(p) => {
                    assert(p < txt@.len()) by {
                        lemma_first_index_bound(txt@, *c);
                    }
                    Some(p + 1)
                },
                None => None,
            },
        }
    }
}

proof fn lemma_first_index_bound(s: Seq<char>, c: char)
    ensures
        first_index_of(s, c) matches Some(i) ==> 0 <= i < s.len(),
    decreases s.len(),
{
    if s.len() > 0 {
        lemma_first_index_bound(s.drop_first(), c);
    }
}

/// Where a run stops next: (step index, parts, score, finished). It runs
/// the tests and pushes from step `i` until a test fails (finished), the
/// steps end (finished) or a part's word is needed (not finished, at
/// that step).
pub open spec fn advance_spec(
    steps: Seq<Step>,
    i: int,
    txt: Seq<char>,
    wt: WordType,
    len_: usize,
    parts: Seq<Option<SplitPart>>,
    score: i32,
) -> (int, Seq<Option<SplitPart>>, i32, bool)
    decreases steps.len() - i,
{
    if i < 0 || i >= steps.len() {
        (i, parts, score, true)
    } else {
        match steps[i] {
            Step::Test { pred, score_mod, push } => if pred_holds(pred, txt, wt, len_) {
                advance_spec(steps, i + 1, txt, wt, len_, parts, score)
            } else {
                (
                    i,
                    match push {
                        Some(p) => parts.push(Some(push_part(p))),
                        None => parts,
                    },
                    match score_mod {
                        Some(s) => s,
                        None => score,
                    },
                    true,
                )
            },
            Step::Push(p) => advance_spec(steps, i + 1, txt, wt, len_, parts.push(Some(push_part(p))), score),
            Step::Word(_) => (i, parts, score, false),
        }
    }
}

/// A split run in progress.
#[derive(Debug)]
pub struct SplitRun {
    /// The step to run next.
    pub next_step: usize,
    /// Where (in characters) the next part starts.
    pub offset: usize,
    /// The parts split off so far (`None` where a part's word was not found).
    pub parts: Vec<Option<SplitPart>>,
    pub score: i32,
    pub finished: bool,
}

/// What a run needs next.
#[derive(Debug, Clone, Copy, PartialEq, Eq, Structural)]
pub enum SplitProgress {
    /// The run is over.
    Finished,
    /// The word of the part at this step.
    NeedsWord(usize),
}

impl SplitRun {
    /// A run of `def` that has not started.
    pub fn start(def: &SplitDef) -> (r: Self)
        ensures
            r.next_step == 0,
            r.offset == 0,
            r.parts@.len() == 0,
            r.score == def.score,
            !r.finished,
    {
        SplitRun { next_step: 0, offset: 0, parts: Vec::new(), score: def.score, finished: false }
    }

    /// Runs the tests and pushes from the next step on, stopping at a
    /// failed test, at the end of the steps, or at a part.
    pub fn advance(&mut self, def: &SplitDef, txt: &str, reading: &KaniSimpleTextDispatchEnum, len_: usize) -> (r: SplitProgress)
        requires
            !old(self).finished,
        ensures
            ({
                let (i, parts, score, finished) = advance_spec(
                    def.steps@,
                    old(self).next_step as int,
                    txt@,
                    reading.spec_word_type(),
                    len_,
                    old(self).parts@,
                    old(self).score,
                );
                &&& final(self).next_step as int == i
                &&& final(self).parts@ == parts
                &&& final(self).score == score
                &&& final(self).finished == finished
                &&& final(self).offset == old(self).offset
                &&& r == if finished { SplitProgress::Finished } else { SplitProgress::NeedsWord(i as usize) }
            }),
    {
        let ghost target = advance_spec(
            def.steps@,
            self.next_step as int,
            txt@,
            reading.spec_word_type(),
            len_,
            self.parts@,
            self.score,
        );
        while self.next_step < def.steps.len()
            invariant
                !self.finished,
                self.offset == old(self).offset,
                target == advance_spec(def.steps@, self.next_step as int, txt@, reading.spec_word_type(), len_, self.parts@, self.score),
                target == advance_spec(
                    def.steps@,
                    old(self).next_step as int,
                    txt@,
                    reading.spec_word_type(),
                    len_,
                    old(self).parts@,
                    old(self).score,
                ),
            decreases def.steps@.len() - self.next_step,
        {
            let i = self.next_step;
            let step = def.steps[i];
            assert(step == def.steps@[i as int]);
            match step {
                Step::Test { pred, score_mod, push } => {
                    if !pred.eval(txt, reading, len_) {
                        match score_mod {
                            Some(s) => {
                                self.score = s;
                            },
                            None => {},
                        }
                        match push {
                            Some(p) => {
                                self.parts.push(Some(p.to_part()));
                            },
                            None => {},
                        }
                        self.finished = true;
                        return SplitProgress::Finished;
                    }
                },
                Step::Push(p) => {
                    self.parts.push(Some(p.to_part()));
                },
                Step::Word(_) => {
                    return SplitProgress::NeedsWord(i);
                },
            }
            self.next_step = i + 1;
        }
        self.finished = true;
        SplitProgress::Finished
    }

    /// Records the part split off at the current step: its word (if
    /// found) and its length (`None` for a part that runs to the end).
    pub fn word_done(&mut self, part: Option<SplitPart>, part_length: Option<usize>)
        requires
            !old(self).finished,
            old(self).next_step < usize::MAX,
            part_length matches Some(pl) ==> old(self).offset + pl <= usize::MAX,
        ensures
            final(self).next_step == old(self).next_step + 1,
            final(self).parts@ == old(self).parts@.push(part),
            final(self).offset == match part_length {
                Some(pl) => (old(self).offset + pl) as usize,
                None => old(self).offset,
            },
            final(self).score == old(self).score,
            !final(self).finished,
    {
        self.parts.push(part);
        if let Some(pl) = part_length {
            self.offset = self.offset + pl;
        }
        self.next_step = self.next_step + 1;
    }
}

/// Whether a part's word is not looked up because its seqs include the
/// split's own seq.
pub fn part_blocked(def: &SplitDef, pseq: &[i32]) -> (r: bool)
    ensures
        r == pseq@.contains(def.seq),
{
    let mut i: usize = 0;
    while i < pseq.len()
        invariant
            i <= pseq@.len(),
            forall|j: int| 0 <= j < i ==> pseq@[j] != def.seq,
        decreases pseq@.len() - i,
    {
        if pseq[i] == def.seq {
            assert(pseq@[i as int] == def.seq);
            return true;
        }
        i = i + 1;
    }
    false
}

/// A run only adds parts: whatever it stops at, the parts it had are
/// still the first ones.
pub proof fn law_advance_keeps_parts(
    steps: Seq<Step>,
    i: int,
    txt: Seq<char>,
    wt: WordType,
    len_: usize,
    parts: Seq<Option<SplitPart>>,
    score: i32,
)
    ensures
        advance_spec(steps, i, txt, wt, len_, parts, score).1.len() >= parts.len(),
        advance_spec(steps, i, txt, wt, len_, parts, score).1.subrange(0, parts.len() as int) == parts,
    decreases steps.len() - i,
{
    if 0 <= i < steps.len() {
        match steps[i] {
            Step::Test { pred, score_mod, push } => {
                if pred_holds(pred, txt, wt, len_) {
                    law_advance_keeps_parts(steps, i + 1, txt, wt, len_, parts, score);
                } else {
                    match push {
                        Some(p) => {
                            assert(parts.push(Some(push_part(p))).subrange(0, parts.len() as int) =~= parts);
                        },
                        None => {
                            assert(parts.subrange(0, parts.len() as int) =~= parts);
                        },
                    }
                }
            },
            Step::Push(p) => {
                let next = parts.push(Some(push_part(p)));
                law_advance_keeps_parts(steps, i + 1, txt, wt, len_, next, score);
                let r = advance_spec(steps, i + 1, txt, wt, len_, next, score).1;
                assert(r.subrange(0, next.len() as int).subrange(0, parts.len() as int) =~= r.subrange(0, parts.len() as int));
                assert(next.subrange(0, parts.len() as int) =~= parts);
            },
            Step::Word(_) => {
                assert(parts.subrange(0, parts.len() as int) =~= parts);
            },
        }
    } else {
        assert(parts.subrange(0, parts.len() as int) =~= parts);
    }
}

/// What each split test asks of the reading, character by character: a
/// text test holds exactly when the reading's text is the literal (same
/// length, same characters) or, for a prefix test, begins with it; a
/// word-type test compares the reading's type; a length test compares
/// the length.
pub proof fn law_pred_meaning(p: Pred, txt: Seq<char>, wt: WordType, len_: usize)
    ensures
        p matches Pred::TextEquals(s) ==> (pred_holds(p, txt, wt, len_) <==> (txt.len() == s@.len() && forall|i: int|
            0 <= i < txt.len() ==> #[trigger] txt[i] == s@[i])),
        p matches Pred::TextEquals(s) ==> (pred_holds(p, txt, wt, len_) ==> txt.len() == s@.len()),
        p matches Pred::TextStartsWith(s) ==> (pred_holds(p, txt, wt, len_) <==> (s@.len() <= txt.len() && forall|i: int|
            0 <= i < s@.len() ==> #[trigger] txt[i] == s@[i])),
        p matches Pred::WordType(w) ==> (pred_holds(p, txt, wt, len_) <==> wt == w),
        p matches Pred::LenGt(n) ==> (pred_holds(p, txt, wt, len_) <==> (len_ as i32) > n),
        p matches Pred::LenEq(n) ==> (pred_holds(p, txt, wt, len_) <==> (len_ as i32) == n),
{
    match p {
        Pred::TextEquals(s) => {
            if txt.len() == s@.len() && forall|i: int| 0 <= i < txt.len() ==> #[trigger] txt[i] == s@[i] {
                assert(txt =~= s@);
            }
        },
        Pred::TextStartsWith(s) => {
            if s@.len() <= txt.len() && forall|i: int| 0 <= i < s@.len() ==> #[trigger] txt[i] == s@[i] {
                assert(txt.subrange(0, s@.len() as int) =~= s@);
            }
            if pred_holds(p, txt, wt, len_) {
                assert forall|i: int| 0 <= i < s@.len() implies #[trigger] txt[i] == s@[i] by {
                    assert(txt.subrange(0, s@.len() as int)[i] == txt[i]);
                }
            }
        },
        _ => {},
    }
}

/// Where `first_index_of` points: at the first occurrence of `c`, or
/// nowhere when `c` does not occur.
proof fn lemma_first_index_meaning(s: Seq<char>, c: char)
    ensures
        first_index_of(s, c) matches Some(i) ==> 0 <= i < s.len() && s[i] == c && forall|j: int| 0 <= j < i ==> s[j] != c,
        first_index_of(s, c) is None ==> forall|j: int| 0 <= j < s.len() ==> s[j] != c,
    decreases s.len(),
{
    if s.len() > 0 && s[0] != c {
        lemma_first_index_meaning(s.drop_first(), c);
        assert forall|j: int| 1 <= j < s.len() implies s[j] == s.drop_first()[j - 1] by {}
    }
}

/// How long each kind of part is in a text of length `len_`: the rest of
/// the text (no fixed length); a fixed count; the length less a count,
/// never below 0; up to the first occurrence of a character, or up to and
/// including it (no length when the character does not occur).
pub proof fn law_len_meaning(l: Len, txt: Seq<char>, len_: usize)
    requires
        len_fits(l, len_),
    ensures
        l is Open ==> len_value(l, txt, len_) is None,
        l matches Len::Fixed(n) ==> len_value(l, txt, len_) == Some(n as int),
        l matches Len::LenMinus(n) ==> len_value(l, txt, len_) == Some(
            if (len_ as i32) - (n as i32) > 0 { (len_ as i32) - (n as i32) } else { 0 },
        ),
        l matches Len::CharPos(c) ==> match len_value(l, txt, len_) {
            Some(k) => 0 <= k < txt.len() && txt[k] == c && forall|j: int| 0 <= j < k ==> txt[j] != c,
            None => forall|j: int| 0 <= j < txt.len() ==> txt[j] != c,
        },
        l matches Len::CharPosPlus1(c) ==> match len_value(l, txt, len_) {
            Some(k) => 1 <= k <= txt.len() && txt[k - 1] == c && forall|j: int| 0 <= j < k - 1 ==> txt[j] != c,
            None => forall|j: int| 0 <= j < txt.len() ==> txt[j] != c,
        },
{
    match l {
        Len::CharPos(c) => lemma_first_index_meaning(txt, c),
        Len::CharPosPlus1(c) => lemma_first_index_meaning(txt, c),
        _ => {},
    }
}

} // verus!
