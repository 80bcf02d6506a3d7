//! The parsing-strategy capability and a deterministic, pattern-table
//! strategy.
//!
//! Every intent-parsing strategy can classify text into an intent and
//! extract the slots of a given intent from text; the engine drives a
//! waterfall over an ordered list of such strategies.  The deterministic
//! strategy answers from a configured table of exact utterance patterns.

use vstd::prelude::*;
use crate::types::{
    IntentClassification, IntentClassificationView, NluError, NluErrorView, Slot, SlotView,
    clone_slots, views_of, view_of_opt,
};
use crate::assoc::str_eq;

verus! {

/// The mathematical reading of an optional intents filter.
pub open spec fn filter_view(f: Option<&[&str]>) -> Option<Seq<Seq<char>>> {
    match f {
        None => None,
        Some(v) => Some(v@.map_values(|s: &str| s@)),
    }
}

/// Whether the filter admits the intent named `name`.
pub open spec fn filter_admits(f: Option<Seq<Seq<char>>>, name: Seq<char>) -> bool {
    match f {
        None => true,
        Some(fs) => fs.contains(name),
    }
}

/// Whether the slot's range, if set, lies inside `input` and covers exactly
/// the slot's raw value.
pub open spec fn slot_range_consistent(input: Seq<char>, s: SlotView) -> bool {
    match s.range {
        None => true,
        Some(rg) => rg.start <= rg.end <= input.len() && s.raw_value == input.subrange(
            rg.start as int,
            rg.end as int,
        ),
    }
}

/// The mathematical reading of a classification result.
pub open spec fn intent_res_view(r: Result<Option<IntentClassification>, NluError>) -> Result<
    Option<IntentClassificationView>,
    NluErrorView,
> {
    match r {
        Ok(o) => Ok(view_of_opt(o)),
        Err(e) => Err(e@),
    }
}

/// The mathematical reading of a slot-extraction result.
pub open spec fn slots_res_view(r: Result<Vec<Slot>, NluError>) -> Result<
    Seq<SlotView>,
    NluErrorView,
> {
    match r {
        Ok(v) => Ok(views_of(v@)),
        Err(e) => Err(e@),
    }
}

/// Checks whether the filter admits the intent named `name`.
pub fn filter_admits_exec(f: Option<&[&str]>, name: &str) -> (r: bool)
    ensures
        r == filter_admits(filter_view(f), name@),
{
    match f {
        None => true,
        Some(v) => {
            let mut j: usize = 0;
            let mut found = false;
            while j < v.len()
                invariant
                    0 <= j <= v@.len(),
                    found == exists|l: int| 0 <= l < j && (#[trigger] v@[l])@ == name@,
                decreases v@.len() - j,
            {
                if str_eq(v[j], name) {
                    found = true;
                    proof {
                        assert(0 <= j < v@.len() && (v@[j as int])@ == name@);
                    }
                }
                j += 1;
            }
            proof {
                let fs = v@.map_values(|s: &str| s@);
                if found {
                    let l = choose|l: int| 0 <= l < v@.len() && (#[trigger] v@[l])@ == name@;
                    assert(fs[l] == name@);
                    assert(fs.contains(name@));
                } else {
                    if fs.contains(name@) {
                        let l = choose|l: int| 0 <= l < fs.len() && fs[l] == name@;
                        assert((v@[l])@ == name@);
                    }
                }
            }
            found
        },
    }
}

/// A capability shared by all intent-parsing strategies: classify text into
/// an intent, and extract the slots of a given intent from text.  The
/// contracts tie each call to the strategy's own mathematical description,
/// and every strategy owes two laws: slots carry consistent ranges, and a
/// classification honors the intents filter.
pub trait IntentParser: Sized {
    /// Whether the strategy's configuration is internally consistent.
    spec fn wf(&self) -> bool;

    /// What classification the strategy gives to `input` under `filter`.
    spec fn spec_get_intent(&self, input: Seq<char>, filter: Option<Seq<Seq<char>>>) -> Result<
        Option<IntentClassificationView>,
        NluErrorView,
    >;

    /// What slots the strategy extracts from `input` for `intent_name`.
    spec fn spec_get_slots(&self, input: Seq<char>, intent_name: Seq<char>) -> Result<
        Seq<SlotView>,
        NluErrorView,
    >;

    /// Every slot a well-formed strategy returns has a range consistent
    /// with the input it was extracted from.
    proof fn lemma_slots_consistent(&self, input: Seq<char>, intent_name: Seq<char>)
        requires
            self.wf(),
        ensures
            match self.spec_get_slots(input, intent_name) {
                Ok(ss) => forall|k: int|
                    0 <= k < ss.len() ==> slot_range_consistent(input, #[trigger] ss[k]),
                Err(_) => true,
            },
    ;

    /// A strategy never classifies into an intent that the filter rules
    /// out.
    proof fn lemma_filter_honored(&self, input: Seq<char>, filter: Seq<Seq<char>>)
        ensures
            match self.spec_get_intent(input, Some(filter)) {
                Ok(o) => match o {
                    Some(c) => filter.contains(c.intent_name),
                    None => true,
                },
                Err(_) => true,
            },
    ;

    /// Classifies `input` into an intent, honoring the filter.
    fn get_intent(&self, input: &str, intents_filter: Option<&[&str]>) -> (r: Result<
        Option<IntentClassification>,
        NluError,
    >)
        ensures
            intent_res_view(r) == self.spec_get_intent(input@, filter_view(intents_filter)),
    ;

    /// Extracts the slots of `intent_name` from `input`.
    fn get_slots(&self, input: &str, intent_name: &str) -> (r: Result<Vec<Slot>, NluError>)
        ensures
            slots_res_view(r) == self.spec_get_slots(input@, intent_name@),
    ;
}

/// One row of a deterministic strategy's table: an exact utterance, the
/// intent it expresses, the strategy's confidence, and the slots it binds.
pub struct IntentPattern {
    pub text: String,
    pub intent_name: String,
    pub probability: u64,
    pub slots: Vec<Slot>,
}

/// Whether every slot of the pattern has a range consistent with the
/// pattern's own text.
pub open spec fn pattern_wf(p: IntentPattern) -> bool {
    forall|k: int|
        0 <= k < p.slots@.len() ==> slot_range_consistent(p.text@, (#[trigger] p.slots@[k])@)
}

/// The first pattern whose text is exactly `input` and whose intent the
/// filter admits.
pub open spec fn spec_matching_pattern(
    ps: Seq<IntentPattern>,
    input: Seq<char>,
    filter: Option<Seq<Seq<char>>>,
) -> Option<IntentPattern>
    decreases ps.len(),
{
    if ps.len() == 0 {
        None
    } else if ps[0].text@ == input && filter_admits(filter, ps[0].intent_name@) {
        Some(ps[0])
    } else {
        spec_matching_pattern(ps.drop_first(), input, filter)
    }
}

/// The first pattern whose text is exactly `input` and whose intent is
/// `intent_name`.
pub open spec fn spec_slot_pattern(
    ps: Seq<IntentPattern>,
    input: Seq<char>,
    intent_name: Seq<char>,
) -> Option<IntentPattern>
    decreases ps.len(),
{
    if ps.len() == 0 {
        None
    } else if ps[0].text@ == input && ps[0].intent_name@ == intent_name {
        Some(ps[0])
    } else {
        spec_slot_pattern(ps.drop_first(), input, intent_name)
    }
}

/// A pattern-table strategy: it classifies an input by finding the first
/// configured utterance equal to it, and answers with that row's intent,
/// confidence and slots.
pub struct DeterministicIntentParser {
    patterns: Vec<IntentPattern>,
}

impl DeterministicIntentParser {
    /// The strategy's configured table.
    pub closed spec fn spec_patterns(&self) -> Seq<IntentPattern> {
        self.patterns@
    }

    /// Builds a deterministic strategy, failing fast when a configured
    /// slot's range does not cover exactly its raw value within the row's
    /// utterance.
    pub fn new(patterns: Vec<IntentPattern>) -> (r: Result<Self, NluError>)
        ensures
            (r is Ok) == (forall|k: int|
                0 <= k < patterns@.len() ==> pattern_wf(#[trigger] patterns@[k])),
            match r {
                Ok(p) => p.spec_patterns() == patterns@ && p.wf(),
                Err(e) => e@ == NluErrorView::InvalidConfiguration,
            },
    {
        let mut i: usize = 0;
        while i < patterns.len()
            invariant
                0 <= i <= patterns@.len(),
                forall|k: int| 0 <= k < i ==> pattern_wf(#[trigger] patterns@[k]),
            decreases patterns@.len() - i,
        {
            if !pattern_check(&patterns[i]) {
                return Err(NluError::InvalidConfiguration);
            }
            i += 1;
        }
        Ok(DeterministicIntentParser { patterns })
    }
}

/// Checks that every slot of the pattern has a range consistent with the
/// pattern's text.
fn pattern_check(p: &IntentPattern) -> (r: bool)
    ensures
        r == pattern_wf(*p),
{
    let n = p.text.as_str().unicode_len();
    let mut k: usize = 0;
    while k < p.slots.len()
        invariant
            n == p.text@.len(),
            0 <= k <= p.slots@.len(),
            forall|l: int| 0 <= l < k ==> slot_range_consistent(p.text@, (#[trigger] p.slots@[l])@),
        decreases p.slots@.len() - k,
    {
        let s = &p.slots[k];
        match &s.range {
            None => {
            },
            Some(rg) => {
                if !(rg.start <= rg.end && rg.end <= n) {
                    return false;
                }
                let covered = p.text.as_str().substring_char(rg.start, rg.end);
                if !str_eq(covered, s.raw_value.as_str()) {
                    return false;
                }
            },
        }
        k += 1;
    }
    true
}

impl IntentParser for DeterministicIntentParser {
    open spec fn wf(&self) -> bool {
        forall|k: int|
            0 <= k < self.spec_patterns().len() ==> pattern_wf(#[trigger] self.spec_patterns()[k])
    }

    open spec fn spec_get_intent(&self, input: Seq<char>, filter: Option<Seq<Seq<char>>>) -> Result<
        Option<IntentClassificationView>,
        NluErrorView,
    > {
        Ok(
            match spec_matching_pattern(self.spec_patterns(), input, filter) {
                Some(p) => Some(
                    IntentClassificationView {
                        intent_name: p.intent_name@,
                        probability: p.probability,
                    },
                ),
                None => None,
            },
        )
    }

    open spec fn spec_get_slots(&self, input: Seq<char>, intent_name: Seq<char>) -> Result<
        Seq<SlotView>,
        NluErrorView,
    > {
        Ok(
            match spec_slot_pattern(self.spec_patterns(), input, intent_name) {
                Some(p) => views_of(p.slots@),
                None => Seq::empty(),
            },
        )
    }

    proof fn lemma_slots_consistent(&self, input: Seq<char>, intent_name: Seq<char>) {
        lemma_slot_pattern_found(self.spec_patterns(), input, intent_name);
        match spec_slot_pattern(self.spec_patterns(), input, intent_name) {
            Some(p) => {
                let k = choose|k: int|
                    0 <= k < self.spec_patterns().len() && self.spec_patterns()[k] == p;
                assert(pattern_wf(p));
                let ss = views_of(p.slots@);
                assert forall|l: int| 0 <= l < ss.len() implies slot_range_consistent(
                    input,
                    #[trigger] ss[l],
                ) by {
                    assert(ss[l] == p.slots@[l]@);
                    assert(slot_range_consistent(p.text@, p.slots@[l]@));
                }
            },
            None => {
            },
        }
    }

    proof fn lemma_filter_honored(&self, input: Seq<char>, filter: Seq<Seq<char>>) {
        lemma_matching_pattern_found(self.spec_patterns(), input, Some(filter));
    }

    fn get_intent(&self, input: &str, intents_filter: Option<&[&str]>) -> (r: Result<
        Option<IntentClassification>,
        NluError,
    >) {
        let mut i: usize = 0;
        proof {
            assert(self.patterns@.skip(0) =~= self.patterns@);
        }
        while i < self.patterns.len()
            invariant
                0 <= i <= self.patterns@.len(),
                spec_matching_pattern(self.patterns@, input@, filter_view(intents_filter))
                    == spec_matching_pattern(
                    self.patterns@.skip(i as int),
                    input@,
                    filter_view(intents_filter),
                ),
            decreases self.patterns@.len() - i,
        {
            proof {
                assert(self.patterns@.skip(i as int)[0] == self.patterns@[i as int]);
                assert(self.patterns@.skip(i as int).drop_first() =~= self.patterns@.skip(
                    i as int + 1,
                ));
            }
            let p = &self.patterns[i];
            if str_eq(p.text.as_str(), input) && filter_admits_exec(
                intents_filter,
                p.intent_name.as_str(),
            ) {
                return Ok(
                    Some(
                        IntentClassification {
                            intent_name: p.intent_name.clone(),
                            probability: p.probability,
                        },
                    ),
                );
            }
            i += 1;
        }
        Ok(None)
    }

    fn get_slots(&self, input: &str, intent_name: &str) -> (r: Result<Vec<Slot>, NluError>) {
        let mut i: usize = 0;
        proof {
            assert(self.patterns@.skip(0) =~= self.patterns@);
        }
        while i < self.patterns.len()
            invariant
                0 <= i <= self.patterns@.len(),
                spec_slot_pattern(self.patterns@, input@, intent_name@) == spec_slot_pattern(
                    self.patterns@.skip(i as int),
                    input@,
                    intent_name@,
                ),
            decreases self.patterns@.len() - i,
        {
            proof {
                assert(self.patterns@.skip(i as int)[0] == self.patterns@[i as int]);
                assert(self.patterns@.skip(i as int).drop_first() =~= self.patterns@.skip(
                    i as int + 1,
                ));
            }
            let p = &self.patterns[i];
            if str_eq(p.text.as_str(), input) && str_eq(p.intent_name.as_str(), intent_name) {
                let out = clone_slots(&p.slots);
                proof {
                    assert(spec_slot_pattern(self.patterns@, input@, intent_name@) == Some(
                        self.patterns@[i as int],
                    ));
                }
                return Ok(out);
            }
            i += 1;
        }
        let out: Vec<Slot> = Vec::new();
        proof {
            assert(views_of(out@) =~= Seq::<SlotView>::empty());
        }
        Ok(out)
    }
}

/// A pattern found by the classification search is one of the configured
/// patterns, its text is the input, and the filter admits its intent.
pub proof fn lemma_matching_pattern_found(
    ps: Seq<IntentPattern>,
    input: Seq<char>,
    filter: Option<Seq<Seq<char>>>,
)
    ensures
        match spec_matching_pattern(ps, input, filter) {
            Some(p) => ps.contains(p) && p.text@ == input && filter_admits(filter, p.intent_name@),
            None => true,
        },
    decreases ps.len(),
{
    if ps.len() > 0 {
        if ps[0].text@ == input && filter_admits(filter, ps[0].intent_name@) {
            assert(ps.contains(ps[0]));
        } else {
            lemma_matching_pattern_found(ps.drop_first(), input, filter);
            match spec_matching_pattern(ps.drop_first(), input, filter) {
                Some(p) => {
                    assert(ps.drop_first().contains(p));
                    let k = choose|k: int|
                        0 <= k < ps.drop_first().len() && ps.drop_first()[k] == p;
                    assert(ps[k + 1] == p);
                    assert(ps.contains(p));
                },
                None => {
                },
            }
        }
    }
}

/// A pattern found by the slot search is one of the configured patterns and
/// its text is the input.
pub proof fn lemma_slot_pattern_found(
    ps: Seq<IntentPattern>,
    input: Seq<char>,
    intent_name: Seq<char>,
)
    ensures
        match spec_slot_pattern(ps, input, intent_name) {
            Some(p) => ps.contains(p) && p.text@ == input && p.intent_name@ == intent_name,
            None => true,
        },
    decreases ps.len(),
{
    if ps.len() > 0 {
        if ps[0].text@ == input && ps[0].intent_name@ == intent_name {
            assert(ps.contains(ps[0]));
        } else {
            lemma_slot_pattern_found(ps.drop_first(), input, intent_name);
            match spec_slot_pattern(ps.drop_first(), input, intent_name) {
                Some(p) => {
                    assert(ps.drop_first().contains(p));
                    let k = choose|k: int|
                        0 <= k < ps.drop_first().len() && ps.drop_first()[k] == p;
                    assert(ps[k + 1] == p);
                    assert(ps.contains(p));
                },
                None => {
                },
            }
        }
    }
}

} // verus!
