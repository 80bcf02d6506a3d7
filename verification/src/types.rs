//! Data model: entities, slot values, slots, classifications, parse results,
//! tagged entities and the error taxonomy, together with the mathematical
//! view of each type used by the contracts.

use vstd::prelude::*;

verus! {

/// Half-open span of character offsets into the original input text.
#[derive(Clone, Copy, PartialEq, Eq, Structural, Debug, Hash)]
pub struct CharRange {
    pub start: usize,
    pub end: usize,
}

/// Structured payload produced by the builtin-entity recognizer, held as
/// plain values so that contracts can state exactly what a match carries.
#[derive(Clone, Debug, PartialEq)]
pub enum BuiltinValue {
    /// An integral quantity, such as a number of cups.
    Number(i64),
    /// Any other structured payload, carried as its surface text.
    Text(String),
}

pub ghost enum BuiltinValueView {
    Number(int),
    Text(Seq<char>),
}

impl View for BuiltinValue {
    type V = BuiltinValueView;

    open spec fn view(&self) -> BuiltinValueView {
        match self {
            BuiltinValue::Number(n) => BuiltinValueView::Number(*n as int),
            BuiltinValue::Text(s) => BuiltinValueView::Text(s@),
        }
    }
}

/// The value of a resolved slot: either a custom-entity string (canonical
/// reference value or raw echo) or a structured builtin payload.
#[derive(Clone, Debug, PartialEq)]
pub enum SlotValue {
    Custom(String),
    Builtin(BuiltinValue),
}

#[verifier::ext_equal]
pub ghost enum SlotValueView {
    Custom(Seq<char>),
    Builtin(BuiltinValueView),
}

impl View for SlotValue {
    type V = SlotValueView;

    open spec fn view(&self) -> SlotValueView {
        match self {
            SlotValue::Custom(s) => SlotValueView::Custom(s@),
            SlotValue::Builtin(b) => SlotValueView::Builtin(b@),
        }
    }
}

/// A named argument of an intent, bound to an entity and a value extracted
/// from the input text.  `range` is populated only for slots discovered via
/// span matching, and is absent for whole-string matches.
#[derive(Clone, Debug, PartialEq)]
pub struct Slot {
    pub raw_value: String,
    pub value: SlotValue,
    pub range: Option<CharRange>,
    pub entity: String,
    pub slot_name: String,
}

#[verifier::ext_equal]
pub ghost struct SlotView {
    pub raw_value: Seq<char>,
    pub value: SlotValueView,
    pub range: Option<CharRange>,
    pub entity: Seq<char>,
    pub slot_name: Seq<char>,
}

impl View for Slot {
    type V = SlotView;

    open spec fn view(&self) -> SlotView {
        SlotView {
            raw_value: self.raw_value@,
            value: self.value@,
            range: self.range,
            entity: self.entity@,
            slot_name: self.slot_name@,
        }
    }
}

/// Denominator of the fixed-point representation used for classification
/// probabilities: a probability p in [0, 1] is stored as p * SCALE.
pub const PROBABILITY_SCALE: u64 = 10000000;

/// The answer of an intent-classification strategy: an intent name and the
/// strategy's confidence, as a fixed-point fraction of `PROBABILITY_SCALE`.
#[derive(Clone, Debug, PartialEq)]
pub struct IntentClassification {
    pub intent_name: String,
    pub probability: u64,
}

#[verifier::ext_equal]
pub ghost struct IntentClassificationView {
    pub intent_name: Seq<char>,
    pub probability: u64,
}

impl View for IntentClassification {
    type V = IntentClassificationView;

    open spec fn view(&self) -> IntentClassificationView {
        IntentClassificationView { intent_name: self.intent_name@, probability: self.probability }
    }
}

/// Result of a full parse: the winning classification and its normalized
/// slots.  `slots` is `Some` exactly when `intent` is.
#[derive(Clone, Debug, PartialEq)]
pub struct IntentParserResult {
    pub input: String,
    pub intent: Option<IntentClassification>,
    pub slots: Option<Vec<Slot>>,
}

#[verifier::ext_equal]
pub ghost struct IntentParserResultView {
    pub input: Seq<char>,
    pub intent: Option<IntentClassificationView>,
    pub slots: Option<Seq<SlotView>>,
}

impl View for IntentParserResult {
    type V = IntentParserResultView;

    open spec fn view(&self) -> IntentParserResultView {
        IntentParserResultView {
            input: self.input@,
            intent: match &self.intent {
                Some(c) => Some(c@),
                None => None,
            },
            slots: match &self.slots {
                Some(ss) => Some(ss@.map_values(|s: Slot| s@)),
                None => None,
            },
        }
    }
}

/// An entity span recovered by the tagging fallback; `slot_name` stays unset
/// until disambiguation assigns the span to an argument name.
#[derive(Clone, Debug, PartialEq, Eq, Hash)]
pub struct TaggedEntity {
    pub value: String,
    pub range: Option<CharRange>,
    pub entity: String,
    pub slot_name: Option<String>,
}

#[verifier::ext_equal]
pub ghost struct TaggedEntityView {
    pub value: Seq<char>,
    pub range: Option<CharRange>,
    pub entity: Seq<char>,
    pub slot_name: Option<Seq<char>>,
}

impl View for TaggedEntity {
    type V = TaggedEntityView;

    open spec fn view(&self) -> TaggedEntityView {
        TaggedEntityView {
            value: self.value@,
            range: self.range,
            entity: self.entity@,
            slot_name: match &self.slot_name {
                Some(s) => Some(s@),
                None => None,
            },
        }
    }
}

/// A custom entity: its configured surface forms, each mapped to a canonical
/// reference value, and whether unseen surface forms are accepted as-is.
#[derive(Clone, Debug, PartialEq)]
pub struct Entity {
    pub utterances: Vec<(String, String)>,
    pub automatically_extensible: bool,
}

/// A token of the input text: its surface form and the half-open character
/// span it covers.
#[derive(Clone, Debug, PartialEq)]
pub struct Token {
    pub value: String,
    pub char_range: CharRange,
}

#[verifier::ext_equal]
pub ghost struct TokenView {
    pub value: Seq<char>,
    pub char_range: CharRange,
}

impl View for Token {
    type V = TokenView;

    open spec fn view(&self) -> TokenView {
        TokenView { value: self.value@, char_range: self.char_range }
    }
}

/// Typed failures of the engine.  "No match" is never an error: an empty
/// classification, slot set or tag sequence is a valid successful outcome.
#[derive(Clone, Debug, PartialEq)]
pub enum NluError {
    /// The intent name is absent from the slot-name mapping or the
    /// training-data-size table.
    UnknownIntent(String),
    /// The slot name is not a registered argument of a known intent.
    UnknownSlot(String),
    /// An entity name is neither a catalog entity nor a builtin kind known
    /// to the recognizer.
    UnknownEntityKind(String),
    /// The configured language cannot be mapped to a recognizer language.
    UnsupportedLanguage(String),
    /// A strategy was configured with inconsistent data.
    InvalidConfiguration,
}

#[verifier::ext_equal]
pub ghost enum NluErrorView {
    UnknownIntent(Seq<char>),
    UnknownSlot(Seq<char>),
    UnknownEntityKind(Seq<char>),
    UnsupportedLanguage(Seq<char>),
    InvalidConfiguration,
}

impl View for NluError {
    type V = NluErrorView;

    open spec fn view(&self) -> NluErrorView {
        match self {
            NluError::UnknownIntent(s) => NluErrorView::UnknownIntent(s@),
            NluError::UnknownSlot(s) => NluErrorView::UnknownSlot(s@),
            NluError::UnknownEntityKind(s) => NluErrorView::UnknownEntityKind(s@),
            NluError::UnsupportedLanguage(s) => NluErrorView::UnsupportedLanguage(s@),
            NluError::InvalidConfiguration => NluErrorView::InvalidConfiguration,
        }
    }
}

/// Duplicates a builtin payload.
pub fn clone_builtin_value(b: &BuiltinValue) -> (r: BuiltinValue)
    ensures
        r@ == b@,
{
    match b {
        BuiltinValue::Number(n) => BuiltinValue::Number(*n),
        BuiltinValue::Text(s) => BuiltinValue::Text(s.clone()),
    }
}

/// Duplicates a slot value.
pub fn clone_slot_value(v: &SlotValue) -> (r: SlotValue)
    ensures
        r@ == v@,
{
    match v {
        SlotValue::Custom(s) => SlotValue::Custom(s.clone()),
        SlotValue::Builtin(b) => SlotValue::Builtin(clone_builtin_value(b)),
    }
}

/// Duplicates a slot.
pub fn clone_slot(s: &Slot) -> (r: Slot)
    ensures
        r@ == s@,
{
    Slot {
        raw_value: s.raw_value.clone(),
        value: clone_slot_value(&s.value),
        range: s.range,
        entity: s.entity.clone(),
        slot_name: s.slot_name.clone(),
    }
}

/// Duplicates a sequence of slots.
pub fn clone_slots(v: &Vec<Slot>) -> (r: Vec<Slot>)
    ensures
        views_of(r@) == views_of(v@),
{
    let mut out: Vec<Slot> = Vec::new();
    let mut i: usize = 0;
    while i < v.len()
        invariant
            0 <= i <= v@.len(),
            views_of(out@) =~= views_of(v@).take(i as int),
        decreases v@.len() - i,
    {
        let ghost old_out = out@;
        let c = clone_slot(&v[i]);
        let ghost cg = c;
        out.push(c);
        proof {
            lemma_views_push(old_out, cg);
            assert(views_of(v@)[i as int] == v@[i as int]@);
            assert(views_of(v@).take(i as int + 1) =~= views_of(v@).take(i as int).push(
                v@[i as int]@,
            ));
            assert(views_of(out@) =~= views_of(v@).take(i as int + 1));
        }
        i += 1;
    }
    proof {
        assert(views_of(v@).take(v@.len() as int) =~= views_of(v@));
    }
    out
}

/// Duplicates a tagged entity.
pub fn clone_tagged(t: &TaggedEntity) -> (r: TaggedEntity)
    ensures
        r@ == t@,
{
    TaggedEntity {
        value: t.value.clone(),
        range: t.range,
        entity: t.entity.clone(),
        slot_name: match &t.slot_name {
            Some(s) => Some(s.clone()),
            None => None,
        },
    }
}

/// The views of the elements of a sequence of viewable values.
pub open spec fn views_of<T: View>(s: Seq<T>) -> Seq<T::V> {
    s.map_values(|x: T| x@)
}

/// Taking views commutes with appending one element.
pub proof fn lemma_views_push<T: View>(s: Seq<T>, x: T)
    ensures
        views_of(s.push(x)) =~= views_of(s).push(x@),
{
    assert forall|l: int| 0 <= l < views_of(s.push(x)).len() implies views_of(s.push(x))[l]
        == views_of(s).push(x@)[l] by {
        assert(views_of(s.push(x))[l] == s.push(x)[l]@);
        if l < s.len() {
            assert(s.push(x)[l] == s[l]);
            assert(views_of(s)[l] == s[l]@);
        } else {
            assert(s.push(x)[l] == x);
        }
    }
}

/// The view of an optional viewable value.
pub open spec fn view_of_opt<T: View>(o: Option<T>) -> Option<T::V> {
    match o {
        Some(x) => Some(x@),
        None => None,
    }
}

} // verus!
