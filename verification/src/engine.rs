//! The engine orchestrator.
//!
//! `parse` drives a strict waterfall over the configured strategies: the
//! first classification wins, its slots are normalized against the entity
//! catalog, and no cross-strategy merging occurs.  `extract_slot` resolves
//! one named argument directly.  `tag` re-derives entity spans for one
//! intent when its training data is too sparse for the classifier alone.

use vstd::prelude::*;
use crate::assoc::{assoc_contains_key, assoc_find, assoc_get, str_eq};
use crate::builtin::{
    BuiltinEntityMatch, BuiltinEntityParser, spec_extract, spec_known_kind,
};
use crate::parser_api::{IntentParser, filter_view, slot_range_consistent};
use crate::tagging::{
    disambiguate_tagged_entities, enrich_entities, pairwise_nonoverlapping, rev_find, rev_get,
    spec_disambiguate, spec_enrich,
};
use crate::tokens::{ngram_of, spec_ngram, spec_tokenize, tokenize, tokens_in_text};
use crate::types::{
    CharRange, Entity, IntentParserResult,
    IntentParserResultView, NluError, NluErrorView, Slot, SlotValue, SlotValueView, SlotView,
    TaggedEntity, TaggedEntityView, Token, TokenView, clone_builtin_value, clone_slot,
    lemma_views_push, view_of_opt, views_of,
};

verus! {

/// Training-example count below which the statistical strategy's slot
/// filling is not trusted on its own.
pub const DEFAULT_THRESHOLD: usize = 5;

/// What normalization makes of one strategy-proposed slot: a catalog hit is
/// replaced by its canonical form, a miss on an extensible entity echoes the
/// raw value, a miss on a closed entity drops the slot, and a slot of an
/// entity absent from the catalog passes through unchanged.
pub open spec fn normalize_slot_spec(entities: Seq<(String, Entity)>, s: SlotView) -> Option<
    SlotView,
> {
    match assoc_find(entities, s.entity) {
        None => Some(s),
        Some(ent) => match assoc_find(ent.utterances@, s.raw_value) {
            Some(rv) => Some(SlotView { value: SlotValueView::Custom(rv@), ..s }),
            None => if ent.automatically_extensible {
                Some(SlotView { value: SlotValueView::Custom(s.raw_value), ..s })
            } else {
                None
            },
        },
    }
}

/// The slots surviving normalization, in order.
pub open spec fn normalize_slots_spec(entities: Seq<(String, Entity)>, ss: Seq<SlotView>) -> Seq<
    SlotView,
>
    decreases ss.len(),
{
    if ss.len() == 0 {
        Seq::empty()
    } else {
        let rest = normalize_slots_spec(entities, ss.drop_first());
        match normalize_slot_spec(entities, ss[0]) {
            Some(t) => seq![t] + rest,
            None => rest,
        }
    }
}

/// What the waterfall makes of `input`: the first strategy (in configured
/// order) to classify it wins, its slots are normalized, and a strategy
/// failure is propagated; if no strategy answers, intent and slots are both
/// absent.
pub open spec fn spec_parse<P: IntentParser>(
    parsers: Seq<P>,
    entities: Seq<(String, Entity)>,
    input: Seq<char>,
    filter: Option<Seq<Seq<char>>>,
) -> Result<IntentParserResultView, NluErrorView>
    decreases parsers.len(),
{
    if parsers.len() == 0 {
        Ok(IntentParserResultView { input, intent: None, slots: None })
    } else {
        match parsers[0].spec_get_intent(input, filter) {
            Err(e) => Err(e),
            Ok(None) => spec_parse(parsers.drop_first(), entities, input, filter),
            Ok(Some(c)) => match parsers[0].spec_get_slots(input, c.intent_name) {
                Err(e) => Err(e),
                Ok(ss) => Ok(
                    IntentParserResultView {
                        input,
                        intent: Some(c),
                        slots: Some(normalize_slots_spec(entities, ss)),
                    },
                ),
            },
        }
    }
}

/// The mathematical reading of a parse result.
pub open spec fn parse_res_view(r: Result<IntentParserResult, NluError>) -> Result<
    IntentParserResultView,
    NluErrorView,
> {
    match r {
        Ok(res) => Ok(res@),
        Err(e) => Err(e@),
    }
}

/// The mathematical reading of a single-slot extraction result.
pub open spec fn slot_opt_res_view(r: Result<Option<Slot>, NluError>) -> Result<
    Option<SlotView>,
    NluErrorView,
> {
    match r {
        Ok(o) => Ok(view_of_opt(o)),
        Err(e) => Err(e@),
    }
}

/// What single-slot extraction makes of a catalog entity: the whole input
/// is looked up verbatim; a hit yields the canonical value, a miss echoes
/// the input only if the entity is extensible.
pub open spec fn spec_extract_custom(
    input: Seq<char>,
    entity_name: Seq<char>,
    slot_name: Seq<char>,
    ent: Entity,
) -> Option<SlotView> {
    match assoc_find(ent.utterances@, input) {
        Some(rv) => Some(
            SlotView {
                raw_value: input,
                value: SlotValueView::Custom(rv@),
                range: None,
                entity: entity_name,
                slot_name,
            },
        ),
        None => if ent.automatically_extensible {
            Some(
                SlotView {
                    raw_value: input,
                    value: SlotValueView::Custom(input),
                    range: None,
                    entity: entity_name,
                    slot_name,
                },
            )
        } else {
            None
        },
    }
}

/// What single-slot extraction makes of a builtin entity: the recognizer is
/// restricted to that one kind and its first match over the input wins; the
/// slot's raw value is the exact substring the match covers, and no range
/// is surfaced on this path.
pub open spec fn spec_extract_builtin(
    bp: BuiltinEntityParser,
    input: Seq<char>,
    entity_name: Seq<char>,
    slot_name: Seq<char>,
) -> Option<SlotView> {
    let ms = spec_extract(&bp, input, Some(seq![entity_name]));
    if ms.len() == 0 {
        None
    } else {
        Some(
            SlotView {
                raw_value: input.subrange(ms[0].range.start as int, ms[0].range.end as int),
                value: SlotValueView::Builtin(ms[0].payload),
                range: None,
                entity: entity_name,
                slot_name,
            },
        )
    }
}

/// What `extract_slot` returns: the slot-name mapping resolves the owning
/// entity (failing on unknown intent or slot names), and the catalog decides
/// between the custom and the builtin path.
pub open spec fn spec_extract_slot(
    mapping: Seq<(String, Vec<(String, String)>)>,
    entities: Seq<(String, Entity)>,
    bp: BuiltinEntityParser,
    input: Seq<char>,
    intent_name: Seq<char>,
    slot_name: Seq<char>,
) -> Result<Option<SlotView>, NluErrorView> {
    match assoc_find(mapping, intent_name) {
        None => Err(NluErrorView::UnknownIntent(intent_name)),
        Some(imap) => match assoc_find(imap@, slot_name) {
            None => Err(NluErrorView::UnknownSlot(slot_name)),
            Some(entity_name) => match assoc_find(entities, entity_name@) {
                Some(ent) => Ok(spec_extract_custom(input, entity_name@, slot_name, ent)),
                None => if !spec_known_kind(&bp, entity_name@) {
                    Err(NluErrorView::UnknownEntityKind(entity_name@))
                } else {
                    Ok(spec_extract_builtin(bp, input, entity_name@, slot_name))
                },
            },
        },
    }
}

/// Whether the engine's language is one the builtin recognizer supports.
pub open spec fn supported_language(l: Seq<char>) -> bool {
    ||| l == "de"@
    ||| l == "en"@
    ||| l == "es"@
    ||| l == "fr"@
    ||| l == "ko"@
    ||| l == "zh"@
}

/// Checks whether `l` is a supported language code.
pub fn supported_language_exec(l: &str) -> (r: bool)
    ensures
        r == supported_language(l@),
{
    str_eq(l, "de") || str_eq(l, "en") || str_eq(l, "es") || str_eq(l, "fr") || str_eq(l, "ko")
        || str_eq(l, "zh")
}

/// Everything the engine is built from: the configured language, the
/// ordered strategy list, the entity catalog, the per-intent training-data
/// sizes, the per-intent argument-to-entity mapping, and the language's
/// builtin-entity recognizer.
pub struct NLUEngineConfiguration<P: IntentParser> {
    pub language: String,
    pub parsers: Vec<P>,
    pub entities: Vec<(String, Entity)>,
    pub intents_data_sizes: Vec<(String, usize)>,
    pub slot_name_mapping: Vec<(String, Vec<(String, String)>)>,
    pub builtin_entity_parser: BuiltinEntityParser,
}

/// The engine: immutable configuration state shared by every call.
pub struct SnipsNLUEngine<P: IntentParser> {
    language: String,
    parsers: Vec<P>,
    entities: Vec<(String, Entity)>,
    intents_data_sizes: Vec<(String, usize)>,
    slot_name_mapping: Vec<(String, Vec<(String, String)>)>,
    builtin_entity_parser: BuiltinEntityParser,
}

impl<P: IntentParser> SnipsNLUEngine<P> {
    /// The configured language code.
    pub closed spec fn spec_language(&self) -> Seq<char> {
        self.language@
    }

    /// The ordered strategy list.
    pub closed spec fn spec_parsers(&self) -> Seq<P> {
        self.parsers@
    }

    /// The entity catalog.
    pub closed spec fn spec_entities(&self) -> Seq<(String, Entity)> {
        self.entities@
    }

    /// The per-intent training-data sizes.
    pub closed spec fn spec_data_sizes(&self) -> Seq<(String, usize)> {
        self.intents_data_sizes@
    }

    /// The per-intent mapping from argument name to entity name.
    pub closed spec fn spec_mapping(&self) -> Seq<(String, Vec<(String, String)>)> {
        self.slot_name_mapping@
    }

    /// The builtin-entity recognizer.
    pub closed spec fn spec_builtin(&self) -> BuiltinEntityParser {
        self.builtin_entity_parser
    }

    /// Whether every configured strategy is well-formed.
    pub open spec fn wf(&self) -> bool {
        forall|k: int| 0 <= k < self.spec_parsers().len() ==> (#[trigger] self.spec_parsers()[k]).wf()
    }

    /// Builds an engine from its configuration, failing fast when the
    /// configured language cannot be mapped to a recognizer language.
    pub fn new(configuration: NLUEngineConfiguration<P>) -> (r: Result<Self, NluError>)
        requires
            forall|k: int|
                0 <= k < configuration.parsers@.len() ==> (#[trigger] configuration.parsers@[k]).wf(),
        ensures
            (r is Ok) == supported_language(configuration.language@),
            match r {
                Ok(e) => e.wf() && e.spec_language() == configuration.language@
                    && e.spec_parsers() == configuration.parsers@ && e.spec_entities()
                    == configuration.entities@ && e.spec_data_sizes()
                    == configuration.intents_data_sizes@ && e.spec_mapping()
                    == configuration.slot_name_mapping@ && e.spec_builtin()
                    == configuration.builtin_entity_parser,
                Err(err) => err@ == NluErrorView::UnsupportedLanguage(configuration.language@),
            },
    {
        if !supported_language_exec(configuration.language.as_str()) {
            return Err(NluError::UnsupportedLanguage(configuration.language));
        }
        Ok(
            SnipsNLUEngine {
                language: configuration.language,
                parsers: configuration.parsers,
                entities: configuration.entities,
                intents_data_sizes: configuration.intents_data_sizes,
                slot_name_mapping: configuration.slot_name_mapping,
                builtin_entity_parser: configuration.builtin_entity_parser,
            },
        )
    }

    /// The version of the model layout this engine understands.
    pub fn model_version() -> (r: &'static str)
        ensures
            r@ == "0.8.3"@,
    {
        "0.8.3"
    }

    /// Classifies `input` and extracts the winning intent's normalized
    /// slots, trying the configured strategies strictly in order.
    pub fn parse(&self, input: &str, intents_filter: Option<&[&str]>) -> (r: Result<
        IntentParserResult,
        NluError,
    >)
        requires
            self.wf(),
        ensures
            parse_res_view(r) == spec_parse(
                self.spec_parsers(),
                self.spec_entities(),
                input@,
                filter_view(intents_filter),
            ),
            match r {
                Ok(res) => res.input@ == input@ && ((res.intent is Some) <==> (res.slots is Some))
                    && (match res@.slots {
                    Some(ss) => forall|k: int|
                        0 <= k < ss.len() ==> slot_range_consistent(input@, #[trigger] ss[k]),
                    None => true,
                }) && (match (res@.intent, filter_view(intents_filter)) {
                    (Some(c), Some(f)) => f.contains(c.intent_name),
                    _ => true,
                }),
                Err(_) => true,
            },
    {
        let ghost fv = filter_view(intents_filter);
        let mut i: usize = 0;
        proof {
            assert(self.parsers@.skip(0) =~= self.parsers@);
        }
        while i < self.parsers.len()
            invariant
                self.wf(),
                0 <= i <= self.parsers@.len(),
                fv == filter_view(intents_filter),
                spec_parse(self.parsers@, self.entities@, input@, fv) == spec_parse(
                    self.parsers@.skip(i as int),
                    self.entities@,
                    input@,
                    fv,
                ),
            decreases self.parsers@.len() - i,
        {
            proof {
                assert(self.parsers@.skip(i as int)[0] == self.parsers@[i as int]);
                assert(self.parsers@.skip(i as int).drop_first() =~= self.parsers@.skip(
                    i as int + 1,
                ));
            }
            let classification = self.parsers[i].get_intent(input, intents_filter);
            match classification {
                Err(e) => {
                    return Err(e);
                },
                Ok(Some(c)) => {
                    let slots = self.parsers[i].get_slots(input, c.intent_name.as_str());
                    match slots {
                        Err(e) => {
                            return Err(e);
                        },
                        Ok(raw_slots) => {
                            let ghost cg = c@;
                            let valid_slots = normalize_slots_exec(&self.entities, &raw_slots);
                            let out = IntentParserResult {
                                input: input.to_owned(),
                                intent: Some(c),
                                slots: Some(valid_slots),
                            };
                            proof {
                                let specr = IntentParserResultView {
                                    input: input@,
                                    intent: Some(cg),
                                    slots: Some(
                                        normalize_slots_spec(self.entities@, views_of(raw_slots@)),
                                    ),
                                };
                                assert(spec_parse(
                                    self.parsers@.skip(i as int),
                                    self.entities@,
                                    input@,
                                    fv,
                                ) == Ok::<IntentParserResultView, NluErrorView>(specr));
                                assert(out@ =~= specr);
                                lemma_spec_parse_props(
                                    self.spec_parsers(),
                                    self.spec_entities(),
                                    input@,
                                    fv,
                                );
                            }
                            return Ok(out);
                        },
                    }
                },
                Ok(None) => {
                },
            }
            i += 1;
        }
        let out = IntentParserResult { input: input.to_owned(), intent: None, slots: None };
        proof {
            lemma_spec_parse_props(self.spec_parsers(), self.spec_entities(), input@, fv);
        }
        Ok(out)
    }

    /// Resolves one named argument of one intent directly, skipping intent
    /// classification: the slot-name mapping names the owning entity, and
    /// the catalog decides between whole-string lookup and the builtin
    /// recognizer.
    pub fn extract_slot(&self, input: String, intent_name: &str, slot_name: String) -> (r: Result<
        Option<Slot>,
        NluError,
    >)
        ensures
            slot_opt_res_view(r) == spec_extract_slot(
                self.spec_mapping(),
                self.spec_entities(),
                self.spec_builtin(),
                input@,
                intent_name@,
                slot_name@,
            ),
            (assoc_find(self.spec_mapping(), intent_name@) is None) <==> (match r {
                Err(e) => e@ == NluErrorView::UnknownIntent(intent_name@),
                Ok(_) => false,
            }),
    {
        let iname: String = intent_name.to_owned();
        let imap = match assoc_get(&self.slot_name_mapping, &iname) {
            None => {
                return Err(NluError::UnknownIntent(iname));
            },
            Some(m) => m,
        };
        let entity_name = match assoc_get(imap, &slot_name) {
            None => {
                return Err(NluError::UnknownSlot(slot_name));
            },
            Some(e) => e,
        };
        match assoc_get(&self.entities, entity_name) {
            Some(custom_entity) => {
                let slot = extract_custom_entity(
                    input,
                    entity_name.clone(),
                    slot_name,
                    custom_entity,
                );
                Ok(slot)
            },
            None => {
                if !self.builtin_entity_parser.known_kind(entity_name.as_str()) {
                    return Err(NluError::UnknownEntityKind(entity_name.clone()));
                }
                let slot = extract_builtin_entity(
                    input,
                    entity_name.clone(),
                    slot_name,
                    &self.builtin_entity_parser,
                );
                Ok(slot)
            },
        }
    }
}

/// Normalizes each proposed slot against the catalog, dropping the slots
/// that a closed entity rejects.
fn normalize_slots_exec(entities: &Vec<(String, Entity)>, slots: &Vec<Slot>) -> (r: Vec<Slot>)
    ensures
        views_of(r@) == normalize_slots_spec(entities@, views_of(slots@)),
{
    let ghost svs = views_of(slots@);
    let mut out: Vec<Slot> = Vec::new();
    let mut k: usize = 0;
    proof {
        assert(svs.skip(0) =~= svs);
    }
    while k < slots.len()
        invariant
            0 <= k <= slots@.len(),
            svs == views_of(slots@),
            normalize_slots_spec(entities@, svs) == views_of(out@) + normalize_slots_spec(
                entities@,
                svs.skip(k as int),
            ),
        decreases slots@.len() - k,
    {
        proof {
            assert(svs.skip(k as int)[0] == svs[k as int]);
            assert(svs[k as int] == slots@[k as int]@);
            assert(svs.skip(k as int).drop_first() =~= svs.skip(k as int + 1));
        }
        let s = &slots[k];
        let ghost old_out = out@;
        let mut kept = false;
        match assoc_get(entities, &s.entity) {
            None => {
                out.push(clone_slot(s));
                kept = true;
            },
            Some(ent) => {
                match assoc_get(&ent.utterances, &s.raw_value) {
                    Some(reference_value) => {
                        out.push(
                            Slot {
                                raw_value: s.raw_value.clone(),
                                value: SlotValue::Custom(reference_value.clone()),
                                range: s.range,
                                entity: s.entity.clone(),
                                slot_name: s.slot_name.clone(),
                            },
                        );
                        kept = true;
                    },
                    None => {
                        if ent.automatically_extensible {
                            out.push(
                                Slot {
                                    raw_value: s.raw_value.clone(),
                                    value: SlotValue::Custom(s.raw_value.clone()),
                                    range: s.range,
                                    entity: s.entity.clone(),
                                    slot_name: s.slot_name.clone(),
                                },
                            );
                            kept = true;
                        }
                    },
                }
            },
        }
        proof {
            if kept {
                assert(out@.len() == old_out.len() + 1);
                assert(normalize_slot_spec(entities@, svs[k as int]) == Some(
                    out@[out@.len() - 1]@,
                ));
                lemma_views_push(old_out, out@[out@.len() - 1]);
                assert(out@ =~= old_out.push(out@[out@.len() - 1]));
                assert(views_of(out@) =~= views_of(old_out).push(out@[out@.len() - 1]@));
                assert(views_of(old_out) + normalize_slots_spec(entities@, svs.skip(k as int))
                    =~= views_of(out@) + normalize_slots_spec(entities@, svs.skip(k as int + 1)));
            } else {
                assert(normalize_slot_spec(entities@, svs[k as int]) is None);
                assert(views_of(old_out) + normalize_slots_spec(entities@, svs.skip(k as int))
                    =~= views_of(out@) + normalize_slots_spec(entities@, svs.skip(k as int + 1)));
            }
        }
        k += 1;
    }
    proof {
        assert(svs.skip(slots@.len() as int) =~= Seq::<SlotView>::empty());
        assert(normalize_slots_spec(entities@, svs.skip(slots@.len() as int)) =~= Seq::<
            SlotView,
        >::empty());
        assert(views_of(out@) + Seq::<SlotView>::empty() =~= views_of(out@));
    }
    out
}

/// Resolves a whole input against one catalog entity's utterance map.
fn extract_custom_entity(
    input: String,
    entity_name: String,
    slot_name: String,
    custom_entity: &Entity,
) -> (r: Option<Slot>)
    ensures
        view_of_opt(r) == spec_extract_custom(input@, entity_name@, slot_name@, *custom_entity),
{
    match assoc_get(&custom_entity.utterances, &input) {
        Some(reference_value) => Some(
            Slot {
                raw_value: input.clone(),
                value: SlotValue::Custom(reference_value.clone()),
                range: None,
                entity: entity_name,
                slot_name,
            },
        ),
        None => {
            if custom_entity.automatically_extensible {
                Some(
                    Slot {
                        raw_value: input.clone(),
                        value: SlotValue::Custom(input),
                        range: None,
                        entity: entity_name,
                        slot_name,
                    },
                )
            } else {
                None
            }
        },
    }
}

/// Takes the recognizer's first match of one builtin kind over the input.
fn extract_builtin_entity(
    input: String,
    entity_name: String,
    slot_name: String,
    builtin_entity_parser: &BuiltinEntityParser,
) -> (r: Option<Slot>)
    ensures
        view_of_opt(r) == spec_extract_builtin(
            *builtin_entity_parser,
            input@,
            entity_name@,
            slot_name@,
        ),
{
    let mut kinds: Vec<String> = Vec::new();
    kinds.push(entity_name.clone());
    proof {
        assert(kinds@.map_values(|s: String| s@) =~= seq![entity_name@]);
    }
    let ms: Vec<BuiltinEntityMatch> = builtin_entity_parser.extract_entities(
        input.as_str(),
        Some(&kinds),
    );
    if ms.len() == 0 {
        proof {
            assert(spec_extract(builtin_entity_parser, input@, Some(seq![entity_name@])).len()
                == 0);
        }
        None
    } else {
        let m = &ms[0];
        proof {
            assert(views_of(ms@)[0] == ms@[0]@);
        }
        let raw_value: String = input.as_str().substring_char(m.range.start, m.range.end)
            .to_owned();
        Some(
            Slot {
                raw_value,
                value: SlotValue::Builtin(clone_builtin_value(&m.payload)),
                range: None,
                entity: entity_name,
                slot_name,
            },
        )
    }
}

/// The facts `parse` owes about any waterfall outcome: the echoed input,
/// intent and slots absent or present together, every slot range consistent
/// with the input, and the intents filter honored.
pub proof fn lemma_spec_parse_props<P: IntentParser>(
    parsers: Seq<P>,
    entities: Seq<(String, Entity)>,
    input: Seq<char>,
    filter: Option<Seq<Seq<char>>>,
)
    requires
        forall|k: int| 0 <= k < parsers.len() ==> (#[trigger] parsers[k]).wf(),
    ensures
        match spec_parse(parsers, entities, input, filter) {
            Ok(res) => res.input == input && ((res.intent is Some) <==> (res.slots is Some)) && (
            match res.slots {
                Some(ss) => forall|k: int|
                    0 <= k < ss.len() ==> slot_range_consistent(input, #[trigger] ss[k]),
                None => true,
            }) && (match (res.intent, filter) {
                (Some(c), Some(f)) => f.contains(c.intent_name),
                _ => true,
            }),
            Err(_) => true,
        },
    decreases parsers.len(),
{
    if parsers.len() > 0 {
        assert(parsers[0].wf());
        match parsers[0].spec_get_intent(input, filter) {
            Err(_) => {
            },
            Ok(None) => {
                assert(forall|k: int|
                    0 <= k < parsers.drop_first().len() ==> (#[trigger] parsers.drop_first()[k]).wf());
                lemma_spec_parse_props(parsers.drop_first(), entities, input, filter);
            },
            Ok(Some(c)) => {
                match filter {
                    Some(f) => {
                        parsers[0].lemma_filter_honored(input, f);
                    },
                    None => {
                    },
                }
                match parsers[0].spec_get_slots(input, c.intent_name) {
                    Err(_) => {
                    },
                    Ok(ss) => {
                        parsers[0].lemma_slots_consistent(input, c.intent_name);
                        lemma_normalize_slots_consistent(entities, input, ss);
                    },
                }
            },
        }
    }
}

/// Whether the mapping binds some argument name to `entity_name`; only
/// such entities take part in seen-entity matching for the intent.
pub open spec fn entity_relevant(imap: Seq<(String, String)>, entity_name: Seq<char>) -> bool {
    rev_find(imap, entity_name) is Some
}

/// Whether one catalog pair is a relevant entity whose utterance map
/// contains the n-gram's surface form.
pub open spec fn entry_matches(p: (String, Entity), imap: Seq<(String, String)>, ng: Seq<char>) -> bool {
    entity_relevant(imap, p.0@) && crate::assoc::assoc_contains(p.1.utterances@, ng)
}

/// How many relevant catalog entities the n-gram's surface form matches.
pub open spec fn count_matching(
    entities: Seq<(String, Entity)>,
    imap: Seq<(String, String)>,
    ng: Seq<char>,
) -> nat
    decreases entities.len(),
{
    if entities.len() == 0 {
        0
    } else {
        (if entry_matches(entities[0], imap, ng) {
            1nat
        } else {
            0nat
        }) + count_matching(entities.drop_first(), imap, ng)
    }
}

/// The name of the first relevant catalog entity matching the n-gram.
pub open spec fn first_matching(
    entities: Seq<(String, Entity)>,
    imap: Seq<(String, String)>,
    ng: Seq<char>,
) -> Option<Seq<char>>
    decreases entities.len(),
{
    if entities.len() == 0 {
        None
    } else if entry_matches(entities[0], imap, ng) {
        Some(entities[0].0@)
    } else {
        first_matching(entities.drop_first(), imap, ng)
    }
}

/// The candidate the token window `i..=j` yields: a span typed with the
/// unique relevant entity whose utterances contain the window's surface
/// form.  A window matching two or more distinct entities is ambiguous and
/// yields nothing; so does one matching none.
pub open spec fn spec_window_candidate(
    entities: Seq<(String, Entity)>,
    imap: Seq<(String, String)>,
    toks: Seq<TokenView>,
    text: Seq<char>,
    i: int,
    j: int,
) -> Option<TaggedEntityView> {
    let ng = spec_ngram(toks, i, j);
    if count_matching(entities, imap, ng) == 1 {
        match first_matching(entities, imap, ng) {
            Some(name) => Some(
                TaggedEntityView {
                    value: text.subrange(
                        toks[i].char_range.start as int,
                        toks[j].char_range.end as int,
                    ),
                    range: Some(
                        CharRange {
                            start: toks[i].char_range.start,
                            end: toks[j].char_range.end,
                        },
                    ),
                    entity: name,
                    slot_name: None,
                },
            ),
            None => None,
        }
    } else {
        None
    }
}

/// The accepted seen-entity spans after walking every token window, longest
/// windows first and left to right within one length, merging each window's
/// candidate under the non-overlap rule.
pub open spec fn spec_seen_loop(
    entities: Seq<(String, Entity)>,
    imap: Seq<(String, String)>,
    toks: Seq<TokenView>,
    text: Seq<char>,
    len: int,
    start: int,
    acc: Seq<TaggedEntityView>,
) -> Seq<TaggedEntityView>
    decreases len, toks.len() - start,
{
    if len <= 0 {
        acc
    } else if start < 0 || start + len > toks.len() {
        spec_seen_loop(entities, imap, toks, text, len - 1, 0, acc)
    } else {
        let acc2 = match spec_window_candidate(entities, imap, toks, text, start, start + len - 1) {
            Some(te) => spec_enrich(acc, seq![te]),
            None => acc,
        };
        spec_seen_loop(entities, imap, toks, text, len, start + 1, acc2)
    }
}

/// The seen-entity spans of `text` for an intent's relevant entities.
pub open spec fn spec_tag_seen(
    entities: Seq<(String, Entity)>,
    imap: Seq<(String, String)>,
    text: Seq<char>,
) -> Seq<TaggedEntityView> {
    let toks = spec_tokenize(text);
    spec_seen_loop(entities, imap, toks, text, toks.len() as int, 0, Seq::empty())
}

/// The walk keeps the accepted spans free of overlaps.
pub proof fn lemma_spec_seen_loop_nonoverlap(
    entities: Seq<(String, Entity)>,
    imap: Seq<(String, String)>,
    toks: Seq<TokenView>,
    text: Seq<char>,
    len: int,
    start: int,
    acc: Seq<TaggedEntityView>,
)
    requires
        pairwise_nonoverlapping(acc),
    ensures
        pairwise_nonoverlapping(spec_seen_loop(entities, imap, toks, text, len, start, acc)),
    decreases len, toks.len() - start,
{
    if len <= 0 {
    } else if start < 0 || start + len > toks.len() {
        lemma_spec_seen_loop_nonoverlap(entities, imap, toks, text, len - 1, 0, acc);
    } else {
        let acc2 = match spec_window_candidate(entities, imap, toks, text, start, start + len - 1) {
            Some(te) => spec_enrich(acc, seq![te]),
            None => acc,
        };
        match spec_window_candidate(entities, imap, toks, text, start, start + len - 1) {
            Some(te) => {
                crate::tagging::lemma_enrich_nonoverlap(acc, seq![te]);
            },
            None => {
            },
        }
        lemma_spec_seen_loop_nonoverlap(entities, imap, toks, text, len, start + 1, acc2);
    }
}

/// A tagged entity made of one builtin match: the exact substring under the
/// match's range, typed with the match's kind, not yet named.
pub open spec fn te_of_match(text: Seq<char>, m: crate::builtin::BuiltinEntityMatchView) -> TaggedEntityView {
    TaggedEntityView {
        value: text.subrange(m.range.start as int, m.range.end as int),
        range: Some(m.range),
        entity: m.kind,
        slot_name: None,
    }
}

/// All builtin-entity spans of `text`, unfiltered by kind.
pub open spec fn spec_tag_builtin(bp: BuiltinEntityParser, text: Seq<char>) -> Seq<
    TaggedEntityView,
> {
    spec_extract(&bp, text, None).map_values(|m: crate::builtin::BuiltinEntityMatchView| te_of_match(text, m))
}

/// A classifier slot recast as a tagged entity carrying its argument name.
pub open spec fn spec_slot_to_tagged(s: SlotView) -> TaggedEntityView {
    TaggedEntityView {
        value: s.raw_value,
        range: s.range,
        entity: s.entity,
        slot_name: Some(s.slot_name),
    }
}

/// The classifier slots recast as tagged entities.
pub open spec fn tagged_of_slots(ss: Seq<SlotView>) -> Seq<TaggedEntityView> {
    ss.map_values(|s: SlotView| spec_slot_to_tagged(s))
}

/// The classifier baseline for one intent: what the waterfall restricted to
/// that intent yields, recast as tagged entities.
pub open spec fn spec_baseline<P: IntentParser>(
    parsers: Seq<P>,
    entities: Seq<(String, Entity)>,
    text: Seq<char>,
    intent: Seq<char>,
) -> Result<Seq<TaggedEntityView>, NluErrorView> {
    match spec_parse(parsers, entities, text, Some(seq![intent])) {
        Err(e) => Err(e),
        Ok(res) => Ok(
            match res.slots {
                Some(ss) => tagged_of_slots(ss),
                None => Seq::empty(),
            },
        ),
    }
}

/// The low-data threshold actually in force.
pub open spec fn threshold_of(t: Option<usize>) -> usize {
    match t {
        Some(th) => th,
        None => DEFAULT_THRESHOLD,
    }
}

/// What `tag` returns: an unknown intent fails; an intent with enough
/// training data returns exactly the classifier baseline; otherwise the
/// baseline is merged under seen-entity and builtin spans (seen-entity
/// spans first, classifier baseline last) and the result is disambiguated
/// into argument names.
pub open spec fn spec_tag<P: IntentParser>(
    parsers: Seq<P>,
    entities: Seq<(String, Entity)>,
    data_sizes: Seq<(String, usize)>,
    mapping: Seq<(String, Vec<(String, String)>)>,
    bp: BuiltinEntityParser,
    text: Seq<char>,
    intent: Seq<char>,
    threshold: Option<usize>,
) -> Result<Seq<TaggedEntityView>, NluErrorView> {
    match assoc_find(data_sizes, intent) {
        None => Err(NluErrorView::UnknownIntent(intent)),
        Some(sz) => match assoc_find(mapping, intent) {
            None => Err(NluErrorView::UnknownIntent(intent)),
            Some(imap) => match spec_baseline(parsers, entities, text, intent) {
                Err(e) => Err(e),
                Ok(baseline) => if sz >= threshold_of(threshold) {
                    Ok(baseline)
                } else {
                    let seen = spec_tag_seen(entities, imap@, text);
                    let builtins = spec_tag_builtin(bp, text);
                    Ok(
                        spec_disambiguate(
                            spec_enrich(spec_enrich(seen, builtins), baseline),
                            imap@,
                        ),
                    )
                },
            },
        },
    }
}

/// The mathematical reading of a tagging result.
pub open spec fn tags_res_view(r: Result<Vec<TaggedEntity>, NluError>) -> Result<
    Seq<TaggedEntityView>,
    NluErrorView,
> {
    match r {
        Ok(v) => Ok(views_of(v@)),
        Err(e) => Err(e@),
    }
}

/// Finds the candidate of the token window `i..=j`, if it matches exactly
/// one relevant entity.
fn window_candidate_exec(
    entities: &Vec<(String, Entity)>,
    imap: &Vec<(String, String)>,
    toks: &Vec<Token>,
    text: &str,
    i: usize,
    j: usize,
) -> (r: Option<TaggedEntity>)
    requires
        i <= j < toks@.len(),
        tokens_in_text(text@, views_of(toks@)),
    ensures
        view_of_opt(r) == spec_window_candidate(
            entities@,
            imap@,
            views_of(toks@),
            text@,
            i as int,
            j as int,
        ),
{
    let ng: String = ngram_of(toks, i, j);
    let n = entities.len();
    let mut count: usize = 0;
    let mut name: Option<String> = None;
    let mut e: usize = 0;
    proof {
        assert(entities@.skip(0) =~= entities@);
    }
    while e < n
        invariant
            n == entities@.len(),
            0 <= e <= n,
            count <= e,
            ng@ == spec_ngram(views_of(toks@), i as int, j as int),
            count as int + count_matching(entities@.skip(e as int), imap@, ng@) == count_matching(
                entities@,
                imap@,
                ng@,
            ),
            match name {
                Some(nm) => count >= 1 && first_matching(entities@, imap@, ng@) == Some(nm@),
                None => count == 0 && first_matching(entities@, imap@, ng@) == first_matching(
                    entities@.skip(e as int),
                    imap@,
                    ng@,
                ),
            },
        decreases n - e,
    {
        proof {
            assert(entities@.skip(e as int)[0] == entities@[e as int]);
            assert(entities@.skip(e as int).drop_first() =~= entities@.skip(e as int + 1));
        }
        let entry = &entities[e];
        let has_utterance = assoc_contains_key(&entry.1.utterances, &ng);
        let relevant = rev_get(imap, &entry.0).is_some();
        if has_utterance && relevant {
            count += 1;
            if name.is_none() {
                name = Some(entry.0.clone());
            }
        }
        e += 1;
    }
    proof {
        assert(entities@.skip(n as int) =~= Seq::<(String, Entity)>::empty());
    }
    if count == 1 {
        match name {
            Some(nm) => {
                proof {
                    assert(views_of(toks@)[i as int] == toks@[i as int]@);
                    assert(views_of(toks@)[j as int] == toks@[j as int]@);
                    assert(crate::tokens::token_in_text(text@, views_of(toks@)[i as int]));
                    assert(crate::tokens::token_in_text(text@, views_of(toks@)[j as int]));
                    if i < j {
                        assert(views_of(toks@)[i as int].char_range.end <= views_of(
                            toks@,
                        )[j as int].char_range.start);
                    }
                }
                let range_start = toks[i].char_range.start;
                let range_end = toks[j].char_range.end;
                let value: String = text.substring_char(range_start, range_end).to_owned();
                Some(
                    TaggedEntity {
                        value,
                        range: Some(CharRange { start: range_start, end: range_end }),
                        entity: nm,
                        slot_name: None,
                    },
                )
            },
            None => None,
        }
    } else {
        None
    }
}

impl<P: IntentParser> SnipsNLUEngine<P> {
    /// Walks every token n-gram of `text`, longest first, and greedily
    /// accepts each window matching exactly one relevant entity, under the
    /// non-overlap rule; a window matching several entities is ambiguous
    /// and never tagged.
    fn tag_seen_entities(&self, text: &str, imap: &Vec<(String, String)>) -> (r: Vec<TaggedEntity>)
        ensures
            views_of(r@) == spec_tag_seen(self.spec_entities(), imap@, text@),
            pairwise_nonoverlapping(views_of(r@)),
    {
        let toks: Vec<Token> = tokenize(text);
        let ghost tvs = views_of(toks@);
        let n = toks.len();
        let mut acc: Vec<TaggedEntity> = Vec::new();
        let mut length: usize = n;
        proof {
            assert(views_of(acc@) =~= Seq::<TaggedEntityView>::empty());
        }
        while length >= 1
            invariant
                0 <= length <= n,
                n == toks@.len(),
                tvs == views_of(toks@),
                tvs == spec_tokenize(text@),
                tokens_in_text(text@, tvs),
                spec_seen_loop(
                    self.entities@,
                    imap@,
                    tvs,
                    text@,
                    n as int,
                    0,
                    Seq::empty(),
                ) == spec_seen_loop(
                    self.entities@,
                    imap@,
                    tvs,
                    text@,
                    length as int,
                    0,
                    views_of(acc@),
                ),
                pairwise_nonoverlapping(views_of(acc@)),
            decreases length,
        {
            let mut start: usize = 0;
            while start <= n - length
                invariant
                    1 <= length <= n,
                    n == toks@.len(),
                    tvs == views_of(toks@),
                    tvs == spec_tokenize(text@),
                    tokens_in_text(text@, tvs),
                    0 <= start <= n - length + 1,
                    spec_seen_loop(
                        self.entities@,
                        imap@,
                        tvs,
                        text@,
                        n as int,
                        0,
                        Seq::empty(),
                    ) == spec_seen_loop(
                        self.entities@,
                        imap@,
                        tvs,
                        text@,
                        length as int,
                        start as int,
                        views_of(acc@),
                    ),
                    pairwise_nonoverlapping(views_of(acc@)),
                decreases n - length + 1 - start,
            {
                let j = start + length - 1;
                let cand = window_candidate_exec(&self.entities, imap, &toks, text, start, j);
                let ghost old_acc = views_of(acc@);
                match cand {
                    Some(te) => {
                        let ghost teg = te@;
                        let mut single: Vec<TaggedEntity> = Vec::new();
                        single.push(te);
                        proof {
                            assert(views_of(single@) =~= seq![teg]);
                        }
                        acc = enrich_entities(acc, &single);
                        proof {
                            crate::tagging::lemma_enrich_nonoverlap(old_acc, seq![teg]);
                            assert(spec_seen_loop(
                                self.entities@,
                                imap@,
                                tvs,
                                text@,
                                length as int,
                                start as int,
                                old_acc,
                            ) == spec_seen_loop(
                                self.entities@,
                                imap@,
                                tvs,
                                text@,
                                length as int,
                                start as int + 1,
                                views_of(acc@),
                            ));
                        }
                    },
                    None => {
                        proof {
                            assert(spec_seen_loop(
                                self.entities@,
                                imap@,
                                tvs,
                                text@,
                                length as int,
                                start as int,
                                old_acc,
                            ) == spec_seen_loop(
                                self.entities@,
                                imap@,
                                tvs,
                                text@,
                                length as int,
                                start as int + 1,
                                views_of(acc@),
                            ));
                        }
                    },
                }
                start += 1;
            }
            proof {
                assert(spec_seen_loop(
                    self.entities@,
                    imap@,
                    tvs,
                    text@,
                    length as int,
                    start as int,
                    views_of(acc@),
                ) == spec_seen_loop(
                    self.entities@,
                    imap@,
                    tvs,
                    text@,
                    length as int - 1,
                    0,
                    views_of(acc@),
                ));
            }
            length -= 1;
        }
        proof {
            assert(spec_seen_loop(
                self.entities@,
                imap@,
                tvs,
                text@,
                0,
                0,
                views_of(acc@),
            ) == views_of(acc@));
        }
        acc
    }

    /// Recasts every builtin-entity match over `text` as a tagged entity.
    fn tag_builtin(&self, text: &str) -> (r: Vec<TaggedEntity>)
        ensures
            views_of(r@) == spec_tag_builtin(self.spec_builtin(), text@),
    {
        let ms: Vec<BuiltinEntityMatch> = self.builtin_entity_parser.extract_entities(text, None);
        let ghost target = spec_tag_builtin(self.spec_builtin(), text@);
        let mut out: Vec<TaggedEntity> = Vec::new();
        let mut k: usize = 0;
        while k < ms.len()
            invariant
                0 <= k <= ms@.len(),
                views_of(ms@) == spec_extract(&self.spec_builtin(), text@, None),
                forall|l: int|
                    0 <= l < ms@.len() ==> 0 <= (#[trigger] ms@[l]).range.start < ms@[l].range.end
                        <= text@.len(),
                target == spec_tag_builtin(self.spec_builtin(), text@),
                views_of(out@) =~= target.take(k as int),
            decreases ms@.len() - k,
        {
            let m = &ms[k];
            let value: String = text.substring_char(m.range.start, m.range.end).to_owned();
            let te = TaggedEntity {
                value,
                range: Some(m.range),
                entity: m.kind.clone(),
                slot_name: None,
            };
            let ghost old_out = out@;
            let ghost teg = te;
            out.push(te);
            proof {
                lemma_views_push(old_out, teg);
                assert(views_of(ms@)[k as int] == ms@[k as int]@);
                assert(target[k as int] == te_of_match(text@, views_of(ms@)[k as int]));
                assert(teg@ =~= target[k as int]);
                assert(views_of(out@) =~= target.take(k as int + 1));
            }
            k += 1;
        }
        proof {
            assert(target.take(ms@.len() as int) =~= target);
        }
        out
    }

    /// Re-derives the tagged entities of `text` for one intent.  The
    /// classifier baseline alone is answered when the intent's training
    /// data reaches the threshold; below it, seen-entity and builtin spans
    /// are merged in with seen-entity spans taking priority and the
    /// baseline applied last, and every span is assigned its argument name.
    pub fn tag(&self, text: &str, intent: &str, small_data_regime_threshold: Option<usize>) -> (r:
        Result<Vec<TaggedEntity>, NluError>)
        requires
            self.wf(),
        ensures
            tags_res_view(r) == spec_tag(
                self.spec_parsers(),
                self.spec_entities(),
                self.spec_data_sizes(),
                self.spec_mapping(),
                self.spec_builtin(),
                text@,
                intent@,
                small_data_regime_threshold,
            ),
            match r {
                Ok(tags) => (match assoc_find(self.spec_data_sizes(), intent@) {
                    Some(sz) => sz < threshold_of(small_data_regime_threshold)
                        ==> pairwise_nonoverlapping(views_of(tags@)),
                    None => false,
                }),
                Err(_) => true,
            },
    {
        let iname: String = intent.to_owned();
        let data_size: usize = match assoc_get(&self.intents_data_sizes, &iname) {
            None => {
                return Err(NluError::UnknownIntent(iname));
            },
            Some(v) => *v,
        };
        let imap: &Vec<(String, String)> = match assoc_get(&self.slot_name_mapping, &iname) {
            None => {
                return Err(NluError::UnknownIntent(iname));
            },
            Some(m) => m,
        };
        let threshold: usize = match small_data_regime_threshold {
            Some(t) => t,
            None => DEFAULT_THRESHOLD,
        };
        let mut fl: Vec<&str> = Vec::new();
        fl.push(intent);
        proof {
            assert(fl@.map_values(|s: &str| s@) =~= seq![intent@]);
        }
        let parsed = match self.parse(text, Some(fl.as_slice())) {
            Err(e) => {
                return Err(e);
            },
            Ok(p) => p,
        };
        let ghost parsedg = parsed@;
        let parsed_entities: Vec<TaggedEntity> = match parsed.slots {
            Some(ss) => slots_to_tagged(&ss),
            None => Vec::new(),
        };
        proof {
            match parsedg.slots {
                Some(ss) => {
                    assert(views_of(parsed_entities@) == tagged_of_slots(ss));
                },
                None => {
                    assert(views_of(parsed_entities@) =~= Seq::<TaggedEntityView>::empty());
                },
            }
        }
        if data_size >= threshold {
            return Ok(parsed_entities);
        }
        let tagged_seen = self.tag_seen_entities(text, imap);
        let ghost seen_views = views_of(tagged_seen@);
        let tagged_builtin = self.tag_builtin(text);
        let ghost builtin_views = views_of(tagged_builtin@);
        let merged_heuristic = enrich_entities(tagged_seen, &tagged_builtin);
        let merged = enrich_entities(merged_heuristic, &parsed_entities);
        proof {
            crate::tagging::lemma_enrich_nonoverlap(seen_views, builtin_views);
            crate::tagging::lemma_enrich_nonoverlap(
                spec_enrich(seen_views, builtin_views),
                views_of(parsed_entities@),
            );
            crate::tagging::lemma_disambiguate_nonoverlap(views_of(merged@), imap@);
        }
        let out = disambiguate_tagged_entities(merged, imap);
        Ok(out)
    }
}

/// Recasts classifier slots as tagged entities carrying their argument
/// names.
fn slots_to_tagged(slots: &Vec<Slot>) -> (r: Vec<TaggedEntity>)
    ensures
        views_of(r@) == tagged_of_slots(views_of(slots@)),
{
    let ghost target = tagged_of_slots(views_of(slots@));
    let mut out: Vec<TaggedEntity> = Vec::new();
    let mut k: usize = 0;
    while k < slots.len()
        invariant
            0 <= k <= slots@.len(),
            target == tagged_of_slots(views_of(slots@)),
            views_of(out@) =~= target.take(k as int),
        decreases slots@.len() - k,
    {
        let s = &slots[k];
        let te = TaggedEntity {
            value: s.raw_value.clone(),
            range: s.range,
            entity: s.entity.clone(),
            slot_name: Some(s.slot_name.clone()),
        };
        let ghost old_out = out@;
        let ghost teg = te;
        out.push(te);
        proof {
            lemma_views_push(old_out, teg);
            assert(views_of(slots@)[k as int] == slots@[k as int]@);
            assert(target[k as int] == spec_slot_to_tagged(views_of(slots@)[k as int]));
            assert(teg@ =~= target[k as int]);
            assert(views_of(out@) =~= target.take(k as int + 1));
        }
        k += 1;
    }
    proof {
        assert(target.take(slots@.len() as int) =~= target);
    }
    out
}

/// Normalization keeps every surviving slot's raw value and range, so
/// range consistency carries over from the strategy's slots.
pub proof fn lemma_normalize_slots_consistent(
    entities: Seq<(String, Entity)>,
    input: Seq<char>,
    ss: Seq<SlotView>,
)
    requires
        forall|k: int| 0 <= k < ss.len() ==> slot_range_consistent(input, #[trigger] ss[k]),
    ensures
        forall|k: int|
            0 <= k < normalize_slots_spec(entities, ss).len() ==> slot_range_consistent(
                input,
                #[trigger] normalize_slots_spec(entities, ss)[k],
            ),
    decreases ss.len(),
{
    if ss.len() > 0 {
        assert(forall|k: int|
            0 <= k < ss.drop_first().len() ==> slot_range_consistent(
                input,
                #[trigger] ss.drop_first()[k],
            ));
        lemma_normalize_slots_consistent(entities, input, ss.drop_first());
        let res = normalize_slots_spec(entities, ss);
        let rest = normalize_slots_spec(entities, ss.drop_first());
        match normalize_slot_spec(entities, ss[0]) {
            Some(t) => {
                assert(slot_range_consistent(input, ss[0]));
                assert(t.raw_value == ss[0].raw_value && t.range == ss[0].range);
                assert(res == seq![t] + rest);
                assert forall|k: int| 0 <= k < res.len() implies slot_range_consistent(
                    input,
                    #[trigger] res[k],
                ) by {
                    if k == 0 {
                        assert(res[0] == t);
                    } else {
                        assert(res[k] == rest[k - 1]);
                    }
                }
            },
            None => {
            },
        }
    }
}

} // verus!
