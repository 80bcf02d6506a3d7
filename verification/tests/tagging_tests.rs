use queries_core::builtin::{BuiltinEntityParser, BuiltinVocabEntry};
use queries_core::engine::{NLUEngineConfiguration, SnipsNLUEngine};
use queries_core::parser_api::{DeterministicIntentParser, IntentPattern};
use queries_core::tagging::{disambiguate_tagged_entities, enrich_entities};
use queries_core::tokens::tokenize;
use queries_core::types::{
    BuiltinValue, CharRange, Entity, NluError, Slot, SlotValue, TaggedEntity,
};

fn tag(value: &str, start: usize, end: usize, entity: &str) -> TaggedEntity {
    TaggedEntity {
        value: value.to_string(),
        range: Some(CharRange { start, end }),
        entity: entity.to_string(),
        slot_name: None,
    }
}

fn empty_recognizer() -> BuiltinEntityParser {
    BuiltinEntityParser { entries: vec![], kinds: vec![] }
}

fn number_recognizer() -> BuiltinEntityParser {
    BuiltinEntityParser {
        entries: vec![BuiltinVocabEntry {
            surface: "two".to_string(),
            kind: "snips/number".to_string(),
            payload: BuiltinValue::Number(2),
        }],
        kinds: vec!["snips/number".to_string()],
    }
}

fn coffee_engine(data_size: usize) -> SnipsNLUEngine<DeterministicIntentParser> {
    let pattern = IntentPattern {
        text: "Make me two cups of coffee please".to_string(),
        intent_name: "MakeCoffee".to_string(),
        probability: 7035172,
        slots: vec![Slot {
            raw_value: "two".to_string(),
            value: SlotValue::Builtin(BuiltinValue::Number(2)),
            range: Some(CharRange { start: 8, end: 11 }),
            entity: "snips/number".to_string(),
            slot_name: "number_of_cups".to_string(),
        }],
    };
    let parser = DeterministicIntentParser::new(vec![pattern]).unwrap();
    let configuration = NLUEngineConfiguration {
        language: "en".to_string(),
        parsers: vec![parser],
        entities: vec![(
            "coffee_type".to_string(),
            Entity {
                utterances: vec![("coffee".to_string(), "Coffee".to_string())],
                automatically_extensible: false,
            },
        )],
        intents_data_sizes: vec![("MakeCoffee".to_string(), data_size)],
        slot_name_mapping: vec![(
            "MakeCoffee".to_string(),
            vec![
                ("number_of_cups".to_string(), "snips/number".to_string()),
                ("coffee_kind".to_string(), "coffee_type".to_string()),
            ],
        )],
        builtin_entity_parser: number_recognizer(),
    };
    SnipsNLUEngine::new(configuration).unwrap()
}

#[test]
fn tag_unknown_intent_fails() {
    let engine = coffee_engine(11);
    let result = engine.tag("Make me two cups of coffee please", "OrderTea", None);
    assert_eq!(result.err().unwrap(), NluError::UnknownIntent("OrderTea".to_string()));
}

#[test]
fn tag_high_data_returns_exactly_the_baseline() {
    let engine = coffee_engine(11);
    let tags = engine.tag("Make me two cups of coffee please", "MakeCoffee", None).unwrap();
    let expected = vec![TaggedEntity {
        value: "two".to_string(),
        range: Some(CharRange { start: 8, end: 11 }),
        entity: "snips/number".to_string(),
        slot_name: Some("number_of_cups".to_string()),
    }];
    assert_eq!(expected, tags);
}

#[test]
fn tag_low_data_augments_the_baseline() {
    // Training size 2 is below the default threshold of 5, so seen-entity
    // and builtin matches are merged in and assigned argument names.
    let engine = coffee_engine(2);
    let tags = engine.tag("Make me two cups of coffee please", "MakeCoffee", None).unwrap();
    let expected = vec![
        TaggedEntity {
            value: "coffee".to_string(),
            range: Some(CharRange { start: 20, end: 26 }),
            entity: "coffee_type".to_string(),
            slot_name: Some("coffee_kind".to_string()),
        },
        TaggedEntity {
            value: "two".to_string(),
            range: Some(CharRange { start: 8, end: 11 }),
            entity: "snips/number".to_string(),
            slot_name: Some("number_of_cups".to_string()),
        },
    ];
    assert_eq!(expected, tags);
}

#[test]
fn tag_explicit_threshold_overrides_the_default() {
    // With a threshold of 2, a training size of 2 is already trusted.
    let engine = coffee_engine(2);
    let tags = engine
        .tag("Make me two cups of coffee please", "MakeCoffee", Some(2))
        .unwrap();
    let expected = vec![TaggedEntity {
        value: "two".to_string(),
        range: Some(CharRange { start: 8, end: 11 }),
        entity: "snips/number".to_string(),
        slot_name: Some("number_of_cups".to_string()),
    }];
    assert_eq!(expected, tags);
}

fn spans_engine(
    entities: Vec<(String, Entity)>,
    mapping: Vec<(String, String)>,
) -> SnipsNLUEngine<DeterministicIntentParser> {
    let parser = DeterministicIntentParser::new(vec![]).unwrap();
    let configuration = NLUEngineConfiguration {
        language: "en".to_string(),
        parsers: vec![parser],
        entities,
        intents_data_sizes: vec![("MakeCoffee".to_string(), 1)],
        slot_name_mapping: vec![("MakeCoffee".to_string(), mapping)],
        builtin_entity_parser: empty_recognizer(),
    };
    SnipsNLUEngine::new(configuration).unwrap()
}

#[test]
fn longer_spans_win_over_shorter_overlapping_ones() {
    let entities = vec![
        (
            "drink".to_string(),
            Entity {
                utterances: vec![("black coffee".to_string(), "BlackCoffee".to_string())],
                automatically_extensible: false,
            },
        ),
        (
            "bean".to_string(),
            Entity {
                utterances: vec![("coffee".to_string(), "Coffee".to_string())],
                automatically_extensible: false,
            },
        ),
    ];
    let mapping = vec![
        ("the_drink".to_string(), "drink".to_string()),
        ("the_bean".to_string(), "bean".to_string()),
    ];
    let engine = spans_engine(entities, mapping);
    let tags = engine.tag("black coffee", "MakeCoffee", None).unwrap();
    // The two-token span covers the one-token span; only the longer one is kept.
    let expected = vec![TaggedEntity {
        value: "black coffee".to_string(),
        range: Some(CharRange { start: 0, end: 12 }),
        entity: "drink".to_string(),
        slot_name: Some("the_drink".to_string()),
    }];
    assert_eq!(expected, tags);
}

#[test]
fn ambiguous_ngram_is_discarded_entirely() {
    // "mocha" is an utterance of two distinct relevant entities, so the
    // span is treated as no evidence at all.
    let entities = vec![
        (
            "drink".to_string(),
            Entity {
                utterances: vec![("mocha".to_string(), "Mocha".to_string())],
                automatically_extensible: false,
            },
        ),
        (
            "bean".to_string(),
            Entity {
                utterances: vec![("mocha".to_string(), "MochaBean".to_string())],
                automatically_extensible: false,
            },
        ),
    ];
    let mapping = vec![
        ("the_drink".to_string(), "drink".to_string()),
        ("the_bean".to_string(), "bean".to_string()),
    ];
    let engine = spans_engine(entities, mapping);
    let tags = engine.tag("mocha", "MakeCoffee", None).unwrap();
    assert_eq!(tags, vec![]);
}

#[test]
fn low_data_tags_never_overlap_and_round_trip() {
    let text = "Make me two cups of coffee please";
    let engine = coffee_engine(2);
    let tags = engine.tag(text, "MakeCoffee", None).unwrap();
    assert!(!tags.is_empty());
    for a in 0..tags.len() {
        let ra = tags[a].range.clone().unwrap();
        // Round trip: the tagged value is exactly the text under its range.
        let covered: String = text.chars().skip(ra.start).take(ra.end - ra.start).collect();
        assert_eq!(covered, tags[a].value);
        for b in 0..tags.len() {
            if a != b {
                let rb = tags[b].range.clone().unwrap();
                assert!(ra.end <= rb.start || rb.end <= ra.start);
            }
        }
    }
}

#[test]
fn tokenize_reports_values_and_char_ranges() {
    let toks = tokenize("Make  me two");
    assert_eq!(toks.len(), 3);
    assert_eq!(toks[0].value, "Make".to_string());
    assert_eq!(toks[0].char_range, CharRange { start: 0, end: 4 });
    assert_eq!(toks[1].value, "me".to_string());
    assert_eq!(toks[1].char_range, CharRange { start: 6, end: 8 });
    assert_eq!(toks[2].value, "two".to_string());
    assert_eq!(toks[2].char_range, CharRange { start: 9, end: 12 });
}

#[test]
fn enrich_keeps_the_base_side_on_conflict() {
    let base = vec![tag("black coffee", 0, 12, "drink")];
    let additions = vec![tag("coffee", 6, 12, "bean"), tag("now", 13, 16, "moment")];
    let merged = enrich_entities(base, &additions);
    let expected = vec![
        tag("black coffee", 0, 12, "drink"),
        tag("now", 13, 16, "moment"),
    ];
    assert_eq!(expected, merged);
}

#[test]
fn enrich_treats_missing_ranges_as_conflict_free() {
    let base = vec![tag("black coffee", 0, 12, "drink")];
    let no_range = TaggedEntity {
        value: "whatever".to_string(),
        range: None,
        entity: "drink".to_string(),
        slot_name: None,
    };
    let merged = enrich_entities(base.clone(), &vec![no_range.clone()]);
    assert_eq!(merged, vec![base[0].clone(), no_range]);
}

#[test]
fn disambiguation_assigns_first_declared_argument_name() {
    // "origin" and "destination" share the entity "city": the
    // first-declared argument name wins for an unnamed span.
    let mapping = vec![
        ("origin".to_string(), "city".to_string()),
        ("destination".to_string(), "city".to_string()),
    ];
    let tags = vec![tag("paris", 0, 5, "city")];
    let named = disambiguate_tagged_entities(tags, &mapping);
    assert_eq!(named[0].slot_name, Some("origin".to_string()));
}

#[test]
fn disambiguation_keeps_existing_names_and_unmapped_entities() {
    let mapping = vec![("origin".to_string(), "city".to_string())];
    let already_named = TaggedEntity {
        value: "paris".to_string(),
        range: Some(CharRange { start: 0, end: 5 }),
        entity: "city".to_string(),
        slot_name: Some("destination".to_string()),
    };
    let unmapped = tag("7", 6, 7, "snips/number");
    let named = disambiguate_tagged_entities(vec![already_named.clone(), unmapped.clone()], &mapping);
    assert_eq!(named[0], already_named);
    assert_eq!(named[1], unmapped);
}
