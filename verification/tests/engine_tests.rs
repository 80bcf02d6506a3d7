use queries_core::builtin::{BuiltinEntityParser, BuiltinVocabEntry};
use queries_core::engine::{NLUEngineConfiguration, SnipsNLUEngine};
use queries_core::parser_api::{DeterministicIntentParser, IntentPattern};
use queries_core::types::{
    BuiltinValue, CharRange, Entity, IntentClassification, IntentParserResult, NluError, Slot,
    SlotValue,
};

fn number_recognizer() -> BuiltinEntityParser {
    BuiltinEntityParser {
        entries: vec![BuiltinVocabEntry {
            surface: "two".to_string(),
            kind: "snips/number".to_string(),
            payload: BuiltinValue::Number(2),
        }],
        kinds: vec!["snips/number".to_string()],
    }
}

fn coffee_mapping() -> Vec<(String, Vec<(String, String)>)> {
    vec![(
        "MakeCoffee".to_string(),
        vec![
            ("number_of_cups".to_string(), "snips/number".to_string()),
            ("coffee_kind".to_string(), "coffee_type".to_string()),
        ],
    )]
}

fn coffee_entity(extensible: bool) -> Entity {
    Entity {
        utterances: vec![("espresso".to_string(), "Espresso".to_string())],
        automatically_extensible: extensible,
    }
}

fn beverage_pattern() -> IntentPattern {
    IntentPattern {
        text: "Make me two cups of coffee please".to_string(),
        intent_name: "MakeCoffee".to_string(),
        probability: 7035172,
        slots: vec![Slot {
            raw_value: "two".to_string(),
            value: SlotValue::Builtin(BuiltinValue::Number(2)),
            range: Some(CharRange { start: 8, end: 11 }),
            entity: "snips/number".to_string(),
            slot_name: "number_of_cups".to_string(),
        }],
    }
}

fn beverage_engine(extensible: bool) -> SnipsNLUEngine<DeterministicIntentParser> {
    let parser = DeterministicIntentParser::new(vec![beverage_pattern()]).unwrap();
    let configuration = NLUEngineConfiguration {
        language: "en".to_string(),
        parsers: vec![parser],
        entities: vec![("coffee_type".to_string(), coffee_entity(extensible))],
        intents_data_sizes: vec![("MakeCoffee".to_string(), 11)],
        slot_name_mapping: coffee_mapping(),
        builtin_entity_parser: number_recognizer(),
    };
    SnipsNLUEngine::new(configuration).unwrap()
}

#[test]
fn it_works() {
    // Given
    let nlu_engine = beverage_engine(false);

    // When
    let result = nlu_engine.parse("Make me two cups of coffee please", None).unwrap();

    // Then
    let expected_entity_value = SlotValue::Builtin(BuiltinValue::Number(2));
    let expected_result = IntentParserResult {
        input: "Make me two cups of coffee please".to_string(),
        intent: Some(IntentClassification {
            intent_name: "MakeCoffee".to_string(),
            probability: 7035172,
        }),
        slots: Some(vec![Slot {
            raw_value: "two".to_string(),
            value: expected_entity_value,
            range: Some(CharRange { start: 8, end: 11 }),
            entity: "snips/number".to_string(),
            slot_name: "number_of_cups".to_string(),
        }]),
    };
    assert_eq!(expected_result, result);
}

#[test]
fn empty_strategy_list_parses_to_nothing() {
    let configuration: NLUEngineConfiguration<DeterministicIntentParser> = NLUEngineConfiguration {
        language: "en".to_string(),
        parsers: vec![],
        entities: vec![],
        intents_data_sizes: vec![],
        slot_name_mapping: vec![],
        builtin_entity_parser: number_recognizer(),
    };
    let engine = SnipsNLUEngine::new(configuration).unwrap();
    let result = engine.parse("anything at all", None).unwrap();
    assert_eq!(result.input, "anything at all".to_string());
    assert!(result.intent.is_none());
    assert!(result.slots.is_none());
}

#[test]
fn unsupported_language_is_rejected_at_construction() {
    let configuration: NLUEngineConfiguration<DeterministicIntentParser> = NLUEngineConfiguration {
        language: "xx".to_string(),
        parsers: vec![],
        entities: vec![],
        intents_data_sizes: vec![],
        slot_name_mapping: vec![],
        builtin_entity_parser: number_recognizer(),
    };
    let result = SnipsNLUEngine::new(configuration);
    assert_eq!(result.err().unwrap(), NluError::UnsupportedLanguage("xx".to_string()));
}

#[test]
fn inconsistent_pattern_slot_range_is_rejected() {
    let mut pattern = beverage_pattern();
    pattern.slots[0].range = Some(CharRange { start: 0, end: 3 });
    let result = DeterministicIntentParser::new(vec![pattern]);
    assert_eq!(result.err().unwrap(), NluError::InvalidConfiguration);
}

#[test]
fn extract_slot_unknown_intent_fails() {
    let engine = beverage_engine(false);
    let result = engine.extract_slot(
        "two".to_string(),
        "OrderTea",
        "number_of_cups".to_string(),
    );
    assert_eq!(result.err().unwrap(), NluError::UnknownIntent("OrderTea".to_string()));
}

#[test]
fn extract_slot_unknown_slot_fails() {
    let engine = beverage_engine(false);
    let result = engine.extract_slot("two".to_string(), "MakeCoffee", "sugar".to_string());
    assert_eq!(result.err().unwrap(), NluError::UnknownSlot("sugar".to_string()));
}

#[test]
fn extract_slot_custom_hit_is_canonical() {
    let engine = beverage_engine(false);
    let slot = engine
        .extract_slot("espresso".to_string(), "MakeCoffee", "coffee_kind".to_string())
        .unwrap()
        .unwrap();
    let expected = Slot {
        raw_value: "espresso".to_string(),
        value: SlotValue::Custom("Espresso".to_string()),
        range: None,
        entity: "coffee_type".to_string(),
        slot_name: "coffee_kind".to_string(),
    };
    assert_eq!(expected, slot);
}

#[test]
fn extract_slot_closed_entity_miss_yields_nothing() {
    let engine = beverage_engine(false);
    let slot = engine
        .extract_slot("decaf".to_string(), "MakeCoffee", "coffee_kind".to_string())
        .unwrap();
    assert!(slot.is_none());
}

#[test]
fn extract_slot_extensible_entity_miss_echoes_raw() {
    let engine = beverage_engine(true);
    let slot = engine
        .extract_slot("decaf".to_string(), "MakeCoffee", "coffee_kind".to_string())
        .unwrap()
        .unwrap();
    assert_eq!(slot.value, SlotValue::Custom("decaf".to_string()));
    assert_eq!(slot.raw_value, "decaf".to_string());
    assert!(slot.range.is_none());
}

#[test]
fn extract_slot_builtin_takes_first_match() {
    let engine = beverage_engine(false);
    let slot = engine
        .extract_slot(
            "give me two cups".to_string(),
            "MakeCoffee",
            "number_of_cups".to_string(),
        )
        .unwrap()
        .unwrap();
    let expected = Slot {
        raw_value: "two".to_string(),
        value: SlotValue::Builtin(BuiltinValue::Number(2)),
        range: None,
        entity: "snips/number".to_string(),
        slot_name: "number_of_cups".to_string(),
    };
    assert_eq!(expected, slot);
}

#[test]
fn extract_slot_builtin_without_match_yields_nothing() {
    let engine = beverage_engine(false);
    let slot = engine
        .extract_slot(
            "give me several cups".to_string(),
            "MakeCoffee",
            "number_of_cups".to_string(),
        )
        .unwrap();
    assert!(slot.is_none());
}

#[test]
fn extract_slot_unknown_entity_kind_fails() {
    let parser = DeterministicIntentParser::new(vec![]).unwrap();
    let configuration = NLUEngineConfiguration {
        language: "en".to_string(),
        parsers: vec![parser],
        entities: vec![],
        intents_data_sizes: vec![("MakeCoffee".to_string(), 11)],
        slot_name_mapping: vec![(
            "MakeCoffee".to_string(),
            vec![("when".to_string(), "snips/datetime".to_string())],
        )],
        builtin_entity_parser: number_recognizer(),
    };
    let engine = SnipsNLUEngine::new(configuration).unwrap();
    let result = engine.extract_slot("now".to_string(), "MakeCoffee", "when".to_string());
    assert_eq!(
        result.err().unwrap(),
        NluError::UnknownEntityKind("snips/datetime".to_string())
    );
}

#[test]
fn parse_normalizes_catalog_hit_to_canonical_value() {
    let pattern = IntentPattern {
        text: "an espresso please".to_string(),
        intent_name: "MakeCoffee".to_string(),
        probability: 9000000,
        slots: vec![Slot {
            raw_value: "espresso".to_string(),
            value: SlotValue::Custom("espresso".to_string()),
            range: Some(CharRange { start: 3, end: 11 }),
            entity: "coffee_type".to_string(),
            slot_name: "coffee_kind".to_string(),
        }],
    };
    let parser = DeterministicIntentParser::new(vec![pattern]).unwrap();
    let configuration = NLUEngineConfiguration {
        language: "en".to_string(),
        parsers: vec![parser],
        entities: vec![("coffee_type".to_string(), coffee_entity(false))],
        intents_data_sizes: vec![("MakeCoffee".to_string(), 11)],
        slot_name_mapping: coffee_mapping(),
        builtin_entity_parser: number_recognizer(),
    };
    let engine = SnipsNLUEngine::new(configuration).unwrap();
    let result = engine.parse("an espresso please", None).unwrap();
    let slots = result.slots.unwrap();
    assert_eq!(slots.len(), 1);
    assert_eq!(slots[0].value, SlotValue::Custom("Espresso".to_string()));
    assert_eq!(slots[0].raw_value, "espresso".to_string());
}

#[test]
fn parse_drops_out_of_vocabulary_slot_of_closed_entity() {
    let pattern = IntentPattern {
        text: "a decaf please".to_string(),
        intent_name: "MakeCoffee".to_string(),
        probability: 9000000,
        slots: vec![Slot {
            raw_value: "decaf".to_string(),
            value: SlotValue::Custom("decaf".to_string()),
            range: Some(CharRange { start: 2, end: 7 }),
            entity: "coffee_type".to_string(),
            slot_name: "coffee_kind".to_string(),
        }],
    };
    let parser = DeterministicIntentParser::new(vec![pattern]).unwrap();
    let configuration = NLUEngineConfiguration {
        language: "en".to_string(),
        parsers: vec![parser],
        entities: vec![("coffee_type".to_string(), coffee_entity(false))],
        intents_data_sizes: vec![("MakeCoffee".to_string(), 11)],
        slot_name_mapping: coffee_mapping(),
        builtin_entity_parser: number_recognizer(),
    };
    let engine = SnipsNLUEngine::new(configuration).unwrap();
    let result = engine.parse("a decaf please", None).unwrap();
    assert!(result.intent.is_some());
    assert_eq!(result.slots.unwrap(), vec![]);
}

#[test]
fn parse_keeps_out_of_vocabulary_slot_of_extensible_entity() {
    let pattern = IntentPattern {
        text: "a decaf please".to_string(),
        intent_name: "MakeCoffee".to_string(),
        probability: 9000000,
        slots: vec![Slot {
            raw_value: "decaf".to_string(),
            value: SlotValue::Custom("decaf".to_string()),
            range: Some(CharRange { start: 2, end: 7 }),
            entity: "coffee_type".to_string(),
            slot_name: "coffee_kind".to_string(),
        }],
    };
    let parser = DeterministicIntentParser::new(vec![pattern]).unwrap();
    let configuration = NLUEngineConfiguration {
        language: "en".to_string(),
        parsers: vec![parser],
        entities: vec![("coffee_type".to_string(), coffee_entity(true))],
        intents_data_sizes: vec![("MakeCoffee".to_string(), 11)],
        slot_name_mapping: coffee_mapping(),
        builtin_entity_parser: number_recognizer(),
    };
    let engine = SnipsNLUEngine::new(configuration).unwrap();
    let result = engine.parse("a decaf please", None).unwrap();
    let slots = result.slots.unwrap();
    assert_eq!(slots.len(), 1);
    assert_eq!(slots[0].value, SlotValue::Custom("decaf".to_string()));
}

#[test]
fn waterfall_takes_first_answering_strategy() {
    let first = DeterministicIntentParser::new(vec![IntentPattern {
        text: "hello there".to_string(),
        intent_name: "Greet".to_string(),
        probability: 8000000,
        slots: vec![],
    }])
    .unwrap();
    let second = DeterministicIntentParser::new(vec![
        IntentPattern {
            text: "hello there".to_string(),
            intent_name: "GreetAgain".to_string(),
            probability: 1000000,
            slots: vec![],
        },
        IntentPattern {
            text: "good bye".to_string(),
            intent_name: "Farewell".to_string(),
            probability: 2000000,
            slots: vec![],
        },
    ])
    .unwrap();
    let configuration = NLUEngineConfiguration {
        language: "en".to_string(),
        parsers: vec![first, second],
        entities: vec![],
        intents_data_sizes: vec![],
        slot_name_mapping: vec![],
        builtin_entity_parser: number_recognizer(),
    };
    let engine = SnipsNLUEngine::new(configuration).unwrap();

    // Both strategies know the first utterance: the first configured one wins.
    let result = engine.parse("hello there", None).unwrap();
    assert_eq!(result.intent.unwrap().intent_name, "Greet".to_string());

    // Only the second knows the other utterance: the waterfall falls through.
    let result = engine.parse("good bye", None).unwrap();
    assert_eq!(result.intent.unwrap().intent_name, "Farewell".to_string());
}

#[test]
fn intents_filter_is_honored() {
    let engine = beverage_engine(false);
    let filter: Vec<&str> = vec!["OrderTea"];
    let result = engine
        .parse("Make me two cups of coffee please", Some(filter.as_slice()))
        .unwrap();
    assert!(result.intent.is_none());
    assert!(result.slots.is_none());

    let filter: Vec<&str> = vec!["MakeCoffee"];
    let result = engine
        .parse("Make me two cups of coffee please", Some(filter.as_slice()))
        .unwrap();
    assert_eq!(result.intent.unwrap().intent_name, "MakeCoffee".to_string());
}

#[test]
fn model_version_is_fixed() {
    assert_eq!(SnipsNLUEngine::<DeterministicIntentParser>::model_version(), "0.8.3");
}
