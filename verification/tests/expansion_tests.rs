use jsonld_expansion::diagnostics::{JsonLdErrorCode, JsonLdSyntaxError};
use jsonld_expansion::events::{JsonLdEvent, JsonLdIdOrKeyword, JsonLdValue};
use jsonld_expansion::expansion::JsonLdExpansionConverter;
use jsonld_expansion::json::JsonEvent;

fn expand(
    tokens: Vec<JsonEvent>,
    base_url: Option<String>,
    lenient: bool,
) -> (Vec<JsonLdEvent>, Vec<JsonLdSyntaxError>) {
    let mut converter = JsonLdExpansionConverter::new(base_url, lenient);
    let mut results = Vec::new();
    let mut errors = Vec::new();
    converter.convert_all(tokens, &mut results, &mut errors);
    assert!(converter.is_end());
    (results, errors)
}

fn key(s: &str) -> JsonEvent {
    JsonEvent::ObjectKey(s.to_string())
}

fn string(s: &str) -> JsonEvent {
    JsonEvent::String(s.to_string())
}

#[test]
fn typed_literal() {
    let (events, errors) = expand(
        vec![
            JsonEvent::StartObject,
            key("@value"),
            string("42"),
            key("@type"),
            string("http://www.w3.org/2001/XMLSchema#integer"),
            JsonEvent::EndObject,
            JsonEvent::Eof,
        ],
        None,
        false,
    );
    assert_eq!(
        events,
        vec![JsonLdEvent::Value {
            value: JsonLdValue::String("42".to_string()),
            value_type: Some("http://www.w3.org/2001/XMLSchema#integer".to_string()),
            language: None,
        }]
    );
    assert!(errors.is_empty());
}

#[test]
fn language_tagged_literal() {
    let (events, errors) = expand(
        vec![
            JsonEvent::StartObject,
            key("@value"),
            string("hello"),
            key("@language"),
            string("en"),
            JsonEvent::EndObject,
            JsonEvent::Eof,
        ],
        None,
        false,
    );
    assert_eq!(
        events,
        vec![JsonLdEvent::Value {
            value: JsonLdValue::String("hello".to_string()),
            value_type: None,
            language: Some("en".to_string()),
        }]
    );
    assert!(errors.is_empty());
}

#[test]
fn colliding_value_keywords() {
    let (events, errors) = expand(
        vec![
            JsonEvent::StartObject,
            key("@value"),
            string("x"),
            key("@value"),
            string("y"),
            JsonEvent::EndObject,
            JsonEvent::Eof,
        ],
        None,
        false,
    );
    assert_eq!(
        events,
        vec![JsonLdEvent::Value {
            value: JsonLdValue::String("x".to_string()),
            value_type: None,
            language: None,
        }]
    );
    assert_eq!(errors.len(), 1);
    assert_eq!(errors[0].code, Some(JsonLdErrorCode::InvalidValueObject));
}

#[test]
fn node_with_id_and_property() {
    let (events, errors) = expand(
        vec![
            JsonEvent::StartObject,
            key("@context"),
            JsonEvent::StartObject,
            key("foo"),
            string("http://ex/foo"),
            JsonEvent::EndObject,
            key("@id"),
            string("http://ex/s"),
            key("foo"),
            string("bar"),
            JsonEvent::EndObject,
            JsonEvent::Eof,
        ],
        None,
        false,
    );
    assert_eq!(
        events,
        vec![
            JsonLdEvent::StartObject { types: vec![] },
            JsonLdEvent::Id("http://ex/s".to_string()),
            JsonLdEvent::StartProperty("http://ex/foo".to_string()),
            JsonLdEvent::Value {
                value: JsonLdValue::String("bar".to_string()),
                value_type: None,
                language: None,
            },
            JsonLdEvent::EndProperty,
            JsonLdEvent::EndObject,
        ]
    );
    assert!(errors.is_empty());
}

#[test]
fn nested_context_override() {
    let (events, errors) = expand(
        vec![
            JsonEvent::StartObject,
            key("@context"),
            JsonEvent::StartObject,
            key("@vocab"),
            string("http://a/"),
            JsonEvent::EndObject,
            key("q"),
            JsonEvent::StartObject,
            key("@context"),
            JsonEvent::StartObject,
            key("@vocab"),
            string("http://b/"),
            JsonEvent::EndObject,
            key("x"),
            string("v"),
            JsonEvent::EndObject,
            key("x"),
            string("w"),
            JsonEvent::EndObject,
            JsonEvent::Eof,
        ],
        None,
        false,
    );
    assert_eq!(
        events,
        vec![
            JsonLdEvent::StartObject { types: vec![] },
            JsonLdEvent::StartProperty("http://a/q".to_string()),
            JsonLdEvent::StartObject { types: vec![] },
            JsonLdEvent::StartProperty("http://b/x".to_string()),
            JsonLdEvent::Value {
                value: JsonLdValue::String("v".to_string()),
                value_type: None,
                language: None,
            },
            JsonLdEvent::EndProperty,
            JsonLdEvent::EndObject,
            JsonLdEvent::EndProperty,
            JsonLdEvent::StartProperty("http://a/x".to_string()),
            JsonLdEvent::Value {
                value: JsonLdValue::String("w".to_string()),
                value_type: None,
                language: None,
            },
            JsonLdEvent::EndProperty,
            JsonLdEvent::EndObject,
        ]
    );
    assert!(errors.is_empty());
}

#[test]
fn invalid_type_non_string() {
    let (events, errors) = expand(
        vec![
            JsonEvent::StartObject,
            key("@type"),
            JsonEvent::Number("3".to_string()),
            key("http://ex/p"),
            string("q"),
            JsonEvent::EndObject,
            JsonEvent::Eof,
        ],
        None,
        false,
    );
    assert_eq!(
        events,
        vec![
            JsonLdEvent::StartObject { types: vec![] },
            JsonLdEvent::StartProperty("http://ex/p".to_string()),
            JsonLdEvent::Value {
                value: JsonLdValue::String("q".to_string()),
                value_type: None,
                language: None,
            },
            JsonLdEvent::EndProperty,
            JsonLdEvent::EndObject,
        ]
    );
    assert_eq!(errors.len(), 1);
    assert_eq!(errors[0].code, Some(JsonLdErrorCode::InvalidTypeValue));
}

#[test]
fn expansion_stability_without_colon_or_term() {
    let converter = JsonLdExpansionConverter::new(None, false);
    let expanded = converter.expand_iri("plain-name".to_string(), false, false);
    assert_eq!(
        expanded,
        Some(JsonLdIdOrKeyword::Id("plain-name".to_string()))
    );
}

#[test]
fn keyword_like_key_is_dropped() {
    let converter = JsonLdExpansionConverter::new(None, false);
    assert_eq!(converter.expand_iri("@custom".to_string(), false, true), None);
    let (events, errors) = expand(
        vec![
            JsonEvent::StartObject,
            key("@custom"),
            JsonEvent::Number("1".to_string()),
            key("http://ex/p"),
            JsonEvent::Number("2".to_string()),
            JsonEvent::EndObject,
            JsonEvent::Eof,
        ],
        None,
        false,
    );
    assert_eq!(
        events,
        vec![
            JsonLdEvent::StartObject { types: vec![] },
            JsonLdEvent::StartProperty("http://ex/p".to_string()),
            JsonLdEvent::Value {
                value: JsonLdValue::Number("2".to_string()),
                value_type: None,
                language: None,
            },
            JsonLdEvent::EndProperty,
            JsonLdEvent::EndObject,
        ]
    );
    assert!(errors.is_empty());
}

#[test]
fn reserved_keyword_is_recognised() {
    let converter = JsonLdExpansionConverter::new(None, false);
    assert_eq!(
        converter.expand_iri("@value".to_string(), false, true),
        Some(JsonLdIdOrKeyword::Keyword("value".to_string()))
    );
}

#[test]
fn compact_iri_expands_through_prefix_term() {
    let (events, errors) = expand(
        vec![
            JsonEvent::StartObject,
            key("@context"),
            JsonEvent::StartObject,
            key("ex"),
            string("http://ex/"),
            JsonEvent::EndObject,
            key("ex:foo"),
            string("bar"),
            JsonEvent::EndObject,
            JsonEvent::Eof,
        ],
        None,
        false,
    );
    assert_eq!(
        events,
        vec![
            JsonLdEvent::StartObject { types: vec![] },
            JsonLdEvent::StartProperty("http://ex/foo".to_string()),
            JsonLdEvent::Value {
                value: JsonLdValue::String("bar".to_string()),
                value_type: None,
                language: None,
            },
            JsonLdEvent::EndProperty,
            JsonLdEvent::EndObject,
        ]
    );
    assert!(errors.is_empty());
}

#[test]
fn document_relative_id_resolves_against_base() {
    let converter = JsonLdExpansionConverter::new(
        Some("http://foo.com/bar/baz".to_string()),
        false,
    );
    assert_eq!(
        converter.expand_iri("bat#foo".to_string(), true, false),
        Some(JsonLdIdOrKeyword::Id("http://foo.com/bar/bat#foo".to_string()))
    );
}

#[test]
fn lenient_document_relative_id_resolves_unchecked() {
    let converter = JsonLdExpansionConverter::new(
        Some("http://foo.com/bar/baz".to_string()),
        true,
    );
    assert_eq!(
        converter.expand_iri("bat#foo".to_string(), true, false),
        Some(JsonLdIdOrKeyword::Id("http://foo.com/bar/bat#foo".to_string()))
    );
}

#[test]
fn balance_over_arrays_and_nested_objects() {
    let (events, _) = expand(
        vec![
            JsonEvent::StartArray,
            JsonEvent::StartObject,
            key("http://ex/p"),
            JsonEvent::StartArray,
            string("a"),
            JsonEvent::StartObject,
            key("http://ex/q"),
            JsonEvent::Boolean(true),
            JsonEvent::EndObject,
            JsonEvent::EndArray,
            JsonEvent::EndObject,
            JsonEvent::StartObject,
            JsonEvent::EndObject,
            JsonEvent::EndArray,
            JsonEvent::Eof,
        ],
        None,
        false,
    );
    let start_objects = events
        .iter()
        .filter(|e| matches!(e, JsonLdEvent::StartObject { .. }))
        .count();
    let end_objects = events
        .iter()
        .filter(|e| matches!(e, JsonLdEvent::EndObject))
        .count();
    let start_properties = events
        .iter()
        .filter(|e| matches!(e, JsonLdEvent::StartProperty(_)))
        .count();
    let end_properties = events
        .iter()
        .filter(|e| matches!(e, JsonLdEvent::EndProperty))
        .count();
    assert_eq!(start_objects, end_objects);
    assert_eq!(start_properties, end_properties);
    assert_eq!(start_objects, 3);
    assert_eq!(start_properties, 2);
}

#[test]
fn typed_value_with_two_types_is_reported() {
    let (events, errors) = expand(
        vec![
            JsonEvent::StartObject,
            key("@type"),
            JsonEvent::StartArray,
            string("http://ex/T1"),
            string("http://ex/T2"),
            JsonEvent::EndArray,
            key("@value"),
            string("v"),
            JsonEvent::EndObject,
            JsonEvent::Eof,
        ],
        None,
        false,
    );
    assert_eq!(errors.len(), 1);
    assert_eq!(errors[0].code, Some(JsonLdErrorCode::InvalidTypedValue));
    assert_eq!(events.len(), 1);
}

#[test]
fn value_array_is_reported() {
    let (events, errors) = expand(
        vec![
            JsonEvent::StartObject,
            key("@value"),
            JsonEvent::StartArray,
            string("a"),
            JsonEvent::EndArray,
            JsonEvent::EndObject,
            JsonEvent::Eof,
        ],
        None,
        false,
    );
    assert!(events.is_empty());
    assert_eq!(errors.len(), 1);
    assert_eq!(errors[0].code, Some(JsonLdErrorCode::InvalidValueObjectValue));
}

#[test]
fn language_on_non_string_value_is_reported() {
    let (events, errors) = expand(
        vec![
            JsonEvent::StartObject,
            key("@value"),
            JsonEvent::Number("1".to_string()),
            key("@language"),
            string("en"),
            JsonEvent::EndObject,
            JsonEvent::Eof,
        ],
        None,
        false,
    );
    assert_eq!(events.len(), 1);
    assert_eq!(errors.len(), 1);
    assert_eq!(errors[0].code, Some(JsonLdErrorCode::InvalidLanguageTaggedValue));
}

#[test]
fn non_string_language_is_reported() {
    let (_, errors) = expand(
        vec![
            JsonEvent::StartObject,
            key("@value"),
            string("a"),
            key("@language"),
            JsonEvent::Number("5".to_string()),
            JsonEvent::EndObject,
            JsonEvent::Eof,
        ],
        None,
        false,
    );
    assert_eq!(errors.len(), 1);
    assert_eq!(
        errors[0].code,
        Some(JsonLdErrorCode::InvalidLanguageTaggedString)
    );
}

#[test]
fn colliding_language_keywords() {
    let (_, errors) = expand(
        vec![
            JsonEvent::StartObject,
            key("@value"),
            string("a"),
            key("@language"),
            string("en"),
            key("@language"),
            string("fr"),
            JsonEvent::EndObject,
            JsonEvent::Eof,
        ],
        None,
        false,
    );
    assert_eq!(errors.len(), 1);
    assert_eq!(errors[0].code, Some(JsonLdErrorCode::CollidingKeywords));
}

#[test]
fn type_and_language_together_are_reported() {
    let (events, errors) = expand(
        vec![
            JsonEvent::StartObject,
            key("@value"),
            string("a"),
            key("@language"),
            string("en"),
            key("@type"),
            string("http://ex/T"),
            JsonEvent::EndObject,
            JsonEvent::Eof,
        ],
        None,
        false,
    );
    assert_eq!(events.len(), 1);
    assert_eq!(errors.len(), 1);
    assert_eq!(errors[0].code, Some(JsonLdErrorCode::InvalidValueObject));
}

#[test]
fn null_value_suppresses_the_event() {
    let (events, errors) = expand(
        vec![
            JsonEvent::StartObject,
            key("@value"),
            JsonEvent::Null,
            JsonEvent::EndObject,
            JsonEvent::Eof,
        ],
        None,
        false,
    );
    assert!(events.is_empty());
    assert!(errors.is_empty());
}

#[test]
fn deep_nesting_is_reported_and_survived() {
    let mut tokens = Vec::new();
    for _ in 0..5000 {
        tokens.push(JsonEvent::StartArray);
    }
    let mut converter = JsonLdExpansionConverter::new(None, false);
    let mut results = Vec::new();
    let mut errors = Vec::new();
    converter.convert_all(tokens, &mut results, &mut errors);
    assert!(errors.iter().any(|e| e.message == "Too large state stack"));
    assert!(results.is_empty());
}

#[test]
fn context_stack_resets_after_a_complete_document() {
    let mut converter = JsonLdExpansionConverter::new(None, false);
    let mut results = Vec::new();
    let mut errors = Vec::new();
    for token in [
        JsonEvent::StartObject,
        key("@context"),
        JsonEvent::StartObject,
        key("@vocab"),
        string("http://a/"),
        JsonEvent::EndObject,
        key("x"),
        JsonEvent::StartObject,
        JsonEvent::EndObject,
        JsonEvent::EndObject,
        JsonEvent::Eof,
    ] {
        converter.convert_event(token, &mut results, &mut errors);
    }
    assert!(converter.is_end());
    assert!(converter.context_stack_is_reset());
    assert!(errors.is_empty());
}

#[test]
fn empty_object_emits_start_and_end() {
    let (events, errors) = expand(
        vec![JsonEvent::StartObject, JsonEvent::EndObject, JsonEvent::Eof],
        None,
        false,
    );
    assert_eq!(
        events,
        vec![
            JsonLdEvent::StartObject { types: vec![] },
            JsonLdEvent::EndObject,
        ]
    );
    assert!(errors.is_empty());
}

#[test]
fn top_level_scalar_becomes_a_value() {
    let (events, errors) = expand(
        vec![JsonEvent::Number("7".to_string()), JsonEvent::Eof],
        None,
        false,
    );
    assert_eq!(
        events,
        vec![JsonLdEvent::Value {
            value: JsonLdValue::Number("7".to_string()),
            value_type: None,
            language: None,
        }]
    );
    assert!(errors.is_empty());
}
