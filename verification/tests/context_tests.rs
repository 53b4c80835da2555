use jsonld_expansion::context::{
    process_context, JsonLdContext, JsonLdProcessingMode, JsonLdTermDefinition,
};
use jsonld_expansion::diagnostics::JsonLdErrorCode;
use jsonld_expansion::json::JsonNode;

fn entry(k: &str, v: JsonNode) -> (String, JsonNode) {
    (k.to_string(), v)
}

fn string_node(s: &str) -> JsonNode {
    JsonNode::String(s.to_string())
}

#[test]
fn null_context_resets_to_empty_with_same_base() {
    let active = JsonLdContext {
        base_iri: Some("http://ex/base".to_string()),
        original_base_url: Some("http://ex/original".to_string()),
        vocabulary_mapping: Some("http://ex/vocab#".to_string()),
        default_language: None,
        term_definitions: vec![(
            "foo".to_string(),
            JsonLdTermDefinition {
                iri_mapping: Some("http://ex/foo".to_string()),
                prefix: false,
                protected: false,
            },
        )],
        previous_context: None,
    };
    let mut errors = Vec::new();
    let result = process_context(
        &active,
        JsonNode::Null,
        None,
        Vec::new(),
        false,
        true,
        JsonLdProcessingMode::JsonLd1_1,
        false,
        &mut errors,
    );
    assert!(errors.is_empty());
    assert_eq!(result.base_iri, Some("http://ex/original".to_string()));
    assert_eq!(result.original_base_url, Some("http://ex/original".to_string()));
    assert_eq!(result.vocabulary_mapping, None);
    assert!(result.term_definitions.is_empty());
    assert!(result.previous_context.is_none());
}

#[test]
fn nullifying_a_protected_term_is_reported() {
    let active = JsonLdContext {
        base_iri: None,
        original_base_url: None,
        vocabulary_mapping: None,
        default_language: None,
        term_definitions: vec![(
            "keep".to_string(),
            JsonLdTermDefinition {
                iri_mapping: Some("http://ex/keep".to_string()),
                prefix: false,
                protected: true,
            },
        )],
        previous_context: None,
    };
    let mut errors = Vec::new();
    process_context(
        &active,
        JsonNode::Null,
        None,
        Vec::new(),
        false,
        true,
        JsonLdProcessingMode::JsonLd1_1,
        false,
        &mut errors,
    );
    assert_eq!(errors.len(), 1);
    assert_eq!(
        errors[0].code,
        Some(JsonLdErrorCode::InvalidContextNullification)
    );
}

#[test]
fn scalar_local_context_is_reported() {
    let active = JsonLdContext::new_empty(None);
    let mut errors = Vec::new();
    process_context(
        &active,
        JsonNode::Boolean(true),
        None,
        Vec::new(),
        false,
        true,
        JsonLdProcessingMode::JsonLd1_1,
        false,
        &mut errors,
    );
    assert_eq!(errors.len(), 1);
    assert_eq!(errors[0].code, Some(JsonLdErrorCode::InvalidLocalContext));
}

#[test]
fn version_must_be_one_point_one() {
    let active = JsonLdContext::new_empty(None);
    let mut errors = Vec::new();
    process_context(
        &active,
        JsonNode::Object(vec![entry("@version", JsonNode::Number("1.0".to_string()))]),
        None,
        Vec::new(),
        false,
        true,
        JsonLdProcessingMode::JsonLd1_1,
        false,
        &mut errors,
    );
    assert_eq!(errors.len(), 1);
    assert_eq!(errors[0].code, Some(JsonLdErrorCode::InvalidVersionValue));
}

#[test]
fn version_in_1_0_mode_is_a_conflict() {
    let active = JsonLdContext::new_empty(None);
    let mut errors = Vec::new();
    process_context(
        &active,
        JsonNode::Object(vec![entry("@version", JsonNode::Number("1.1".to_string()))]),
        None,
        Vec::new(),
        false,
        true,
        JsonLdProcessingMode::JsonLd1_0,
        false,
        &mut errors,
    );
    assert_eq!(errors.len(), 1);
    assert_eq!(errors[0].code, Some(JsonLdErrorCode::ProcessingModeConflict));
}

#[test]
fn import_in_1_0_mode_is_reported() {
    let active = JsonLdContext::new_empty(None);
    let mut errors = Vec::new();
    process_context(
        &active,
        JsonNode::Object(vec![entry("@import", string_node("http://ex/ctx"))]),
        None,
        Vec::new(),
        false,
        true,
        JsonLdProcessingMode::JsonLd1_0,
        false,
        &mut errors,
    );
    assert_eq!(errors[0].code, Some(JsonLdErrorCode::InvalidContextEntry));
}

#[test]
fn base_resolves_against_current_base() {
    let active = JsonLdContext::new_empty(Some("http://foo.com/bar/baz".to_string()));
    let mut errors = Vec::new();
    let result = process_context(
        &active,
        JsonNode::Object(vec![entry("@base", string_node("bat#foo"))]),
        None,
        Vec::new(),
        false,
        true,
        JsonLdProcessingMode::JsonLd1_1,
        false,
        &mut errors,
    );
    assert!(errors.is_empty());
    assert_eq!(result.base_iri, Some("http://foo.com/bar/bat#foo".to_string()));
}

#[test]
fn invalid_base_is_reported() {
    let active = JsonLdContext::new_empty(None);
    let mut errors = Vec::new();
    let result = process_context(
        &active,
        JsonNode::Object(vec![entry("@base", string_node("not a valid iri"))]),
        None,
        Vec::new(),
        false,
        true,
        JsonLdProcessingMode::JsonLd1_1,
        false,
        &mut errors,
    );
    assert_eq!(errors.len(), 1);
    assert_eq!(errors[0].code, Some(JsonLdErrorCode::InvalidBaseIri));
    assert_eq!(result.base_iri, None);
}

#[test]
fn null_base_clears_the_base() {
    let active = JsonLdContext::new_empty(Some("http://ex/".to_string()));
    let mut errors = Vec::new();
    let result = process_context(
        &active,
        JsonNode::Object(vec![entry("@base", JsonNode::Null)]),
        None,
        Vec::new(),
        false,
        true,
        JsonLdProcessingMode::JsonLd1_1,
        false,
        &mut errors,
    );
    assert!(errors.is_empty());
    assert_eq!(result.base_iri, None);
}

#[test]
fn vocab_accepts_an_absolute_iri_and_rejects_garbage() {
    let active = JsonLdContext::new_empty(None);
    let mut errors = Vec::new();
    let result = process_context(
        &active,
        JsonNode::Object(vec![entry("@vocab", string_node("http://ex/vocab#"))]),
        None,
        Vec::new(),
        false,
        true,
        JsonLdProcessingMode::JsonLd1_1,
        false,
        &mut errors,
    );
    assert!(errors.is_empty());
    assert_eq!(result.vocabulary_mapping, Some("http://ex/vocab#".to_string()));

    let mut errors = Vec::new();
    let result = process_context(
        &active,
        JsonNode::Object(vec![entry("@vocab", string_node("not a valid iri"))]),
        None,
        Vec::new(),
        false,
        true,
        JsonLdProcessingMode::JsonLd1_1,
        false,
        &mut errors,
    );
    assert_eq!(errors.len(), 1);
    assert_eq!(errors[0].code, Some(JsonLdErrorCode::InvalidVocabMapping));
    assert_eq!(result.vocabulary_mapping, None);
}

#[test]
fn lenient_vocab_accepts_anything() {
    let active = JsonLdContext::new_empty(None);
    let mut errors = Vec::new();
    let result = process_context(
        &active,
        JsonNode::Object(vec![entry("@vocab", string_node("not a valid iri"))]),
        None,
        Vec::new(),
        false,
        true,
        JsonLdProcessingMode::JsonLd1_1,
        true,
        &mut errors,
    );
    assert!(errors.is_empty());
    assert_eq!(result.vocabulary_mapping, Some("not a valid iri".to_string()));
}

#[test]
fn blank_node_vocab_is_accepted_verbatim() {
    let active = JsonLdContext::new_empty(None);
    let mut errors = Vec::new();
    let result = process_context(
        &active,
        JsonNode::Object(vec![entry("@vocab", string_node("_:b0"))]),
        None,
        Vec::new(),
        false,
        true,
        JsonLdProcessingMode::JsonLd1_1,
        false,
        &mut errors,
    );
    assert!(errors.is_empty());
    assert_eq!(result.vocabulary_mapping, Some("_:b0".to_string()));
}

#[test]
fn term_definition_keeps_its_iri_and_prefix_flag() {
    let active = JsonLdContext::new_empty(None);
    let mut errors = Vec::new();
    let result = process_context(
        &active,
        JsonNode::Object(vec![
            entry("plain", string_node("http://ex/plain")),
            entry("pfx", string_node("http://ex/ns#")),
        ]),
        None,
        Vec::new(),
        false,
        true,
        JsonLdProcessingMode::JsonLd1_1,
        false,
        &mut errors,
    );
    assert!(errors.is_empty());
    assert_eq!(result.term_definitions.len(), 2);
    let plain = &result.term_definitions[0].1;
    assert_eq!(plain.iri_mapping, Some("http://ex/plain".to_string()));
    assert!(!plain.prefix);
    let pfx = &result.term_definitions[1].1;
    assert_eq!(pfx.iri_mapping, Some("http://ex/ns#".to_string()));
    assert!(pfx.prefix);
}

#[test]
fn non_boolean_propagate_is_reported() {
    let active = JsonLdContext::new_empty(None);
    let mut errors = Vec::new();
    process_context(
        &active,
        JsonNode::Object(vec![entry("@propagate", string_node("yes"))]),
        None,
        Vec::new(),
        false,
        true,
        JsonLdProcessingMode::JsonLd1_1,
        false,
        &mut errors,
    );
    assert_eq!(errors.len(), 1);
    assert_eq!(errors[0].code, None);
}

#[test]
fn disabled_propagation_snapshots_the_previous_context() {
    let active = JsonLdContext::new_empty(Some("http://ex/".to_string()));
    let mut errors = Vec::new();
    let result = process_context(
        &active,
        JsonNode::Object(vec![entry("@propagate", JsonNode::Boolean(false))]),
        None,
        Vec::new(),
        false,
        true,
        JsonLdProcessingMode::JsonLd1_1,
        false,
        &mut errors,
    );
    assert!(errors.is_empty());
    let previous = result.previous_context.expect("previous context kept");
    assert_eq!(previous.original_base_url, Some("http://ex/".to_string()));
}
