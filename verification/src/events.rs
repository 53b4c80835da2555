//! The events the expansion converter emits, and the literal values they
//! carry.

use vstd::prelude::*;

verus! {

/// A literal value: the scalar JSON leaves minus null.
#[derive(Debug, Clone, PartialEq, Eq)]
pub enum JsonLdValue {
    String(String),
    Number(String),
    Boolean(bool),
}

/// Mathematical model of a literal value.
pub enum JsonLdValueV {
    String(Seq<char>),
    Number(Seq<char>),
    Boolean(bool),
}

impl View for JsonLdValue {
    type V = JsonLdValueV;

    open spec fn view(&self) -> JsonLdValueV {
        match self {
            JsonLdValue::String(s) => JsonLdValueV::String(s@),
            JsonLdValue::Number(s) => JsonLdValueV::Number(s@),
            JsonLdValue::Boolean(b) => JsonLdValueV::Boolean(*b),
        }
    }
}

/// One event of the expanded output stream.
#[derive(Debug, Clone, PartialEq, Eq)]
pub enum JsonLdEvent {
    StartObject { types: Vec<String> },
    EndObject,
    StartProperty(String),
    EndProperty,
    Id(String),
    Value { value: JsonLdValue, value_type: Option<String>, language: Option<String> },
}

/// Mathematical model of an output event.
pub enum JsonLdEventV {
    StartObject { types: Seq<Seq<char>> },
    EndObject,
    StartProperty(Seq<char>),
    EndProperty,
    Id(Seq<char>),
    Value { value: JsonLdValueV, value_type: Option<Seq<char>>, language: Option<Seq<char>> },
}

/// The views of a list of IRI strings.
pub open spec fn strings_view(items: Seq<String>) -> Seq<Seq<char>> {
    Seq::new(items.len(), |i: int| items[i]@)
}

impl View for JsonLdEvent {
    type V = JsonLdEventV;

    open spec fn view(&self) -> JsonLdEventV {
        match self {
            JsonLdEvent::StartObject { types } => JsonLdEventV::StartObject {
                types: strings_view(types@),
            },
            JsonLdEvent::EndObject => JsonLdEventV::EndObject,
            JsonLdEvent::StartProperty(iri) => JsonLdEventV::StartProperty(iri@),
            JsonLdEvent::EndProperty => JsonLdEventV::EndProperty,
            JsonLdEvent::Id(iri) => JsonLdEventV::Id(iri@),
            JsonLdEvent::Value { value, value_type, language } => JsonLdEventV::Value {
                value: value@,
                value_type: crate::iri::opt_str_view(*value_type),
                language: crate::iri::opt_str_view(*language),
            },
        }
    }
}

/// The models of an event buffer, event for event.
pub open spec fn events_view(events: Seq<JsonLdEvent>) -> Seq<JsonLdEventV> {
    Seq::new(events.len(), |i: int| events[i]@)
}

/// What IRI expansion yields for a string: an absolute (or context-resolved)
/// IRI, or a recognised JSON-LD keyword.
#[derive(Debug, Clone, PartialEq, Eq)]
pub enum JsonLdIdOrKeyword {
    Id(String),
    Keyword(String),
}

/// Mathematical model of an IRI expansion outcome.
pub enum JsonLdIdOrKeywordV {
    Id(Seq<char>),
    Keyword(Seq<char>),
}

impl View for JsonLdIdOrKeyword {
    type V = JsonLdIdOrKeywordV;

    open spec fn view(&self) -> JsonLdIdOrKeywordV {
        match self {
            JsonLdIdOrKeyword::Id(s) => JsonLdIdOrKeywordV::Id(s@),
            JsonLdIdOrKeyword::Keyword(s) => JsonLdIdOrKeywordV::Keyword(s@),
        }
    }
}

/// The view of an optional expansion outcome.
pub open spec fn opt_id_or_keyword_view(
    o: Option<JsonLdIdOrKeyword>,
) -> Option<JsonLdIdOrKeywordV> {
    match o {
        Some(k) => Some(k@),
        None => None,
    }
}

} // verus!
