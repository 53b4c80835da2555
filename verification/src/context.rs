//! The active context: the lexical scope that governs how keys and string
//! values are expanded, and the W3C Context Processing Algorithm that folds a
//! local context expression into it.

use vstd::prelude::*;

use crate::diagnostics::{JsonLdErrorCode, JsonLdSyntaxError, JsonLdSyntaxErrorV};
use crate::iri::{iri_resolution, iri_resolution_unchecked, iri_valid, opt_str_view};
use crate::iri::{iri_is_absolute, iri_resolve, iri_resolve_unchecked};
use crate::json::{entries_view, JsonNode, JsonNodeV};
use crate::text::{starts_with, str_concat, string_eq};

verus! {

/// The JSON-LD processing mode in force.
#[derive(Debug, Clone, Copy, PartialEq, Eq, Structural)]
pub enum JsonLdProcessingMode {
    JsonLd1_0,
    JsonLd1_1,
}

/// A term definition: the binding of a name to an IRI (or keyword alias),
/// with flags for compact-IRI prefix use and protection.
#[derive(Debug)]
pub struct JsonLdTermDefinition {
    pub iri_mapping: Option<String>,
    pub prefix: bool,
    pub protected: bool,
}

/// Mathematical model of a term definition.
pub struct JsonLdTermDefinitionV {
    pub iri_mapping: Option<Seq<char>>,
    pub prefix: bool,
    pub protected: bool,
}

impl View for JsonLdTermDefinition {
    type V = JsonLdTermDefinitionV;

    open spec fn view(&self) -> JsonLdTermDefinitionV {
        JsonLdTermDefinitionV {
            iri_mapping: opt_str_view(self.iri_mapping),
            prefix: self.prefix,
            protected: self.protected,
        }
    }
}

impl Clone for JsonLdTermDefinition {
    fn clone(&self) -> (r: Self)
        ensures
            r@ == self@,
    {
        JsonLdTermDefinition {
            iri_mapping: clone_opt_string(&self.iri_mapping),
            prefix: self.prefix,
            protected: self.protected,
        }
    }
}

/// Copies an optional string.
pub fn clone_opt_string(o: &Option<String>) -> (r: Option<String>)
    ensures
        opt_str_view(r) == opt_str_view(*o),
{
    match o {
        Some(s) => Some(s.clone()),
        None => None,
    }
}

/// An active context. `previous_context` chains to the scope to restore when
/// a non-propagating context is exited.
#[derive(Debug)]
pub struct JsonLdContext {
    pub base_iri: Option<String>,
    pub original_base_url: Option<String>,
    pub vocabulary_mapping: Option<String>,
    pub default_language: Option<String>,
    pub term_definitions: Vec<(String, JsonLdTermDefinition)>,
    pub previous_context: Option<Box<JsonLdContext>>,
}

/// Mathematical model of an active context.
pub struct JsonLdContextV {
    pub base_iri: Option<Seq<char>>,
    pub original_base_url: Option<Seq<char>>,
    pub vocabulary_mapping: Option<Seq<char>>,
    pub default_language: Option<Seq<char>>,
    pub term_definitions: Seq<(Seq<char>, JsonLdTermDefinitionV)>,
    pub previous_context: Option<Box<JsonLdContextV>>,
}

/// The models of a term-definition table, binding for binding.
pub open spec fn terms_view(
    terms: Seq<(String, JsonLdTermDefinition)>,
) -> Seq<(Seq<char>, JsonLdTermDefinitionV)> {
    Seq::new(terms.len(), |i: int| (terms[i].0@, terms[i].1@))
}

/// The model of an active context, chain included.
pub open spec fn ctx_view(c: JsonLdContext) -> JsonLdContextV
    decreases c,
{
    JsonLdContextV {
        base_iri: opt_str_view(c.base_iri),
        original_base_url: opt_str_view(c.original_base_url),
        vocabulary_mapping: opt_str_view(c.vocabulary_mapping),
        default_language: opt_str_view(c.default_language),
        term_definitions: terms_view(c.term_definitions@),
        previous_context: match c.previous_context {
            Some(b) => Some(Box::new(ctx_view(*b))),
            None => None,
        },
    }
}

impl View for JsonLdContext {
    type V = JsonLdContextV;

    open spec fn view(&self) -> JsonLdContextV {
        ctx_view(*self)
    }
}

impl Clone for JsonLdContext {
    fn clone(&self) -> (r: Self)
        ensures
            r@ == self@,
        decreases self,
    {
        let mut terms: Vec<(String, JsonLdTermDefinition)> = Vec::new();
        let mut i: usize = 0;
        while i < self.term_definitions.len()
            invariant
                i <= self.term_definitions@.len(),
                terms@.len() == i,
                forall|j: int| 0 <= j < i
                    ==> (#[trigger] terms@[j]).0@ == self.term_definitions@[j].0@
                        && terms@[j].1@ == self.term_definitions@[j].1@,
            decreases self.term_definitions@.len() - i,
        {
            let (name, def) = &self.term_definitions[i];
            terms.push((name.clone(), def.clone()));
            i = i + 1;
        }
        proof {
            assert(terms_view(terms@) =~= terms_view(self.term_definitions@));
        }
        let r = JsonLdContext {
            base_iri: clone_opt_string(&self.base_iri),
            original_base_url: clone_opt_string(&self.original_base_url),
            vocabulary_mapping: clone_opt_string(&self.vocabulary_mapping),
            default_language: clone_opt_string(&self.default_language),
            term_definitions: terms,
            previous_context: match &self.previous_context {
                Some(b) => Some(Box::new((**b).clone())),
                None => None,
            },
        };
        r
    }
}

/// The model of the empty context rooted at a base URL: the base doubles as
/// the base IRI, everything else is empty.
pub open spec fn spec_new_empty(original_base_url: Option<Seq<char>>) -> JsonLdContextV {
    JsonLdContextV {
        base_iri: original_base_url,
        original_base_url: original_base_url,
        vocabulary_mapping: None,
        default_language: None,
        term_definitions: Seq::empty(),
        previous_context: None,
    }
}

impl JsonLdContext {
    /// The empty context rooted at a document base URL.
    pub fn new_empty(original_base_url: Option<String>) -> (r: Self)
        ensures
            r@ == spec_new_empty(opt_str_view(original_base_url)),
    {
        let base_iri = clone_opt_string(&original_base_url);
        let r = JsonLdContext {
            base_iri,
            original_base_url,
            vocabulary_mapping: None,
            default_language: None,
            term_definitions: Vec::new(),
            previous_context: None,
        };
        proof {
            assert(r@.term_definitions =~= Seq::<(Seq<char>, JsonLdTermDefinitionV)>::empty());
        }
        r
    }
}

/// The first binding of a name in a term-definition table, if any.
pub open spec fn term_lookup(
    terms: Seq<(Seq<char>, JsonLdTermDefinitionV)>,
    name: Seq<char>,
) -> Option<JsonLdTermDefinitionV>
    decreases terms.len(),
{
    if terms.len() == 0 {
        None
    } else if terms[0].0 == name {
        Some(terms[0].1)
    } else {
        term_lookup(terms.subrange(1, terms.len() as int), name)
    }
}

/// The view of an optional term definition.
pub open spec fn opt_term_view(o: Option<JsonLdTermDefinition>) -> Option<JsonLdTermDefinitionV> {
    match o {
        Some(d) => Some(d@),
        None => None,
    }
}

/// Looks a name up in a term-definition table.
pub fn term_get(
    terms: &Vec<(String, JsonLdTermDefinition)>,
    name: &str,
) -> (r: Option<JsonLdTermDefinition>)
    ensures
        opt_term_view(r) == term_lookup(terms_view(terms@), name@),
{
    proof {
        assert(terms_view(terms@).subrange(0, terms@.len() as int) =~= terms_view(terms@));
    }
    let mut i: usize = 0;
    while i < terms.len()
        invariant
            i <= terms@.len(),
            term_lookup(terms_view(terms@), name@)
                == term_lookup(terms_view(terms@).subrange(i as int, terms@.len() as int), name@),
        decreases terms@.len() - i,
    {
        let ghost tv = terms_view(terms@);
        let ghost rest = tv.subrange(i as int, tv.len() as int);
        if string_eq(terms[i].0.as_str(), name) {
            proof {
                assert(rest[0] == tv[i as int]);
            }
            return Some(terms[i].1.clone());
        }
        proof {
            assert(rest[0] == tv[i as int]);
            assert(rest.subrange(1, rest.len() as int)
                =~= tv.subrange(i + 1, tv.len() as int));
        }
        i = i + 1;
    }
    proof {
        assert(terms_view(terms@).subrange(i as int, terms@.len() as int)
            =~= Seq::<(Seq<char>, JsonLdTermDefinitionV)>::empty());
    }
    None
}

/// The first member of a modelled JSON object that carries a key, if any.
pub open spec fn member_lookup(
    entries: Seq<(Seq<char>, JsonNodeV)>,
    key: Seq<char>,
) -> Option<JsonNodeV>
    decreases entries.len(),
{
    if entries.len() == 0 {
        None
    } else if entries[0].0 == key {
        Some(entries[0].1)
    } else {
        member_lookup(entries.subrange(1, entries.len() as int), key)
    }
}

/// Looks a key up among the members of a buffered JSON object.
pub fn object_get<'a>(entries: &'a Vec<(String, JsonNode)>, key: &str) -> (r: Option<
    &'a JsonNode,
>)
    ensures
        match r {
            Some(n) => member_lookup(entries_view(entries@), key@) == Some(n@),
            None => member_lookup(entries_view(entries@), key@) is None,
        },
{
    proof {
        broadcast use crate::json::lemma_entries_view_index;

        assert(entries_view(entries@).subrange(0, entries@.len() as int)
            =~= entries_view(entries@));
    }
    let mut i: usize = 0;
    while i < entries.len()
        invariant
            i <= entries@.len(),
            entries_view(entries@).len() == entries@.len(),
            member_lookup(entries_view(entries@), key@)
                == member_lookup(
                    entries_view(entries@).subrange(i as int, entries@.len() as int),
                    key@,
                ),
        decreases entries@.len() - i,
    {
        let ghost ev = entries_view(entries@);
        let ghost rest = ev.subrange(i as int, ev.len() as int);
        if string_eq(entries[i].0.as_str(), key) {
            proof {
                broadcast use crate::json::lemma_entries_view_index;

                assert(rest[0] == ev[i as int]);
            }
            return Some(&entries[i].1);
        }
        proof {
            broadcast use crate::json::lemma_entries_view_index;

            assert(rest[0] == ev[i as int]);
            assert(rest.subrange(1, rest.len() as int) =~= ev.subrange(i + 1, ev.len() as int));
        }
        i = i + 1;
    }
    proof {
        broadcast use crate::json::lemma_entries_view_index;

        assert(entries_view(entries@).subrange(i as int, entries@.len() as int)
            =~= Seq::<(Seq<char>, JsonNodeV)>::empty());
    }
    None
}

/// The binding table after giving a name a definition: the first binding of
/// the name is replaced; without one, the binding is appended.
pub open spec fn terms_with_binding(
    terms: Seq<(Seq<char>, JsonLdTermDefinitionV)>,
    name: Seq<char>,
    def: JsonLdTermDefinitionV,
) -> Seq<(Seq<char>, JsonLdTermDefinitionV)>
    decreases terms.len(),
{
    if terms.len() == 0 {
        seq![(name, def)]
    } else if terms[0].0 == name {
        seq![(name, def)] + terms.subrange(1, terms.len() as int)
    } else {
        seq![terms[0]] + terms_with_binding(terms.subrange(1, terms.len() as int), name, def)
    }
}

proof fn lemma_terms_with_binding_replaces(
    terms: Seq<(Seq<char>, JsonLdTermDefinitionV)>,
    name: Seq<char>,
    def: JsonLdTermDefinitionV,
    i: int,
)
    requires
        0 <= i < terms.len(),
        terms[i].0 == name,
        forall|j: int| 0 <= j < i ==> terms[j].0 != name,
    ensures
        terms_with_binding(terms, name, def) =~= terms.update(i, (name, def)),
    decreases terms.len(),
{
    if i == 0 {
        assert(terms_with_binding(terms, name, def) =~= terms.update(0, (name, def)));
    } else {
        lemma_terms_with_binding_replaces(terms.subrange(1, terms.len() as int), name, def, i - 1);
        assert(terms_with_binding(terms, name, def) =~= terms.update(i, (name, def)));
    }
}

proof fn lemma_terms_with_binding_appends(
    terms: Seq<(Seq<char>, JsonLdTermDefinitionV)>,
    name: Seq<char>,
    def: JsonLdTermDefinitionV,
)
    requires
        forall|j: int| 0 <= j < terms.len() ==> terms[j].0 != name,
    ensures
        terms_with_binding(terms, name, def) =~= terms.push((name, def)),
    decreases terms.len(),
{
    if terms.len() > 0 {
        lemma_terms_with_binding_appends(terms.subrange(1, terms.len() as int), name, def);
        assert(terms_with_binding(terms, name, def) =~= terms.push((name, def)));
    }
}

/// Gives a name a definition in a binding table, replacing the first binding
/// that already carries this name so that names stay unique.
pub fn term_insert(
    terms: &mut Vec<(String, JsonLdTermDefinition)>,
    name: String,
    def: JsonLdTermDefinition,
)
    ensures
        terms_view(final(terms)@) == terms_with_binding(terms_view(old(terms)@), name@, def@),
{
    let n = terms.len();
    let mut found: usize = n;
    let mut i: usize = 0;
    while i < n
        invariant_except_break
            found == n,
        invariant
            n == terms@.len(),
            i <= n,
            forall|j: int| 0 <= j < i ==> terms@[j].0@ != name@,
        ensures
            found <= n,
            found < n ==> terms@[found as int].0@ == name@,
            forall|j: int| 0 <= j < found ==> terms@[j].0@ != name@,
        decreases n - i,
    {
        if string_eq(terms[i].0.as_str(), name.as_str()) {
            found = i;
            break;
        }
        i = i + 1;
    }
    let ghost pre = terms_view(terms@);
    if found < n {
        proof {
            assert(pre[found as int].0 == name@);
            assert(forall|j: int| 0 <= j < found ==> (#[trigger] pre[j]).0 != name@);
            lemma_terms_with_binding_replaces(pre, name@, def@, found as int);
        }
        terms.set(found, (name, def));
        proof {
            assert(terms_view(terms@) =~= pre.update(found as int, (name@, def@)));
        }
    } else {
        proof {
            assert(forall|j: int| 0 <= j < pre.len() ==> (#[trigger] pre[j]).0 != name@);
            lemma_terms_with_binding_appends(pre, name@, def@);
        }
        terms.push((name, def));
        proof {
            assert(terms_view(terms@) =~= pre.push((name@, def@)));
        }
    }
}

/// The models of a diagnostics buffer, entry for entry.
pub open spec fn diags_view(diags: Seq<JsonLdSyntaxError>) -> Seq<JsonLdSyntaxErrorV> {
    Seq::new(diags.len(), |i: int| diags[i]@)
}

/// A diagnostic model.
pub open spec fn diag(message: Seq<char>, code: Option<JsonLdErrorCode>) -> JsonLdSyntaxErrorV {
    JsonLdSyntaxErrorV { message, code }
}

/// What a context processing step yields: the updated context and the
/// diagnostics it appends, in order.
pub struct ContextOutcome {
    pub context: JsonLdContextV,
    pub diags: Seq<JsonLdSyntaxErrorV>,
}

/// Whether a character is an RFC 3986 gen-delim; a term whose IRI mapping
/// ends in one may be used as a compact-IRI prefix.
pub open spec fn spec_is_gen_delim(c: char) -> bool {
    c == ':' || c == '/' || c == '?' || c == '#' || c == '[' || c == ']' || c == '@'
}

/// Whether a string ends in a gen-delim character.
pub open spec fn spec_ends_gen_delim(s: Seq<char>) -> bool {
    s.len() > 0 && spec_is_gen_delim(s[s.len() - 1])
}

/// Whether `s` ends in a gen-delim character.
pub fn ends_gen_delim(s: &str) -> (r: bool)
    ensures
        r == spec_ends_gen_delim(s@),
{
    let n = s.unicode_len();
    if n == 0 {
        return false;
    }
    let c = s.get_char(n - 1);
    c == ':' || c == '/' || c == '?' || c == '#' || c == '[' || c == ']' || c == '@'
}

/// The diagnostics that nullifying a context emits: one per protected term,
/// in table order.
pub open spec fn spec_nullification_diags(
    terms: Seq<(Seq<char>, JsonLdTermDefinitionV)>,
) -> Seq<JsonLdSyntaxErrorV>
    decreases terms.len(),
{
    if terms.len() == 0 {
        Seq::empty()
    } else {
        let rest = spec_nullification_diags(terms.subrange(1, terms.len() as int));
        if terms[0].1.protected {
            seq![
                diag(
                    "Definition of "@ + terms[0].0
                        + " will be overridden even if it's protected"@,
                    Some(JsonLdErrorCode::InvalidContextNullification),
                ),
            ] + rest
        } else {
            rest
        }
    }
}

/// What one recognised entry of an object-form local context does to the
/// context under construction, and which diagnostics it emits.
pub open spec fn spec_process_entry(
    result: JsonLdContextV,
    key: Seq<char>,
    value: JsonNodeV,
    remote_empty: bool,
    processing_mode: JsonLdProcessingMode,
    lenient: bool,
) -> ContextOutcome {
    if key == "@version"@ {
        let value_diags = match value {
            JsonNodeV::Number(n) => if n != "1.1"@ {
                seq![
                    diag(
                        "The only supported @version value is 1.1, found "@ + n,
                        Some(JsonLdErrorCode::InvalidVersionValue),
                    ),
                ]
            } else {
                Seq::empty()
            },
            _ => seq![
                diag(
                    "@version value must be a number"@,
                    Some(JsonLdErrorCode::InvalidVersionValue),
                ),
            ],
        };
        let mode_diags = if processing_mode == JsonLdProcessingMode::JsonLd1_0 {
            seq![
                diag(
                    "@version is only supported in JSON-LD 1.1"@,
                    Some(JsonLdErrorCode::ProcessingModeConflict),
                ),
            ]
        } else {
            Seq::empty()
        };
        ContextOutcome { context: result, diags: value_diags + mode_diags }
    } else if key == "@import"@ {
        let mode_diags = if processing_mode == JsonLdProcessingMode::JsonLd1_0 {
            seq![
                diag(
                    "@import is only supported in JSON-LD 1.1"@,
                    Some(JsonLdErrorCode::InvalidContextEntry),
                ),
            ]
        } else {
            Seq::empty()
        };
        ContextOutcome {
            context: result,
            diags: mode_diags + seq![diag("@import is not supported"@, None)],
        }
    } else if key == "@base"@ {
        if !remote_empty {
            ContextOutcome { context: result, diags: Seq::empty() }
        } else {
            match value {
                JsonNodeV::Null => ContextOutcome {
                    context: JsonLdContextV { base_iri: None, ..result },
                    diags: Seq::empty(),
                },
                JsonNodeV::String(s) => if lenient {
                    let new_base = match result.base_iri {
                        Some(b) => iri_resolution_unchecked(b, s),
                        None => s,
                    };
                    ContextOutcome {
                        context: JsonLdContextV { base_iri: Some(new_base), ..result },
                        diags: Seq::empty(),
                    }
                } else {
                    let resolved = match result.base_iri {
                        Some(b) => iri_resolution(b, s),
                        None => if iri_valid(s) {
                            Some(s)
                        } else {
                            None
                        },
                    };
                    match resolved {
                        Some(r) => ContextOutcome {
                            context: JsonLdContextV { base_iri: Some(r), ..result },
                            diags: Seq::empty(),
                        },
                        None => ContextOutcome {
                            context: result,
                            diags: seq![
                                diag(
                                    "Invalid @base '"@ + s + "'"@,
                                    Some(JsonLdErrorCode::InvalidBaseIri),
                                ),
                            ],
                        },
                    }
                },
                _ => ContextOutcome {
                    context: result,
                    diags: seq![
                        diag(
                            "@base value must be a string"@,
                            Some(JsonLdErrorCode::InvalidBaseIri),
                        ),
                    ],
                },
            }
        }
    } else if key == "@vocab"@ {
        match value {
            JsonNodeV::Null => ContextOutcome {
                context: JsonLdContextV { vocabulary_mapping: None, ..result },
                diags: Seq::empty(),
            },
            JsonNodeV::String(s) => if crate::text::spec_starts_with(s, "_:"@) || lenient
                || iri_valid(s) {
                ContextOutcome {
                    context: JsonLdContextV { vocabulary_mapping: Some(s), ..result },
                    diags: Seq::empty(),
                }
            } else {
                ContextOutcome {
                    context: result,
                    diags: seq![
                        diag(
                            "Invalid @vocab '"@ + s + "'"@,
                            Some(JsonLdErrorCode::InvalidVocabMapping),
                        ),
                    ],
                }
            },
            _ => ContextOutcome {
                context: result,
                diags: seq![
                    diag(
                        "@vocab value must be a string"@,
                        Some(JsonLdErrorCode::InvalidVocabMapping),
                    ),
                ],
            },
        }
    } else if key == "@language"@ {
        ContextOutcome {
            context: result,
            diags: seq![diag("the @language context entry is not supported"@, None)],
        }
    } else if key == "@direction"@ {
        ContextOutcome {
            context: result,
            diags: seq![diag("the @direction context entry is not supported"@, None)],
        }
    } else if key == "@propagate"@ || key == "@protected"@ {
        ContextOutcome { context: result, diags: Seq::empty() }
    } else if crate::text::spec_starts_with(key, "@"@) {
        ContextOutcome {
            context: result,
            diags: seq![diag("unsupported context entry: "@ + key, None)],
        }
    } else {
        match value {
            JsonNodeV::Null => ContextOutcome {
                context: JsonLdContextV {
                    term_definitions: terms_with_binding(
                        result.term_definitions,
                        key,
                        JsonLdTermDefinitionV { iri_mapping: None, prefix: false, protected: false },
                    ),
                    ..result
                },
                diags: Seq::empty(),
            },
            JsonNodeV::String(s) => ContextOutcome {
                context: JsonLdContextV {
                    term_definitions: terms_with_binding(
                        result.term_definitions,
                        key,
                        JsonLdTermDefinitionV {
                            iri_mapping: Some(s),
                            prefix: spec_ends_gen_delim(s),
                            protected: false,
                        },
                    ),
                    ..result
                },
                diags: Seq::empty(),
            },
            _ => ContextOutcome {
                context: result,
                diags: seq![
                    diag(
                        "the definition of term "@ + key + " must be a string or null"@,
                        None,
                    ),
                ],
            },
        }
    }
}

/// The entries of an object-form local context, folded left to right.
pub open spec fn spec_process_entries(
    result: JsonLdContextV,
    entries: Seq<(Seq<char>, JsonNodeV)>,
    remote_empty: bool,
    processing_mode: JsonLdProcessingMode,
    lenient: bool,
) -> ContextOutcome
    decreases entries.len(),
{
    if entries.len() == 0 {
        ContextOutcome { context: result, diags: Seq::empty() }
    } else {
        let first = spec_process_entry(
            result,
            entries[0].0,
            entries[0].1,
            remote_empty,
            processing_mode,
            lenient,
        );
        let rest = spec_process_entries(
            first.context,
            entries.subrange(1, entries.len() as int),
            remote_empty,
            processing_mode,
            lenient,
        );
        ContextOutcome { context: rest.context, diags: first.diags + rest.diags }
    }
}

/// What one element of a (normalised) local context does to the context under
/// construction.
pub open spec fn spec_process_element(
    active: JsonLdContextV,
    result: JsonLdContextV,
    element: JsonNodeV,
    remote_empty: bool,
    override_protected: bool,
    processing_mode: JsonLdProcessingMode,
    lenient: bool,
) -> ContextOutcome {
    match element {
        JsonNodeV::Null => ContextOutcome {
            context: spec_new_empty(active.original_base_url),
            diags: if !override_protected {
                spec_nullification_diags(active.term_definitions)
            } else {
                Seq::empty()
            },
        },
        JsonNodeV::String(_) => ContextOutcome {
            context: result,
            diags: seq![diag("remote contexts are not supported"@, None)],
        },
        JsonNodeV::Object(entries) => spec_process_entries(
            result,
            entries,
            remote_empty,
            processing_mode,
            lenient,
        ),
        _ => ContextOutcome {
            context: result,
            diags: seq![
                diag(
                    "@context value must be null, a string or an object"@,
                    Some(JsonLdErrorCode::InvalidLocalContext),
                ),
            ],
        },
    }
}

/// The elements of a local context, folded left to right.
pub open spec fn spec_process_elements(
    active: JsonLdContextV,
    result: JsonLdContextV,
    elements: Seq<JsonNodeV>,
    remote_empty: bool,
    override_protected: bool,
    processing_mode: JsonLdProcessingMode,
    lenient: bool,
) -> ContextOutcome
    decreases elements.len(),
{
    if elements.len() == 0 {
        ContextOutcome { context: result, diags: Seq::empty() }
    } else {
        let first = spec_process_element(
            active,
            result,
            elements[0],
            remote_empty,
            override_protected,
            processing_mode,
            lenient,
        );
        let rest = spec_process_elements(
            active,
            first.context,
            elements.subrange(1, elements.len() as int),
            remote_empty,
            override_protected,
            processing_mode,
            lenient,
        );
        ContextOutcome { context: rest.context, diags: first.diags + rest.diags }
    }
}

/// The W3C Context Processing Algorithm, modelled end to end: the updated
/// active context and the diagnostics emitted, in order.
pub open spec fn spec_process_context(
    active: JsonLdContextV,
    local: JsonNodeV,
    remote_empty: bool,
    override_protected: bool,
    propagate: bool,
    processing_mode: JsonLdProcessingMode,
    lenient: bool,
) -> ContextOutcome {
    let flag_diags = match local {
        JsonNodeV::Object(entries) => match member_lookup(entries, "@propagate"@) {
            Some(JsonNodeV::Boolean(_)) => Seq::<JsonLdSyntaxErrorV>::empty(),
            Some(_) => seq![diag("@propagate value must be a boolean"@, None)],
            None => Seq::empty(),
        },
        _ => Seq::empty(),
    };
    let effective_propagate = match local {
        JsonNodeV::Object(entries) => match member_lookup(entries, "@propagate"@) {
            Some(JsonNodeV::Boolean(b)) => b,
            _ => propagate,
        },
        _ => propagate,
    };
    let result0 = if !effective_propagate && active.previous_context is None {
        JsonLdContextV { previous_context: Some(Box::new(active)), ..active }
    } else {
        active
    };
    let elements = match local {
        JsonNodeV::Array(items) => items,
        _ => seq![local],
    };
    let out = spec_process_elements(
        active,
        result0,
        elements,
        remote_empty,
        override_protected,
        processing_mode,
        lenient,
    );
    ContextOutcome { context: out.context, diags: flag_diags + out.diags }
}

/// Applies one recognised entry of an object-form local context to the
/// context under construction.
fn process_entry(
    result: &mut JsonLdContext,
    key: &str,
    value: &JsonNode,
    remote_empty: bool,
    processing_mode: JsonLdProcessingMode,
    lenient: bool,
    errors: &mut Vec<JsonLdSyntaxError>,
)
    ensures
        ({
            let out = spec_process_entry(
                old(result)@,
                key@,
                value@,
                remote_empty,
                processing_mode,
                lenient,
            );
            final(result)@ == out.context && diags_view(final(errors)@) == diags_view(
                old(errors)@,
            ) + out.diags
        }),
{
    let ghost pre_errors = diags_view(errors@);
    if string_eq(key, "@version") {
        match value {
            JsonNode::Number(n) => {
                if !string_eq(n.as_str(), "1.1") {
                    errors.push(
                        JsonLdSyntaxError::msg_and_code(
                            str_concat("The only supported @version value is 1.1, found ", n.as_str()).as_str(),
                            JsonLdErrorCode::InvalidVersionValue,
                        ),
                    );
                }
            },
            _ => {
                errors.push(
                    JsonLdSyntaxError::msg_and_code(
                        "@version value must be a number",
                        JsonLdErrorCode::InvalidVersionValue,
                    ),
                );
            },
        }
        if processing_mode == JsonLdProcessingMode::JsonLd1_0 {
            errors.push(
                JsonLdSyntaxError::msg_and_code(
                    "@version is only supported in JSON-LD 1.1",
                    JsonLdErrorCode::ProcessingModeConflict,
                ),
            );
        }
        proof {
            assert(diags_view(errors@) =~= pre_errors + spec_process_entry(
                old(result)@,
                key@,
                value@,
                remote_empty,
                processing_mode,
                lenient,
            ).diags);
        }
    } else if string_eq(key, "@import") {
        if processing_mode == JsonLdProcessingMode::JsonLd1_0 {
            errors.push(
                JsonLdSyntaxError::msg_and_code(
                    "@import is only supported in JSON-LD 1.1",
                    JsonLdErrorCode::InvalidContextEntry,
                ),
            );
        }
        errors.push(JsonLdSyntaxError::msg("@import is not supported"));
        proof {
            assert(diags_view(errors@) =~= pre_errors + spec_process_entry(
                old(result)@,
                key@,
                value@,
                remote_empty,
                processing_mode,
                lenient,
            ).diags);
        }
    } else if string_eq(key, "@base") {
        if remote_empty {
            match value {
                JsonNode::Null => {
                    result.base_iri = None;
                },
                JsonNode::String(s) => {
                    if lenient {
                        let new_base = match &result.base_iri {
                            Some(b) => iri_resolve_unchecked(b.as_str(), s.as_str()),
                            None => s.clone(),
                        };
                        result.base_iri = Some(new_base);
                    } else {
                        let resolved = match &result.base_iri {
                            Some(b) => iri_resolve(b.as_str(), s.as_str()),
                            None => if iri_is_absolute(s.as_str()) {
                                Some(s.clone())
                            } else {
                                None
                            },
                        };
                        match resolved {
                            Some(r) => {
                                result.base_iri = Some(r);
                            },
                            None => {
                                errors.push(
                                    JsonLdSyntaxError::msg_and_code(
                                        str_concat(
                                            str_concat("Invalid @base '", s.as_str()).as_str(),
                                            "'",
                                        ).as_str(),
                                        JsonLdErrorCode::InvalidBaseIri,
                                    ),
                                );
                            },
                        }
                    }
                },
                _ => {
                    errors.push(
                        JsonLdSyntaxError::msg_and_code(
                            "@base value must be a string",
                            JsonLdErrorCode::InvalidBaseIri,
                        ),
                    );
                },
            }
        }
        proof {
            assert(diags_view(errors@) =~= pre_errors + spec_process_entry(
                old(result)@,
                key@,
                value@,
                remote_empty,
                processing_mode,
                lenient,
            ).diags);
        }
    } else if string_eq(key, "@vocab") {
        match value {
            JsonNode::Null => {
                result.vocabulary_mapping = None;
            },
            JsonNode::String(s) => {
                if starts_with(s.as_str(), "_:") || lenient || iri_is_absolute(s.as_str()) {
                    result.vocabulary_mapping = Some(s.clone());
                } else {
                    errors.push(
                        JsonLdSyntaxError::msg_and_code(
                            str_concat(
                                str_concat("Invalid @vocab '", s.as_str()).as_str(),
                                "'",
                            ).as_str(),
                            JsonLdErrorCode::InvalidVocabMapping,
                        ),
                    );
                }
            },
            _ => {
                errors.push(
                    JsonLdSyntaxError::msg_and_code(
                        "@vocab value must be a string",
                        JsonLdErrorCode::InvalidVocabMapping,
                    ),
                );
            },
        }
        proof {
            assert(diags_view(errors@) =~= pre_errors + spec_process_entry(
                old(result)@,
                key@,
                value@,
                remote_empty,
                processing_mode,
                lenient,
            ).diags);
        }
    } else if string_eq(key, "@language") {
        errors.push(JsonLdSyntaxError::msg("the @language context entry is not supported"));
        proof {
            assert(diags_view(errors@) =~= pre_errors + spec_process_entry(
                old(result)@,
                key@,
                value@,
                remote_empty,
                processing_mode,
                lenient,
            ).diags);
        }
    } else if string_eq(key, "@direction") {
        errors.push(JsonLdSyntaxError::msg("the @direction context entry is not supported"));
        proof {
            assert(diags_view(errors@) =~= pre_errors + spec_process_entry(
                old(result)@,
                key@,
                value@,
                remote_empty,
                processing_mode,
                lenient,
            ).diags);
        }
    } else if string_eq(key, "@propagate") || string_eq(key, "@protected") {
        proof {
            assert(diags_view(errors@) =~= pre_errors);
        }
    } else if starts_with(key, "@") {
        errors.push(
            JsonLdSyntaxError::msg(str_concat("unsupported context entry: ", key).as_str()),
        );
        proof {
            assert(diags_view(errors@) =~= pre_errors + spec_process_entry(
                old(result)@,
                key@,
                value@,
                remote_empty,
                processing_mode,
                lenient,
            ).diags);
        }
    } else {
        match value {
            JsonNode::Null => {
                term_insert(
                    &mut result.term_definitions,
                    key.to_owned(),
                    JsonLdTermDefinition { iri_mapping: None, prefix: false, protected: false },
                );
            },
            JsonNode::String(s) => {
                let prefix = ends_gen_delim(s.as_str());
                term_insert(
                    &mut result.term_definitions,
                    key.to_owned(),
                    JsonLdTermDefinition {
                        iri_mapping: Some(s.clone()),
                        prefix,
                        protected: false,
                    },
                );
            },
            _ => {
                errors.push(
                    JsonLdSyntaxError::msg(
                        str_concat(
                            str_concat("the definition of term ", key).as_str(),
                            " must be a string or null",
                        ).as_str(),
                    ),
                );
            },
        }
        proof {
            assert(diags_view(errors@) =~= pre_errors + spec_process_entry(
                old(result)@,
                key@,
                value@,
                remote_empty,
                processing_mode,
                lenient,
            ).diags);
        }
    }
}

/// Applies one element of a normalised local context to the context under
/// construction.
fn process_element(
    active: &JsonLdContext,
    result: &mut JsonLdContext,
    element: &JsonNode,
    remote_empty: bool,
    override_protected: bool,
    processing_mode: JsonLdProcessingMode,
    lenient: bool,
    errors: &mut Vec<JsonLdSyntaxError>,
)
    ensures
        ({
            let out = spec_process_element(
                active@,
                old(result)@,
                element@,
                remote_empty,
                override_protected,
                processing_mode,
                lenient,
            );
            final(result)@ == out.context && diags_view(final(errors)@) == diags_view(
                old(errors)@,
            ) + out.diags
        }),
{
    let ghost pre_errors = diags_view(errors@);
    match element {
        JsonNode::Null => {
            if !override_protected {
                let ghost full = terms_view(active.term_definitions@);
                let n = active.term_definitions.len();
                let mut i: usize = 0;
                proof {
                    assert(full.subrange(0, full.len() as int) =~= full);
                }
                while i < n
                    invariant
                        i <= n,
                        n == active.term_definitions@.len(),
                        full == terms_view(active.term_definitions@),
                        spec_nullification_diags(full) =~= diags_view(errors@).skip(pre_errors.len() as int)
                            + spec_nullification_diags(
                            full.subrange(i as int, full.len() as int),
                        ),
                        diags_view(errors@).len() >= pre_errors.len(),
                        diags_view(errors@).subrange(0, pre_errors.len() as int) =~= pre_errors,
                    decreases n - i,
                {
                    let ghost rest = full.subrange(i as int, full.len() as int);
                    proof {
                        assert(rest[0] == full[i as int]);
                        assert(rest.subrange(1, rest.len() as int) =~= full.subrange(
                            i + 1,
                            full.len() as int,
                        ));
                    }
                    let (name, def) = &active.term_definitions[i];
                    if def.protected {
                        errors.push(
                            JsonLdSyntaxError::msg_and_code(
                                str_concat(
                                    str_concat("Definition of ", name.as_str()).as_str(),
                                    " will be overridden even if it's protected",
                                ).as_str(),
                                JsonLdErrorCode::InvalidContextNullification,
                            ),
                        );
                    }
                    i = i + 1;
                }
                proof {
                    assert(full.subrange(n as int, full.len() as int)
                        =~= Seq::<(Seq<char>, JsonLdTermDefinitionV)>::empty());
                    assert(diags_view(errors@) =~= pre_errors + spec_nullification_diags(full));
                }
            }
            *result = JsonLdContext::new_empty(clone_opt_string(&active.original_base_url));
        },
        JsonNode::String(_) => {
            errors.push(JsonLdSyntaxError::msg("remote contexts are not supported"));
            proof {
                assert(diags_view(errors@) =~= pre_errors + seq![
                    diag("remote contexts are not supported"@, None),
                ]);
            }
        },
        JsonNode::Object(entries) => {
            let ghost full = entries_view(entries@);
            let ghost result0 = result@;
            let n = entries.len();
            let mut i: usize = 0;
            proof {
                broadcast use crate::json::lemma_entries_view_index;

                assert(full.subrange(0, full.len() as int) =~= full);
            }
            while i < n
                invariant
                    i <= n,
                    n == entries@.len(),
                    full == entries_view(entries@),
                    full.len() == n,
                    ({
                        let total = spec_process_entries(
                            result0,
                            full,
                            remote_empty,
                            processing_mode,
                            lenient,
                        );
                        let cont = spec_process_entries(
                            result@,
                            full.subrange(i as int, full.len() as int),
                            remote_empty,
                            processing_mode,
                            lenient,
                        );
                        total.context == cont.context && total.diags =~= diags_view(errors@).skip(pre_errors.len() as int) + cont.diags
                    }),
                    diags_view(errors@).len() >= pre_errors.len(),
                    diags_view(errors@).subrange(0, pre_errors.len() as int) =~= pre_errors,
                decreases n - i,
            {
                let ghost rest = full.subrange(i as int, full.len() as int);
                proof {
                    broadcast use crate::json::lemma_entries_view_index;

                    assert(rest[0] == full[i as int]);
                    assert(rest[0] == (entries@[i as int].0@, entries@[i as int].1@));
                    assert(rest.subrange(1, rest.len() as int) =~= full.subrange(
                        i + 1,
                        full.len() as int,
                    ));
                }
                let (key, value) = &entries[i];
                process_entry(
                    result,
                    key.as_str(),
                    value,
                    remote_empty,
                    processing_mode,
                    lenient,
                    errors,
                );
                i = i + 1;
            }
            proof {
                assert(full.subrange(n as int, full.len() as int)
                    =~= Seq::<(Seq<char>, JsonNodeV)>::empty());
                let total = spec_process_entries(
                    result0,
                    full,
                    remote_empty,
                    processing_mode,
                    lenient,
                );
                assert(diags_view(errors@) =~= pre_errors + total.diags);
            }
        },
        _ => {
            errors.push(
                JsonLdSyntaxError::msg_and_code(
                    "@context value must be null, a string or an object",
                    JsonLdErrorCode::InvalidLocalContext,
                ),
            );
            proof {
                assert(diags_view(errors@) =~= pre_errors + seq![
                    diag(
                        "@context value must be null, a string or an object"@,
                        Some(JsonLdErrorCode::InvalidLocalContext),
                    ),
                ]);
            }
        },
    }
}

/// The W3C Context Processing Algorithm: folds a local context expression
/// into the active context and appends a diagnostic for every violation. The
/// processor never fails hard.
pub fn process_context(
    active_context: &JsonLdContext,
    local_context: JsonNode,
    base_url: Option<String>,
    remote_contexts: Vec<String>,
    override_protected: bool,
    propagate: bool,
    processing_mode: JsonLdProcessingMode,
    lenient: bool,
    errors: &mut Vec<JsonLdSyntaxError>,
) -> (result: JsonLdContext)
    ensures
        ({
            let out = spec_process_context(
                active_context@,
                local_context@,
                remote_contexts@.len() == 0,
                override_protected,
                propagate,
                processing_mode,
                lenient,
            );
            result@ == out.context && diags_view(final(errors)@) == diags_view(
                old(errors)@,
            ) + out.diags
        }),
{
    let ghost pre_errors = diags_view(errors@);
    let remote_empty = remote_contexts.is_empty();
    let mut effective_propagate = propagate;
    if let JsonNode::Object(entries) = &local_context {
        match object_get(entries, "@propagate") {
            Some(JsonNode::Boolean(b)) => {
                effective_propagate = *b;
            },
            Some(_) => {
                errors.push(JsonLdSyntaxError::msg("@propagate value must be a boolean"));
                proof {
                    assert(diags_view(errors@) =~= pre_errors + seq![
                        diag("@propagate value must be a boolean"@, None),
                    ]);
                }
            },
            None => {},
        }
    }
    let mut result = active_context.clone();
    if !effective_propagate && result.previous_context.is_none() {
        result.previous_context = Some(Box::new(active_context.clone()));
    }
    let ghost flag_errors = diags_view(errors@);
    let ghost result0 = result@;
    let elements: Vec<JsonNode> = match local_context {
        JsonNode::Array(items) => items,
        other => vec![other],
    };
    let ghost elems = crate::json::nodes_view(elements@);
    proof {
        broadcast use crate::json::lemma_nodes_view_index;

        if local_context@ is Array {
            assert(elems =~= local_context@->Array_0);
        } else {
            assert(elems =~= seq![local_context@]);
        }
        assert(elems.subrange(0, elems.len() as int) =~= elems);
    }
    let n = elements.len();
    let mut i: usize = 0;
    while i < n
        invariant
            i <= n,
            n == elements@.len(),
            elems == crate::json::nodes_view(elements@),
            elems.len() == n,
            ({
                let total = spec_process_elements(
                    active_context@,
                    result0,
                    elems,
                    remote_empty,
                    override_protected,
                    processing_mode,
                    lenient,
                );
                let cont = spec_process_elements(
                    active_context@,
                    result@,
                    elems.subrange(i as int, elems.len() as int),
                    remote_empty,
                    override_protected,
                    processing_mode,
                    lenient,
                );
                total.context == cont.context && total.diags =~= diags_view(errors@).skip(flag_errors.len() as int) + cont.diags
            }),
            diags_view(errors@).len() >= flag_errors.len(),
            diags_view(errors@).subrange(0, flag_errors.len() as int) =~= flag_errors,
        decreases n - i,
    {
        let ghost rest = elems.subrange(i as int, elems.len() as int);
        proof {
            broadcast use crate::json::lemma_nodes_view_index;

            assert(rest[0] == elems[i as int]);
            assert(rest[0] == elements@[i as int]@);
            assert(rest.subrange(1, rest.len() as int) =~= elems.subrange(
                i + 1,
                elems.len() as int,
            ));
        }
        process_element(
            active_context,
            &mut result,
            &elements[i],
            remote_empty,
            override_protected,
            processing_mode,
            lenient,
            errors,
        );
        i = i + 1;
    }
    proof {
        assert(elems.subrange(n as int, elems.len() as int) =~= Seq::<JsonNodeV>::empty());
        let out = spec_process_context(
            active_context@,
            local_context@,
            remote_contexts@.len() == 0,
            override_protected,
            propagate,
            processing_mode,
            lenient,
        );
        let total = spec_process_elements(
            active_context@,
            result0,
            elems,
            remote_empty,
            override_protected,
            processing_mode,
            lenient,
        );
        let fd = flag_errors.skip(pre_errors.len() as int);
        assert(flag_errors =~= pre_errors + fd);
        let fin = diags_view(errors@);
        assert(total.diags =~= fin.skip(flag_errors.len() as int));
        assert(fin =~= flag_errors + fin.skip(flag_errors.len() as int));
        assert(fin =~= pre_errors + (fd + total.diags));
        assert(out.diags == fd + total.diags);
        assert(diags_view(errors@) =~= pre_errors + out.diags);
    }
    result
}

/// Nullification law: processing a `null` local context against any starting
/// context yields the empty context rooted at the starting context's original
/// base URL, whatever the flags and mode.
pub proof fn lemma_null_context_idempotent(
    active: JsonLdContextV,
    remote_empty: bool,
    override_protected: bool,
    propagate: bool,
    processing_mode: JsonLdProcessingMode,
    lenient: bool,
)
    ensures
        spec_process_context(
            active,
            JsonNodeV::Null,
            remote_empty,
            override_protected,
            propagate,
            processing_mode,
            lenient,
        ).context == spec_new_empty(active.original_base_url),
        spec_process_context(
            active,
            JsonNodeV::Null,
            remote_empty,
            override_protected,
            propagate,
            processing_mode,
            lenient,
        ).context.original_base_url == active.original_base_url,
{
    let elements = seq![JsonNodeV::Null];
    let result0 = if !propagate && active.previous_context is None {
        JsonLdContextV { previous_context: Some(Box::new(active)), ..active }
    } else {
        active
    };
    let first = spec_process_element(
        active,
        result0,
        elements[0],
        remote_empty,
        override_protected,
        processing_mode,
        lenient,
    );
    assert(first.context == spec_new_empty(active.original_base_url));
    assert(elements.subrange(1, 1) =~= Seq::<JsonNodeV>::empty());
    let rest = spec_process_elements(
        active,
        first.context,
        elements.subrange(1, 1),
        remote_empty,
        override_protected,
        processing_mode,
        lenient,
    );
    assert(rest.context == first.context);
}

} // verus!
