//! The expansion state machine: a push-down converter that consumes one JSON
//! token at a time and emits RDF-oriented events, following the W3C JSON-LD
//! Expansion Algorithm. It owns the state stack and the active-context stack.

use vstd::prelude::*;

use crate::context::{
    diag, diags_view, process_context, spec_new_empty, spec_process_context, term_get,
    term_lookup, JsonLdContext, JsonLdContextV, JsonLdProcessingMode,
};
use crate::diagnostics::{JsonLdErrorCode, JsonLdSyntaxError, JsonLdSyntaxErrorV};
use crate::events::{
    events_view, opt_id_or_keyword_view, strings_view, JsonLdEvent, JsonLdEventV,
    JsonLdIdOrKeyword, JsonLdIdOrKeywordV, JsonLdValue, JsonLdValueV,
};
use crate::iri::{
    iri_is_absolute, iri_resolution, iri_resolution_unchecked, iri_resolve,
    iri_resolve_unchecked, iri_valid, opt_str_view,
};

use crate::json::{object_with_member, JsonEvent, JsonEventV, JsonNode, JsonNodeV};
use crate::text::{
    all_ascii_alpha, chars_from, find_char, spec_all_ascii_alpha, spec_find_char,
    spec_starts_with, starts_with, str_concat, string_eq,
};
use vstd::string::StrSliceExecFns;


verus! {

/// What to do once a buffered JSON subtree is complete.
#[derive(Debug, Clone, Copy, PartialEq, Eq, Structural)]
pub enum JsonLdAfterBuffering {
    Context,
}

/// One state of the push-down automaton. Each variant captures the local
/// variables a recursive formulation would hold on the call stack.
#[derive(Debug)]
pub enum JsonLdExpansionState {
    Element,
    ElementArray,
    ObjectStart { types: Vec<String>, id: Option<String> },
    ObjectType { types: Vec<String>, id: Option<String> },
    ObjectTypeArray { types: Vec<String>, id: Option<String> },
    ObjectId { types: Vec<String>, id: Option<String>, from_start: bool },
    Object { in_property: bool },
    Value { value_type: Option<String>, value: Option<JsonLdValue>, language: Option<String> },
    ValueValue { value_type: Option<String>, language: Option<String> },
    ValueLanguage { value_type: Option<String>, value: Option<JsonLdValue> },
    ValueType { value: Option<JsonLdValue>, language: Option<String> },
    ToNode {
        stack: Vec<(JsonNode, Option<String>)>,
        current_key: Option<String>,
        end_state: JsonLdAfterBuffering,
    },
    Skip,
    SkipArray,
}

/// Mathematical model of an automaton state.
pub enum StateV {
    Element,
    ElementArray,
    ObjectStart { types: Seq<Seq<char>>, id: Option<Seq<char>> },
    ObjectType { types: Seq<Seq<char>>, id: Option<Seq<char>> },
    ObjectTypeArray { types: Seq<Seq<char>>, id: Option<Seq<char>> },
    ObjectId { types: Seq<Seq<char>>, id: Option<Seq<char>>, from_start: bool },
    Object { in_property: bool },
    Value {
        value_type: Option<Seq<char>>,
        value: Option<JsonLdValueV>,
        language: Option<Seq<char>>,
    },
    ValueValue { value_type: Option<Seq<char>>, language: Option<Seq<char>> },
    ValueLanguage { value_type: Option<Seq<char>>, value: Option<JsonLdValueV> },
    ValueType { value: Option<JsonLdValueV>, language: Option<Seq<char>> },
    ToNode {
        stack: Seq<(JsonNodeV, Option<Seq<char>>)>,
        current_key: Option<Seq<char>>,
        end_state: JsonLdAfterBuffering,
    },
    Skip,
    SkipArray,
}

/// The view of an optional literal value.
pub open spec fn opt_value_view(o: Option<JsonLdValue>) -> Option<JsonLdValueV> {
    match o {
        Some(v) => Some(v@),
        None => None,
    }
}

/// The models of a subtree-buffering stack, entry for entry.
pub open spec fn tonode_stack_view(
    stack: Seq<(JsonNode, Option<String>)>,
) -> Seq<(JsonNodeV, Option<Seq<char>>)> {
    Seq::new(stack.len(), |i: int| (stack[i].0@, opt_str_view(stack[i].1)))
}

impl View for JsonLdExpansionState {
    type V = StateV;

    open spec fn view(&self) -> StateV {
        match self {
            JsonLdExpansionState::Element => StateV::Element,
            JsonLdExpansionState::ElementArray => StateV::ElementArray,
            JsonLdExpansionState::ObjectStart { types, id } => StateV::ObjectStart {
                types: strings_view(types@),
                id: opt_str_view(*id),
            },
            JsonLdExpansionState::ObjectType { types, id } => StateV::ObjectType {
                types: strings_view(types@),
                id: opt_str_view(*id),
            },
            JsonLdExpansionState::ObjectTypeArray { types, id } => StateV::ObjectTypeArray {
                types: strings_view(types@),
                id: opt_str_view(*id),
            },
            JsonLdExpansionState::ObjectId { types, id, from_start } => StateV::ObjectId {
                types: strings_view(types@),
                id: opt_str_view(*id),
                from_start: *from_start,
            },
            JsonLdExpansionState::Object { in_property } => StateV::Object {
                in_property: *in_property,
            },
            JsonLdExpansionState::Value { value_type, value, language } => StateV::Value {
                value_type: opt_str_view(*value_type),
                value: opt_value_view(*value),
                language: opt_str_view(*language),
            },
            JsonLdExpansionState::ValueValue { value_type, language } => StateV::ValueValue {
                value_type: opt_str_view(*value_type),
                language: opt_str_view(*language),
            },
            JsonLdExpansionState::ValueLanguage { value_type, value } => StateV::ValueLanguage {
                value_type: opt_str_view(*value_type),
                value: opt_value_view(*value),
            },
            JsonLdExpansionState::ValueType { value, language } => StateV::ValueType {
                value: opt_value_view(*value),
                language: opt_str_view(*language),
            },
            JsonLdExpansionState::ToNode { stack, current_key, end_state } => StateV::ToNode {
                stack: tonode_stack_view(stack@),
                current_key: opt_str_view(*current_key),
                end_state: *end_state,
            },
            JsonLdExpansionState::Skip => StateV::Skip,
            JsonLdExpansionState::SkipArray => StateV::SkipArray,
        }
    }
}

/// The models of the state stack, state for state.
pub open spec fn states_view(states: Seq<JsonLdExpansionState>) -> Seq<StateV> {
    Seq::new(states.len(), |i: int| states[i]@)
}

/// The models of the context stack, entry for entry.
pub open spec fn contexts_view(
    contexts: Seq<(JsonLdContext, usize)>,
) -> Seq<(JsonLdContextV, nat)> {
    Seq::new(contexts.len(), |i: int| (contexts[i].0@, contexts[i].1 as nat))
}

/// Mathematical model of the converter: the state stack, the context stack
/// with per-entry reference counts, and the two flags.
pub struct ConverterV {
    pub states: Seq<StateV>,
    pub contexts: Seq<(JsonLdContextV, nat)>,
    pub is_end: bool,
    pub lenient: bool,
}

/// How many context-stack units a state owns: one for every state that stands
/// for an open object scope, none for the transparent states.
pub open spec fn state_units(s: StateV) -> nat {
    match s {
        StateV::Element | StateV::ElementArray | StateV::Skip | StateV::SkipArray => 0,
        _ => 1,
    }
}

/// The context-stack units owned by a whole state stack.
pub open spec fn units(states: Seq<StateV>) -> nat
    decreases states.len(),
{
    if states.len() == 0 {
        0
    } else {
        state_units(states[0]) + units(states.subrange(1, states.len() as int))
    }
}

/// The sum of the reference counts of a context stack.
pub open spec fn sum_refcounts(contexts: Seq<(JsonLdContextV, nat)>) -> nat
    decreases contexts.len(),
{
    if contexts.len() == 0 {
        0
    } else {
        contexts[0].1 + sum_refcounts(contexts.subrange(1, contexts.len() as int))
    }
}

/// The structural invariant of the converter. The context stack is never
/// empty, every entry is owned by at least one open scope or by the document
/// itself, and the reference counts account exactly for the document plus
/// every state that owns a scope. The state stack stays within two pushes of
/// the depth cap.
pub open spec fn converter_wf(c: ConverterV) -> bool {
    &&& c.contexts.len() >= 1
    &&& forall|i: int| 0 <= i < c.contexts.len() ==> (#[trigger] c.contexts[i]).1 >= 1
    &&& sum_refcounts(c.contexts) == 1 + units(c.states)
    &&& c.states.len() <= 4098
}

/// Dropping the last state costs its units.
proof fn lemma_units_drop_last(states: Seq<StateV>)
    requires
        states.len() > 0,
    ensures
        units(states) == units(states.drop_last()) + state_units(states.last()),
    decreases states.len(),
{
    if states.len() == 1 {
        assert(states.drop_last() =~= Seq::<StateV>::empty());
        assert(states.subrange(1, states.len() as int) =~= Seq::<StateV>::empty());
        assert(states.last() == states[0]);
    } else {
        lemma_units_drop_last(states.subrange(1, states.len() as int));
        assert(states.subrange(1, states.len() as int).drop_last()
            =~= states.drop_last().subrange(1, states.drop_last().len() as int));
        assert(states.subrange(1, states.len() as int).last() == states.last());
    }
}

/// Appending a state adds its units.
proof fn lemma_units_push(states: Seq<StateV>, s: StateV)
    ensures
        units(states.push(s)) == units(states) + state_units(s),
{
    assert(states.push(s).drop_last() =~= states);
    assert(states.push(s).last() == s);
    lemma_units_drop_last(states.push(s));
}

/// Dropping the last context entry costs its count.
proof fn lemma_sum_drop_last(contexts: Seq<(JsonLdContextV, nat)>)
    requires
        contexts.len() > 0,
    ensures
        sum_refcounts(contexts) == sum_refcounts(contexts.drop_last()) + contexts.last().1,
    decreases contexts.len(),
{
    if contexts.len() == 1 {
        assert(contexts.drop_last() =~= Seq::<(JsonLdContextV, nat)>::empty());
        assert(contexts.subrange(1, contexts.len() as int) =~= Seq::<(JsonLdContextV, nat)>::empty());
        assert(contexts.last() == contexts[0]);
    } else {
        lemma_sum_drop_last(contexts.subrange(1, contexts.len() as int));
        assert(contexts.subrange(1, contexts.len() as int).drop_last()
            =~= contexts.drop_last().subrange(1, contexts.drop_last().len() as int));
        assert(contexts.subrange(1, contexts.len() as int).last() == contexts.last());
    }
}

/// Appending a context entry adds its count.
proof fn lemma_sum_push(contexts: Seq<(JsonLdContextV, nat)>, e: (JsonLdContextV, nat))
    ensures
        sum_refcounts(contexts.push(e)) == sum_refcounts(contexts) + e.1,
{
    assert(contexts.push(e).drop_last() =~= contexts);
    assert(contexts.push(e).last() == e);
    lemma_sum_drop_last(contexts.push(e));
}

/// Every reference count is bounded by the sum.
proof fn lemma_sum_bounds_entry(contexts: Seq<(JsonLdContextV, nat)>, i: int)
    requires
        0 <= i < contexts.len(),
    ensures
        contexts[i].1 <= sum_refcounts(contexts),
    decreases contexts.len(),
{
    if i > 0 {
        lemma_sum_bounds_entry(contexts.subrange(1, contexts.len() as int), i - 1);
    }
}

/// A state stack owns at most one unit per state.
proof fn lemma_units_bound(states: Seq<StateV>)
    ensures
        units(states) <= states.len(),
    decreases states.len(),
{
    if states.len() > 0 {
        lemma_units_bound(states.subrange(1, states.len() as int));
    }
}

/// A context stack whose sum is positive is not empty.
proof fn lemma_sum_positive_nonempty(contexts: Seq<(JsonLdContextV, nat)>)
    requires
        sum_refcounts(contexts) > 0,
    ensures
        contexts.len() > 0,
{
}

/// Applies the W3C Expansion Algorithm, one JSON token at a time.
pub struct JsonLdExpansionConverter {
    state: Vec<JsonLdExpansionState>,
    context: Vec<(JsonLdContext, usize)>,
    is_end: bool,
    lenient: bool,
}

impl View for JsonLdExpansionConverter {
    type V = ConverterV;

    closed spec fn view(&self) -> ConverterV {
        ConverterV {
            states: states_view(self.state@),
            contexts: contexts_view(self.context@),
            is_end: self.is_end,
            lenient: self.lenient,
        }
    }
}

/// What the context stack becomes when an object scope releases its unit:
/// the top entry loses one count and is discarded when nothing owns it any
/// more.
pub open spec fn spec_pop_context(
    contexts: Seq<(JsonLdContextV, nat)>,
) -> Seq<(JsonLdContextV, nat)> {
    if contexts.len() == 0 {
        contexts
    } else if contexts.last().1 > 1 {
        contexts.update(
            contexts.len() - 1,
            (contexts.last().0, (contexts.last().1 - 1) as nat),
        )
    } else {
        contexts.drop_last()
    }
}

impl JsonLdExpansionConverter {
    /// The structural invariant; it holds from construction on and every
    /// token preserves it.
    pub closed spec fn wf(&self) -> bool {
        converter_wf(self@)
    }

    /// A fresh converter: one `Element` state awaiting the document, and one
    /// context entry rooted at the document base IRI, owned once.
    pub fn new(base_url: Option<String>, lenient: bool) -> (r: Self)
        ensures
            r@.states == seq![StateV::Element],
            r@.contexts == seq![(spec_new_empty(opt_str_view(base_url)), 1nat)],
            r@.is_end == false,
            r@.lenient == lenient,
            r.wf(),
    {
        let r = JsonLdExpansionConverter {
            state: vec![JsonLdExpansionState::Element],
            context: vec![(JsonLdContext::new_empty(base_url), 1)],
            is_end: false,
            lenient,
        };
        proof {
            assert(r@.states =~= seq![StateV::Element]);
            assert(r@.contexts =~= seq![(spec_new_empty(opt_str_view(base_url)), 1nat)]);
            assert(r@.states.subrange(1, 1) =~= Seq::<StateV>::empty());
            assert(r@.contexts.subrange(1, 1) =~= Seq::<(JsonLdContextV, nat)>::empty());
            reveal_with_fuel(units, 2);
            reveal_with_fuel(sum_refcounts, 2);
            assert(units(r@.states) == 0);
            assert(sum_refcounts(r@.contexts) == 1);
            assert(forall|i: int| 0 <= i < r@.contexts.len()
                ==> (#[trigger] r@.contexts[i]).1 >= 1);
        }
        r
    }

    /// Whether the final token has been consumed.
    pub fn is_end(&self) -> (r: bool)
        ensures
            r == self@.is_end,
    {
        self.is_end
    }

    /// Whether the context stack is back to a single entry owned once, as it
    /// is after a complete document.
    pub fn context_stack_is_reset(&self) -> (r: bool)
        ensures
            r == (self@.contexts.len() == 1 && self@.contexts[0].1 == 1),
    {
        self.context.len() == 1 && self.context[0].1 == 1
    }

    /// The currently effective active context: the top of the context stack.
    fn current_context(&self) -> (r: &JsonLdContext)
        requires
            self@.contexts.len() >= 1,
        ensures
            r@ == self@.contexts.last().0,
    {
        let n = self.context.len();
        &self.context[n - 1].0
    }

    /// A new object scope shares the top context entry.
    fn push_same_context(&mut self)
        requires
            old(self).wf(),
        ensures
            final(self)@.states == old(self)@.states,
            final(self)@.is_end == old(self)@.is_end,
            final(self)@.lenient == old(self)@.lenient,
            final(self)@.contexts == old(self)@.contexts.update(
                old(self)@.contexts.len() - 1,
                (old(self)@.contexts.last().0, (old(self)@.contexts.last().1 + 1) as nat),
            ),
    {
        proof {
            lemma_units_bound(old(self)@.states);
            lemma_sum_bounds_entry(old(self)@.contexts, old(self)@.contexts.len() - 1);
        }
        if let Some((c, rc)) = self.context.pop() {
            self.context.push((c, rc + 1));
        }
        proof {
            assert(final(self)@.contexts =~= old(self)@.contexts.update(
                old(self)@.contexts.len() - 1,
                (old(self)@.contexts.last().0, (old(self)@.contexts.last().1 + 1) as nat),
            ));
            assert(final(self)@.states =~= old(self)@.states);
        }
    }

    /// A closing object scope releases its unit of the top context entry.
    fn pop_context(&mut self)
        ensures
            final(self)@.states == old(self)@.states,
            final(self)@.is_end == old(self)@.is_end,
            final(self)@.lenient == old(self)@.lenient,
            final(self)@.contexts == spec_pop_context(old(self)@.contexts),
    {
        if let Some((c, rc)) = self.context.pop() {
            if rc > 1 {
                self.context.push((c, rc - 1));
            }
        }
        proof {
            assert(final(self)@.contexts =~= spec_pop_context(old(self)@.contexts));
            assert(final(self)@.states =~= old(self)@.states);
        }
    }
}

/// The reserved JSON-LD keyword names (without their `@`).
pub open spec fn spec_is_reserved_keyword(s: Seq<char>) -> bool {
    ||| s == "base"@
    ||| s == "container"@
    ||| s == "context"@
    ||| s == "direction"@
    ||| s == "graph"@
    ||| s == "id"@
    ||| s == "import"@
    ||| s == "included"@
    ||| s == "index"@
    ||| s == "json"@
    ||| s == "language"@
    ||| s == "list"@
    ||| s == "nest"@
    ||| s == "none"@
    ||| s == "prefix"@
    ||| s == "propagate"@
    ||| s == "protected"@
    ||| s == "reverse"@
    ||| s == "set"@
    ||| s == "type"@
    ||| s == "value"@
    ||| s == "version"@
    ||| s == "vocab"@
}

/// Steps 7 and 8 of IRI expansion: the vocabulary mapping, then resolution
/// against the base IRI, then the string unchanged.
pub open spec fn spec_expand_iri_tail(
    ctx: JsonLdContextV,
    lenient: bool,
    value: Seq<char>,
    document_relative: bool,
    vocab: bool,
) -> Option<JsonLdIdOrKeywordV> {
    if vocab && ctx.vocabulary_mapping is Some {
        Some(JsonLdIdOrKeywordV::Id(ctx.vocabulary_mapping->Some_0 + value))
    } else if document_relative && ctx.base_iri is Some {
        let b = ctx.base_iri->Some_0;
        if lenient {
            Some(JsonLdIdOrKeywordV::Id(iri_resolution_unchecked(b, value)))
        } else {
            match iri_resolution(b, value) {
                Some(v) => Some(JsonLdIdOrKeywordV::Id(iri_resolution_unchecked(b, v))),
                None => Some(JsonLdIdOrKeywordV::Id(value)),
            }
        }
    } else {
        Some(JsonLdIdOrKeywordV::Id(value))
    }
}

/// Steps 2 to 8 of IRI expansion: term definitions, compact IRIs, absolute
/// IRIs, and the tail rules.
pub open spec fn spec_expand_iri_rest(
    ctx: JsonLdContextV,
    lenient: bool,
    value: Seq<char>,
    document_relative: bool,
    vocab: bool,
) -> Option<JsonLdIdOrKeywordV> {
    let term = term_lookup(ctx.term_definitions, value);
    if term is Some && term->Some_0.iri_mapping is Some && term->Some_0.iri_mapping->Some_0.len()
        > 0 && term->Some_0.iri_mapping->Some_0[0] == '@' {
        Some(
            JsonLdIdOrKeywordV::Keyword(
                term->Some_0.iri_mapping->Some_0.skip(1),
            ),
        )
    } else if vocab && term is Some && term->Some_0.iri_mapping is Some {
        Some(JsonLdIdOrKeywordV::Id(term->Some_0.iri_mapping->Some_0))
    } else {
        match spec_find_char(value, ':') {
            Some(i) => {
                let prefix = value.take(i);
                let suffix = value.skip(i + 1);
                if prefix == "_"@ || spec_starts_with(suffix, "//"@) {
                    Some(JsonLdIdOrKeywordV::Id(value))
                } else {
                    let prefix_term = term_lookup(ctx.term_definitions, prefix);
                    if prefix_term is Some && prefix_term->Some_0.iri_mapping is Some
                        && prefix_term->Some_0.prefix {
                        Some(
                            JsonLdIdOrKeywordV::Id(
                                prefix_term->Some_0.iri_mapping->Some_0 + suffix,
                            ),
                        )
                    } else if iri_valid(value) {
                        Some(JsonLdIdOrKeywordV::Id(value))
                    } else {
                        spec_expand_iri_tail(ctx, lenient, value, document_relative, vocab)
                    }
                }
            },
            None => spec_expand_iri_tail(ctx, lenient, value, document_relative, vocab),
        }
    }
}

/// The W3C IRI Expansion subroutine, modelled end to end. A recognised
/// keyword comes back as `Keyword`; a keyword-like string (an `@` followed by
/// ASCII letters only) comes back as nothing and its carrier is dropped;
/// anything else becomes an `Id`.
pub open spec fn spec_expand_iri(
    ctx: JsonLdContextV,
    lenient: bool,
    value: Seq<char>,
    document_relative: bool,
    vocab: bool,
) -> Option<JsonLdIdOrKeywordV> {
    if value.len() > 0 && value[0] == '@' && spec_is_reserved_keyword(value.skip(1)) {
        Some(JsonLdIdOrKeywordV::Keyword(value.skip(1)))
    } else if value.len() > 0 && value[0] == '@' && spec_all_ascii_alpha(value.skip(1)) {
        None
    } else {
        spec_expand_iri_rest(ctx, lenient, value, document_relative, vocab)
    }
}

impl JsonLdExpansionConverter {
    /// The W3C IRI Expansion subroutine against the currently effective
    /// context.
    pub fn expand_iri(&self, value: String, document_relative: bool, vocab: bool) -> (r: Option<
        JsonLdIdOrKeyword,
    >)
        requires
            self@.contexts.len() >= 1,
        ensures
            opt_id_or_keyword_view(r) == spec_expand_iri(
                self@.contexts.last().0,
                self@.lenient,
                value@,
                document_relative,
                vocab,
            ),
    {
        let value_len = value.as_str().unicode_len();
        if value_len > 0 && value.as_str().get_char(0) == '@' {
            let suffix = chars_from(value.as_str(), 1);
            if string_eq(suffix.as_str(), "base") || string_eq(suffix.as_str(), "container")
                || string_eq(suffix.as_str(), "context") || string_eq(suffix.as_str(), "direction")
                || string_eq(suffix.as_str(), "graph") || string_eq(suffix.as_str(), "id")
                || string_eq(suffix.as_str(), "import") || string_eq(suffix.as_str(), "included")
                || string_eq(suffix.as_str(), "index") || string_eq(suffix.as_str(), "json")
                || string_eq(suffix.as_str(), "language") || string_eq(suffix.as_str(), "list")
                || string_eq(suffix.as_str(), "nest") || string_eq(suffix.as_str(), "none")
                || string_eq(suffix.as_str(), "prefix") || string_eq(suffix.as_str(), "propagate")
                || string_eq(suffix.as_str(), "protected") || string_eq(suffix.as_str(), "reverse")
                || string_eq(suffix.as_str(), "set") || string_eq(suffix.as_str(), "type")
                || string_eq(suffix.as_str(), "value") || string_eq(suffix.as_str(), "version")
                || string_eq(suffix.as_str(), "vocab") {
                return Some(JsonLdIdOrKeyword::Keyword(suffix));
            }
            if all_ascii_alpha(suffix.as_str()) {
                return None;
            }
        }
        self.expand_iri_rest(value, document_relative, vocab)
    }

    /// Steps 2 to 8 of IRI expansion.
    fn expand_iri_rest(&self, value: String, document_relative: bool, vocab: bool) -> (r: Option<
        JsonLdIdOrKeyword,
    >)
        requires
            self@.contexts.len() >= 1,
        ensures
            opt_id_or_keyword_view(r) == spec_expand_iri_rest(
                self@.contexts.last().0,
                self@.lenient,
                value@,
                document_relative,
                vocab,
            ),
    {
        let ctx = self.current_context();
        if let Some(term) = term_get(&ctx.term_definitions, value.as_str()) {
            if let Some(iri_mapping) = &term.iri_mapping {
                let m_len = iri_mapping.as_str().unicode_len();
                if m_len > 0 && iri_mapping.as_str().get_char(0) == '@' {
                    return Some(JsonLdIdOrKeyword::Keyword(chars_from(iri_mapping.as_str(), 1)));
                }
                if vocab {
                    return Some(JsonLdIdOrKeyword::Id(iri_mapping.clone()));
                }
            }
        }
        if let Some(colon) = find_char(value.as_str(), ':') {
            let value_len = value.as_str().unicode_len();
            proof {
                crate::text::lemma_find_char(value@, ':');
            }
            let prefix = value.as_str().substring_char(0, colon).to_owned();
            let suffix = chars_from(value.as_str(), colon + 1);
            if string_eq(prefix.as_str(), "_") || starts_with(suffix.as_str(), "//") {
                return Some(JsonLdIdOrKeyword::Id(value));
            }
            if let Some(prefix_term) = term_get(&ctx.term_definitions, prefix.as_str()) {
                if let Some(iri_mapping) = &prefix_term.iri_mapping {
                    if prefix_term.prefix {
                        return Some(
                            JsonLdIdOrKeyword::Id(
                                str_concat(iri_mapping.as_str(), suffix.as_str()),
                            ),
                        );
                    }
                }
            }
            if iri_is_absolute(value.as_str()) {
                return Some(JsonLdIdOrKeyword::Id(value));
            }
        }
        self.expand_iri_tail(value, document_relative, vocab)
    }

    /// Steps 7 and 8 of IRI expansion.
    fn expand_iri_tail(&self, value: String, document_relative: bool, vocab: bool) -> (r: Option<
        JsonLdIdOrKeyword,
    >)
        requires
            self@.contexts.len() >= 1,
        ensures
            opt_id_or_keyword_view(r) == spec_expand_iri_tail(
                self@.contexts.last().0,
                self@.lenient,
                value@,
                document_relative,
                vocab,
            ),
    {
        let ctx = self.current_context();
        if vocab {
            if let Some(vocabulary_mapping) = &ctx.vocabulary_mapping {
                return Some(
                    JsonLdIdOrKeyword::Id(
                        str_concat(vocabulary_mapping.as_str(), value.as_str()),
                    ),
                );
            }
        }
        if document_relative {
            if let Some(base_iri) = &ctx.base_iri {
                if self.lenient {
                    return Some(
                        JsonLdIdOrKeyword::Id(
                            iri_resolve_unchecked(base_iri.as_str(), value.as_str()),
                        ),
                    );
                } else if let Some(v) = iri_resolve(base_iri.as_str(), value.as_str()) {
                    return Some(
                        JsonLdIdOrKeyword::Id(
                            iri_resolve_unchecked(base_iri.as_str(), v.as_str()),
                        ),
                    );
                }
            }
        }
        Some(JsonLdIdOrKeyword::Id(value))
    }
}


/// The events that commit an object: its `StartObject` with the collected
/// types, then its id when one was collected.
pub open spec fn start_object_events(
    types: Seq<Seq<char>>,
    id: Option<Seq<char>>,
) -> Seq<JsonLdEventV> {
    match id {
        Some(i) => seq![JsonLdEventV::StartObject { types }, JsonLdEventV::Id(i)],
        None => seq![JsonLdEventV::StartObject { types }],
    }
}

/// One open scope of the emitted event stream: an object or a property.
pub enum FrameV {
    ObjectScope,
    PropertyScope,
}

/// The scopes a state will close: states that have emitted `StartObject`
/// without its `EndObject` yet owe an object scope, and a property-reading
/// state owes the property scope too.
pub open spec fn state_frames(s: StateV) -> Seq<FrameV> {
    match s {
        StateV::Object { in_property } => if in_property {
            seq![FrameV::ObjectScope, FrameV::PropertyScope]
        } else {
            seq![FrameV::ObjectScope]
        },
        StateV::ObjectId { from_start, .. } => if from_start {
            Seq::empty()
        } else {
            seq![FrameV::ObjectScope]
        },
        _ => Seq::empty(),
    }
}

/// The scopes a whole state stack owes, bottom to top.
pub open spec fn frames_of(states: Seq<StateV>) -> Seq<FrameV>
    decreases states.len(),
{
    if states.len() == 0 {
        Seq::empty()
    } else {
        frames_of(states.drop_last()) + state_frames(states.last())
    }
}

/// How one emitted event changes the open scopes; `None` marks an event that
/// would close a scope out of order.
pub open spec fn apply_event_frame(stk: Seq<FrameV>, e: JsonLdEventV) -> Option<Seq<FrameV>> {
    match e {
        JsonLdEventV::StartObject { .. } => Some(stk.push(FrameV::ObjectScope)),
        JsonLdEventV::EndObject => if stk.len() > 0 && stk.last() == FrameV::ObjectScope {
            Some(stk.drop_last())
        } else {
            None
        },
        JsonLdEventV::StartProperty(_) => Some(stk.push(FrameV::PropertyScope)),
        JsonLdEventV::EndProperty => if stk.len() > 0 && stk.last() == FrameV::PropertyScope {
            Some(stk.drop_last())
        } else {
            None
        },
        JsonLdEventV::Id(_) => Some(stk),
        JsonLdEventV::Value { .. } => Some(stk),
    }
}

/// How a sequence of emitted events changes the open scopes.
pub open spec fn apply_events_frames(stk: Seq<FrameV>, es: Seq<JsonLdEventV>) -> Option<
    Seq<FrameV>,
>
    decreases es.len(),
{
    if es.len() == 0 {
        Some(stk)
    } else {
        match apply_event_frame(stk, es[0]) {
            Some(s) => apply_events_frames(s, es.subrange(1, es.len() as int)),
            None => None,
        }
    }
}

proof fn lemma_apply0(stk: Seq<FrameV>)
    ensures
        apply_events_frames(stk, Seq::empty()) == Some(stk),
{
}

proof fn lemma_apply1(stk: Seq<FrameV>, e: JsonLdEventV)
    ensures
        apply_events_frames(stk, seq![e]) == apply_event_frame(stk, e),
{
    reveal_with_fuel(apply_events_frames, 2);
    assert(seq![e].subrange(1, 1) =~= Seq::<JsonLdEventV>::empty());
    assert(seq![e][0] == e);
}

proof fn lemma_apply2(stk: Seq<FrameV>, e1: JsonLdEventV, e2: JsonLdEventV)
    ensures
        apply_events_frames(stk, seq![e1, e2]) == match apply_event_frame(stk, e1) {
            Some(s) => apply_event_frame(s, e2),
            None => None,
        },
{
    assert(seq![e1, e2].subrange(1, 2) =~= seq![e2]);
    match apply_event_frame(stk, e1) {
        Some(s) => {
            lemma_apply1(s, e2);
        },
        None => {},
    }
}

proof fn lemma_apply3(stk: Seq<FrameV>, e1: JsonLdEventV, e2: JsonLdEventV, e3: JsonLdEventV)
    ensures
        apply_events_frames(stk, seq![e1, e2, e3]) == match apply_event_frame(stk, e1) {
            Some(s) => match apply_event_frame(s, e2) {
                Some(s2) => apply_event_frame(s2, e3),
                None => None,
            },
            None => None,
        },
{
    assert(seq![e1, e2, e3].subrange(1, 3) =~= seq![e2, e3]);
    match apply_event_frame(stk, e1) {
        Some(s) => {
            lemma_apply2(s, e2, e3);
        },
        None => {},
    }
}

proof fn lemma_frames_push(states: Seq<StateV>, s: StateV)
    ensures
        frames_of(states.push(s)) == frames_of(states) + state_frames(s),
{
    assert(states.push(s).drop_last() =~= states);
    assert(states.push(s).last() == s);
}

proof fn lemma_sum_update_last(contexts: Seq<(JsonLdContextV, nat)>, e: (JsonLdContextV, nat))
    requires
        contexts.len() >= 1,
    ensures
        sum_refcounts(contexts.update(contexts.len() - 1, e)) == sum_refcounts(contexts)
            - contexts.last().1 + e.1,
{
    assert(contexts.update(contexts.len() - 1, e) =~= contexts.drop_last().push(e));
    lemma_sum_drop_last(contexts);
    lemma_sum_push(contexts.drop_last(), e);
}

/// What the context stack's sum becomes when a scope releases its unit.
proof fn lemma_pop_context_sum(contexts: Seq<(JsonLdContextV, nat)>)
    requires
        contexts.len() >= 1,
        forall|i: int| 0 <= i < contexts.len() ==> (#[trigger] contexts[i]).1 >= 1,
    ensures
        sum_refcounts(spec_pop_context(contexts)) == sum_refcounts(contexts) - 1,
        forall|i: int| 0 <= i < spec_pop_context(contexts).len()
            ==> (#[trigger] spec_pop_context(contexts)[i]).1 >= 1,
{
    let post = spec_pop_context(contexts);
    if contexts.last().1 > 1 {
        lemma_sum_update_last(
            contexts,
            (contexts.last().0, (contexts.last().1 - 1) as nat),
        );
        assert(forall|i: int| 0 <= i < post.len() ==> (#[trigger] post[i]).1 >= 1);
    } else {
        lemma_sum_drop_last(contexts);
        assert(contexts.last().1 >= 1);
        assert(forall|i: int| 0 <= i < post.len() ==> post[i] == contexts[i]);
        assert(forall|i: int| 0 <= i < post.len() ==> (#[trigger] post[i]).1 >= 1);
    }
}

/// A context stack accounting for exactly the document is one entry owned
/// once.
proof fn lemma_context_singleton(contexts: Seq<(JsonLdContextV, nat)>)
    requires
        contexts.len() >= 1,
        forall|i: int| 0 <= i < contexts.len() ==> (#[trigger] contexts[i]).1 >= 1,
        sum_refcounts(contexts) == 1,
    ensures
        contexts.len() == 1,
        contexts[0].1 == 1,
{
    if contexts.len() > 1 {
        lemma_sum_drop_last(contexts);
        lemma_sum_bounds_entry(contexts.drop_last(), 0);
        assert(contexts.drop_last()[0] == contexts[0]);
        assert(false);
    }
    reveal_with_fuel(sum_refcounts, 2);
    assert(contexts.subrange(1, 1) =~= Seq::<(JsonLdContextV, nat)>::empty());
}

/// The precondition every state handler gets: the converter holds the popped
/// state's unit besides what its stacks account for.
pub open spec fn handler_pre(c: ConverterV, popped: StateV) -> bool {
    &&& c.contexts.len() >= 1
    &&& forall|i: int| 0 <= i < c.contexts.len() ==> (#[trigger] c.contexts[i]).1 >= 1
    &&& sum_refcounts(c.contexts) == 1 + units(c.states) + state_units(popped)
    &&& c.states.len() <= 4095
}

/// The postcondition every state handler meets: the accounting is restored,
/// the buffers only grow, and the appended events respect the open scopes
/// that the stack owes.
pub open spec fn handler_ok(
    pre: ConverterV,
    popped: StateV,
    post: ConverterV,
    pre_events: Seq<JsonLdEventV>,
    post_events: Seq<JsonLdEventV>,
    pre_errors: Seq<JsonLdSyntaxErrorV>,
    post_errors: Seq<JsonLdSyntaxErrorV>,
) -> bool {
    &&& post.lenient == pre.lenient
    &&& post.is_end == pre.is_end
    &&& post.contexts.len() >= 1
    &&& forall|i: int| 0 <= i < post.contexts.len() ==> (#[trigger] post.contexts[i]).1 >= 1
    &&& sum_refcounts(post.contexts) == 1 + units(post.states)
    &&& post.states.len() <= pre.states.len() + 2
    &&& pre_events.is_prefix_of(post_events)
    &&& pre_errors.is_prefix_of(post_errors)
    &&& apply_events_frames(
        frames_of(pre.states) + state_frames(popped),
        post_events.skip(pre_events.len() as int),
    ) == Some(frames_of(post.states))
}


/// Everything one consumed token determines: the successor stacks and flag,
/// and the events and diagnostics appended for it.
pub struct StepV {
    pub states: Seq<StateV>,
    pub contexts: Seq<(JsonLdContextV, nat)>,
    pub is_end: bool,
    pub events: Seq<JsonLdEventV>,
    pub errors: Seq<JsonLdSyntaxErrorV>,
}

/// Whether a converter step and its buffers came out exactly as a step model
/// says.
pub open spec fn step_post(
    s: StepV,
    pre: ConverterV,
    post: ConverterV,
    pre_events: Seq<JsonLdEventV>,
    post_events: Seq<JsonLdEventV>,
    pre_errors: Seq<JsonLdSyntaxErrorV>,
    post_errors: Seq<JsonLdSyntaxErrorV>,
) -> bool {
    &&& post.states == s.states
    &&& post.contexts == s.contexts
    &&& post.is_end == s.is_end
    &&& post.lenient == pre.lenient
    &&& post_events == pre_events + s.events
    &&& post_errors == pre_errors + s.errors
}

/// A step that only moves the state stack.
pub open spec fn step_states(c: ConverterV, states: Seq<StateV>) -> StepV {
    StepV {
        states,
        contexts: c.contexts,
        is_end: c.is_end,
        events: Seq::empty(),
        errors: Seq::empty(),
    }
}

/// A step that moves the state stack and appends one diagnostic.
pub open spec fn step_states_err(
    c: ConverterV,
    states: Seq<StateV>,
    e: JsonLdSyntaxErrorV,
) -> StepV {
    StepV {
        states,
        contexts: c.contexts,
        is_end: c.is_end,
        events: Seq::empty(),
        errors: seq![e],
    }
}

/// The diagnostic for a token that no well-formed stream sends in the current
/// state; the token is dropped and the state kept.
pub open spec fn malformed_diag() -> JsonLdSyntaxErrorV {
    diag("malformed JSON token stream"@, None)
}

/// What one token does after a `Skip` or `SkipArray` state was popped:
/// subtrees are swallowed with no events.
pub open spec fn spec_step_skip(c: ConverterV, is_array: bool, ev: JsonEventV) -> StepV {
    let arr_states = if is_array {
        c.states.push(StateV::SkipArray)
    } else {
        c.states
    };
    match ev {
        JsonEventV::String(_) => step_states(c, arr_states),
        JsonEventV::Number(_) => step_states(c, arr_states),
        JsonEventV::Boolean(_) => step_states(c, arr_states),
        JsonEventV::Null => step_states(c, arr_states),
        JsonEventV::EndArray => step_states(c, c.states),
        JsonEventV::EndObject => step_states(c, c.states),
        JsonEventV::StartArray => step_states(c, arr_states.push(StateV::SkipArray)),
        JsonEventV::StartObject => step_states(c, arr_states.push(StateV::Skip)),
        JsonEventV::ObjectKey(_) => step_states(
            c,
            c.states.push(StateV::Skip).push(StateV::Skip),
        ),
        JsonEventV::Eof => step_states(c, c.states),
    }
}

/// What one token does after an `Element` or `ElementArray` state was popped:
/// scalars become literal events, arrays flatten, an object opens a scope
/// sharing the top context entry.
pub open spec fn spec_step_element(c: ConverterV, is_array: bool, ev: JsonEventV) -> StepV {
    let arr_states = if is_array {
        c.states.push(StateV::ElementArray)
    } else {
        c.states
    };
    match ev {
        JsonEventV::Null => step_states(c, arr_states),
        JsonEventV::String(s) => StepV {
            states: arr_states,
            contexts: c.contexts,
            is_end: c.is_end,
            events: seq![
                JsonLdEventV::Value {
                    value: JsonLdValueV::String(s),
                    value_type: None,
                    language: None,
                },
            ],
            errors: Seq::empty(),
        },
        JsonEventV::Number(s) => StepV {
            states: arr_states,
            contexts: c.contexts,
            is_end: c.is_end,
            events: seq![
                JsonLdEventV::Value {
                    value: JsonLdValueV::Number(s),
                    value_type: None,
                    language: None,
                },
            ],
            errors: Seq::empty(),
        },
        JsonEventV::Boolean(b) => StepV {
            states: arr_states,
            contexts: c.contexts,
            is_end: c.is_end,
            events: seq![
                JsonLdEventV::Value {
                    value: JsonLdValueV::Boolean(b),
                    value_type: None,
                    language: None,
                },
            ],
            errors: Seq::empty(),
        },
        JsonEventV::StartArray => step_states(c, arr_states.push(StateV::ElementArray)),
        JsonEventV::EndArray => step_states(c, c.states),
        JsonEventV::StartObject => StepV {
            states: arr_states.push(StateV::ObjectStart { types: Seq::empty(), id: None }),
            contexts: c.contexts.update(
                c.contexts.len() - 1,
                (c.contexts.last().0, (c.contexts.last().1 + 1) as nat),
            ),
            is_end: c.is_end,
            events: Seq::empty(),
            errors: Seq::empty(),
        },
        JsonEventV::EndObject => step_states_err(c, arr_states, malformed_diag()),
        JsonEventV::ObjectKey(_) => step_states_err(c, arr_states, malformed_diag()),
        JsonEventV::Eof => step_states(c, c.states),
    }
}


/// What one token does after a `ValueValue` state was popped: the `@value`
/// scalar is recorded, or the offending subtree is skipped.
pub open spec fn spec_step_value_value(
    c: ConverterV,
    value_type: Option<Seq<char>>,
    language: Option<Seq<char>>,
    ev: JsonEventV,
) -> StepV {
    match ev {
        JsonEventV::Null => step_states(
            c,
            c.states.push(StateV::Value { value_type, value: None, language }),
        ),
        JsonEventV::Number(v) => step_states(
            c,
            c.states.push(
                StateV::Value { value_type, value: Some(JsonLdValueV::Number(v)), language },
            ),
        ),
        JsonEventV::Boolean(v) => step_states(
            c,
            c.states.push(
                StateV::Value { value_type, value: Some(JsonLdValueV::Boolean(v)), language },
            ),
        ),
        JsonEventV::String(v) => step_states(
            c,
            c.states.push(
                StateV::Value { value_type, value: Some(JsonLdValueV::String(v)), language },
            ),
        ),
        JsonEventV::StartArray => step_states_err(
            c,
            c.states.push(StateV::Value { value_type, value: None, language }).push(
                StateV::SkipArray,
            ),
            diag(
                "@type cannot contain an array"@,
                Some(JsonLdErrorCode::InvalidValueObjectValue),
            ),
        ),
        JsonEventV::StartObject => step_states_err(
            c,
            c.states.push(StateV::Value { value_type, value: None, language }).push(
                StateV::Skip,
            ),
            diag(
                "@type cannot contain an object"@,
                Some(JsonLdErrorCode::InvalidValueObjectValue),
            ),
        ),
        JsonEventV::Eof => step_states(c, c.states),
        _ => step_states_err(
            c,
            c.states.push(StateV::ValueValue { value_type, language }),
            malformed_diag(),
        ),
    }
}

/// What one token does after a `ValueLanguage` state was popped.
pub open spec fn spec_step_value_language(
    c: ConverterV,
    value_type: Option<Seq<char>>,
    value: Option<JsonLdValueV>,
    ev: JsonEventV,
) -> StepV {
    match ev {
        JsonEventV::String(l) => step_states(
            c,
            c.states.push(StateV::Value { value_type, value, language: Some(l) }),
        ),
        JsonEventV::Null | JsonEventV::Number(_) | JsonEventV::Boolean(_) => step_states_err(
            c,
            c.states.push(StateV::Value { value_type, value, language: None }),
            diag(
                "@language value must be a string"@,
                Some(JsonLdErrorCode::InvalidLanguageTaggedString),
            ),
        ),
        JsonEventV::StartArray => step_states_err(
            c,
            c.states.push(StateV::Value { value_type, value, language: None }).push(
                StateV::SkipArray,
            ),
            diag(
                "@language value must be a string"@,
                Some(JsonLdErrorCode::InvalidLanguageTaggedString),
            ),
        ),
        JsonEventV::StartObject => step_states_err(
            c,
            c.states.push(StateV::Value { value_type, value, language: None }).push(
                StateV::Skip,
            ),
            diag(
                "@language value must be a string"@,
                Some(JsonLdErrorCode::InvalidLanguageTaggedString),
            ),
        ),
        JsonEventV::Eof => step_states(c, c.states),
        _ => step_states_err(
            c,
            c.states.push(StateV::ValueLanguage { value_type, value }),
            malformed_diag(),
        ),
    }
}

/// What one token does after a `ValueType` state was popped.
pub open spec fn spec_step_value_type(
    c: ConverterV,
    value: Option<JsonLdValueV>,
    language: Option<Seq<char>>,
    ev: JsonEventV,
) -> StepV {
    match ev {
        JsonEventV::String(t) => step_states(
            c,
            c.states.push(StateV::Value { value_type: Some(t), value, language }),
        ),
        JsonEventV::Null | JsonEventV::Number(_) | JsonEventV::Boolean(_) => step_states_err(
            c,
            c.states.push(StateV::Value { value_type: None, value, language }),
            diag(
                "@type value must be a string when @value is present"@,
                Some(JsonLdErrorCode::InvalidTypedValue),
            ),
        ),
        JsonEventV::StartArray => step_states_err(
            c,
            c.states.push(StateV::Value { value_type: None, value, language }).push(
                StateV::SkipArray,
            ),
            diag(
                "@language value must be a string"@,
                Some(JsonLdErrorCode::InvalidLanguageTaggedString),
            ),
        ),
        JsonEventV::StartObject => step_states_err(
            c,
            c.states.push(StateV::Value { value_type: None, value, language }).push(
                StateV::Skip,
            ),
            diag(
                "@language value must be a string"@,
                Some(JsonLdErrorCode::InvalidLanguageTaggedString),
            ),
        ),
        JsonEventV::Eof => step_states(c, c.states),
        _ => step_states_err(
            c,
            c.states.push(StateV::ValueType { value, language }),
            malformed_diag(),
        ),
    }
}

/// What one token does after an `ObjectType` or `ObjectTypeArray` state was
/// popped: strings are expanded with the vocabulary rules and collected.
pub open spec fn spec_step_object_type(
    c: ConverterV,
    types: Seq<Seq<char>>,
    id: Option<Seq<char>>,
    is_array: bool,
    ev: JsonEventV,
) -> StepV {
    match ev {
        JsonEventV::Null | JsonEventV::Number(_) | JsonEventV::Boolean(_) => step_states_err(
            c,
            c.states.push(
                if is_array {
                    StateV::ObjectTypeArray { types, id }
                } else {
                    StateV::ObjectStart { types, id }
                },
            ),
            diag("@type value must be a string"@, Some(JsonLdErrorCode::InvalidTypeValue)),
        ),
        JsonEventV::String(v) => {
            let expanded = spec_expand_iri(c.contexts.last().0, c.lenient, v, false, true);
            let new_types = match expanded {
                Some(JsonLdIdOrKeywordV::Id(iri)) => types.push(iri),
                _ => types,
            };
            let errors = match expanded {
                Some(JsonLdIdOrKeywordV::Keyword(kw)) => seq![
                    diag("@"@ + kw + " is not a valid value for @type"@, None),
                ],
                _ => Seq::<JsonLdSyntaxErrorV>::empty(),
            };
            StepV {
                states: c.states.push(
                    if is_array {
                        StateV::ObjectTypeArray { types: new_types, id }
                    } else {
                        StateV::ObjectStart { types: new_types, id }
                    },
                ),
                contexts: c.contexts,
                is_end: c.is_end,
                events: Seq::empty(),
                errors,
            }
        },
        JsonEventV::StartArray => if is_array {
            step_states_err(
                c,
                c.states.push(StateV::ObjectTypeArray { types, id }).push(StateV::SkipArray),
                diag(
                    "@type cannot contain a nested array"@,
                    Some(JsonLdErrorCode::InvalidTypeValue),
                ),
            )
        } else {
            step_states(c, c.states.push(StateV::ObjectTypeArray { types, id }))
        },
        JsonEventV::EndArray => step_states(c, c.states.push(StateV::ObjectStart { types, id })),
        JsonEventV::StartObject => step_states_err(
            c,
            c.states.push(
                if is_array {
                    StateV::ObjectTypeArray { types, id }
                } else {
                    StateV::ObjectStart { types, id }
                },
            ).push(StateV::Skip),
            diag("@type value must be a string"@, Some(JsonLdErrorCode::InvalidTypeValue)),
        ),
        JsonEventV::Eof => step_states(c, c.states),
        _ => step_states_err(
            c,
            c.states.push(
                if is_array {
                    StateV::ObjectTypeArray { types, id }
                } else {
                    StateV::ObjectType { types, id }
                },
            ),
            malformed_diag(),
        ),
    }
}

/// What one token does after an `ObjectId` state was popped: the `@id` string
/// is expanded document-relatively and kept or emitted.
pub open spec fn spec_step_object_id(
    c: ConverterV,
    types: Seq<Seq<char>>,
    id: Option<Seq<char>>,
    from_start: bool,
    ev: JsonEventV,
) -> StepV {
    match ev {
        JsonEventV::String(v) => {
            let expanded = spec_expand_iri(c.contexts.last().0, c.lenient, v, true, false);
            let new_id = match expanded {
                Some(JsonLdIdOrKeywordV::Id(n)) => Some(n),
                _ => id,
            };
            let errors = match expanded {
                Some(JsonLdIdOrKeywordV::Keyword(_)) => seq![
                    diag("@id value must be an IRI or a blank node"@, None),
                ],
                _ => Seq::<JsonLdSyntaxErrorV>::empty(),
            };
            if from_start {
                StepV {
                    states: c.states.push(StateV::ObjectStart { types, id: new_id }),
                    contexts: c.contexts,
                    is_end: c.is_end,
                    events: Seq::empty(),
                    errors,
                }
            } else {
                StepV {
                    states: c.states.push(StateV::Object { in_property: false }),
                    contexts: c.contexts,
                    is_end: c.is_end,
                    events: match new_id {
                        Some(n) => seq![JsonLdEventV::Id(n)],
                        None => Seq::empty(),
                    },
                    errors,
                }
            }
        },
        JsonEventV::Null | JsonEventV::Number(_) | JsonEventV::Boolean(_) => step_states_err(
            c,
            c.states.push(
                if from_start {
                    StateV::ObjectStart { types, id }
                } else {
                    StateV::Object { in_property: false }
                },
            ),
            diag(
                "@id value must be a string"@,
                Some(JsonLdErrorCode::InvalidLanguageTaggedString),
            ),
        ),
        JsonEventV::StartArray => step_states_err(
            c,
            c.states.push(
                if from_start {
                    StateV::ObjectStart { types, id }
                } else {
                    StateV::Object { in_property: false }
                },
            ).push(StateV::SkipArray),
            diag(
                "@id value must be a string"@,
                Some(JsonLdErrorCode::InvalidLanguageTaggedString),
            ),
        ),
        JsonEventV::StartObject => step_states_err(
            c,
            c.states.push(
                if from_start {
                    StateV::ObjectStart { types, id }
                } else {
                    StateV::Object { in_property: false }
                },
            ).push(StateV::Skip),
            diag(
                "@id value must be a string"@,
                Some(JsonLdErrorCode::InvalidLanguageTaggedString),
            ),
        ),
        JsonEventV::Eof => step_states(c, c.states),
        _ => step_states_err(
            c,
            c.states.push(StateV::ObjectId { types, id, from_start }),
            malformed_diag(),
        ),
    }
}

/// What one token does after an `ObjectStart` state was popped: the object
/// commits to a property, a keyword branch, or its end.
pub open spec fn spec_step_object_start(
    c: ConverterV,
    types: Seq<Seq<char>>,
    id: Option<Seq<char>>,
    ev: JsonEventV,
) -> StepV {
    match ev {
        JsonEventV::ObjectKey(k) => {
            match spec_expand_iri(c.contexts.last().0, c.lenient, k, false, true) {
                Some(JsonLdIdOrKeywordV::Id(iri)) => StepV {
                    states: c.states.push(StateV::Object { in_property: true }).push(
                        StateV::Element,
                    ),
                    contexts: c.contexts,
                    is_end: c.is_end,
                    events: start_object_events(types, id) + seq![
                        JsonLdEventV::StartProperty(iri),
                    ],
                    errors: Seq::empty(),
                },
                Some(JsonLdIdOrKeywordV::Keyword(kw)) => if kw == "context"@ {
                    step_states(
                        c,
                        c.states.push(
                            StateV::ToNode {
                                stack: Seq::empty(),
                                current_key: None,
                                end_state: JsonLdAfterBuffering::Context,
                            },
                        ),
                    )
                } else if kw == "type"@ {
                    step_states(c, c.states.push(StateV::ObjectType { types, id }))
                } else if kw == "value"@ {
                    StepV {
                        states: c.states.push(
                            StateV::ValueValue { value_type: None, language: None },
                        ),
                        contexts: c.contexts,
                        is_end: c.is_end,
                        events: Seq::empty(),
                        errors: if types.len() > 1 {
                            seq![
                                diag(
                                    "Only a single @type is allowed when @value is present"@,
                                    Some(JsonLdErrorCode::InvalidTypedValue),
                                ),
                            ]
                        } else {
                            Seq::empty()
                        },
                    }
                } else if kw == "language"@ {
                    StepV {
                        states: c.states.push(
                            StateV::ValueLanguage { value_type: None, value: None },
                        ),
                        contexts: c.contexts,
                        is_end: c.is_end,
                        events: Seq::empty(),
                        errors: if types.len() > 1 {
                            seq![
                                diag(
                                    "Only a single @language is allowed"@,
                                    Some(JsonLdErrorCode::CollidingKeywords),
                                ),
                            ]
                        } else {
                            Seq::empty()
                        },
                    }
                } else if kw == "id"@ {
                    StepV {
                        states: c.states.push(StateV::ObjectId { types, id, from_start: true }),
                        contexts: c.contexts,
                        is_end: c.is_end,
                        events: Seq::empty(),
                        errors: if id is Some {
                            seq![
                                diag(
                                    "Only a single @id is allowed"@,
                                    Some(JsonLdErrorCode::CollidingKeywords),
                                ),
                            ]
                        } else {
                            Seq::empty()
                        },
                    }
                } else {
                    step_states_err(
                        c,
                        c.states.push(StateV::ObjectStart { types, id }).push(StateV::Skip),
                        diag("Unsupported JSON-LD keyword: @"@ + kw, None),
                    )
                },
                None => step_states(
                    c,
                    c.states.push(StateV::ObjectStart { types, id }).push(StateV::Skip),
                ),
            }
        },
        JsonEventV::EndObject => StepV {
            states: c.states,
            contexts: spec_pop_context(c.contexts),
            is_end: c.is_end,
            events: start_object_events(types, id) + seq![JsonLdEventV::EndObject],
            errors: Seq::empty(),
        },
        JsonEventV::Eof => step_states(c, c.states),
        _ => step_states_err(
            c,
            c.states.push(StateV::ObjectStart { types, id }),
            malformed_diag(),
        ),
    }
}

/// What one token does after an `Object` state was popped: an open property
/// scope closes before the next key or the object end.
pub open spec fn spec_step_object(c: ConverterV, in_property: bool, ev: JsonEventV) -> StepV {
    let closing: Seq<JsonLdEventV> = if in_property {
        seq![JsonLdEventV::EndProperty]
    } else {
        Seq::empty()
    };
    match ev {
        JsonEventV::EndObject => StepV {
            states: c.states,
            contexts: spec_pop_context(c.contexts),
            is_end: c.is_end,
            events: closing + seq![JsonLdEventV::EndObject],
            errors: Seq::empty(),
        },
        JsonEventV::ObjectKey(k) => {
            match spec_expand_iri(c.contexts.last().0, c.lenient, k, false, true) {
                Some(JsonLdIdOrKeywordV::Id(iri)) => StepV {
                    states: c.states.push(StateV::Object { in_property: true }).push(
                        StateV::Element,
                    ),
                    contexts: c.contexts,
                    is_end: c.is_end,
                    events: closing + seq![JsonLdEventV::StartProperty(iri)],
                    errors: Seq::empty(),
                },
                Some(JsonLdIdOrKeywordV::Keyword(kw)) => if kw == "id"@ {
                    StepV {
                        states: c.states.push(
                            StateV::ObjectId {
                                types: Seq::empty(),
                                id: None,
                                from_start: false,
                            },
                        ),
                        contexts: c.contexts,
                        is_end: c.is_end,
                        events: closing,
                        errors: Seq::empty(),
                    }
                } else {
                    StepV {
                        states: c.states.push(StateV::Object { in_property: false }).push(
                            StateV::Skip,
                        ),
                        contexts: c.contexts,
                        is_end: c.is_end,
                        events: closing,
                        errors: seq![diag("Unsupported keyword: "@ + kw, None)],
                    }
                },
                None => StepV {
                    states: c.states.push(StateV::Object { in_property: false }).push(
                        StateV::Skip,
                    ),
                    contexts: c.contexts,
                    is_end: c.is_end,
                    events: closing,
                    errors: Seq::empty(),
                },
            }
        },
        JsonEventV::Eof => step_states(c, c.states),
        _ => step_states_err(
            c,
            c.states.push(StateV::Object { in_property }),
            malformed_diag(),
        ),
    }
}

/// What one token does after a `Value` state was popped: the value object is
/// constrained to `@value`, `@language` and `@type`, and closed with at most
/// one literal event.
pub open spec fn spec_step_value(
    c: ConverterV,
    value_type: Option<Seq<char>>,
    value: Option<JsonLdValueV>,
    language: Option<Seq<char>>,
    ev: JsonEventV,
) -> StepV {
    match ev {
        JsonEventV::EndObject => StepV {
            states: c.states,
            contexts: spec_pop_context(c.contexts),
            is_end: c.is_end,
            events: match value {
                Some(v) => seq![JsonLdEventV::Value { value: v, value_type, language }],
                None => Seq::empty(),
            },
            errors: match value {
                Some(v) => (if language is Some && value_type is Some {
                    seq![
                        diag(
                            "@type and @language cannot be used together"@,
                            Some(JsonLdErrorCode::InvalidValueObject),
                        ),
                    ]
                } else {
                    Seq::<JsonLdSyntaxErrorV>::empty()
                }) + (if language is Some && !(v is String) {
                    seq![
                        diag(
                            "@language can be used only on a string @value"@,
                            Some(JsonLdErrorCode::InvalidLanguageTaggedValue),
                        ),
                    ]
                } else {
                    Seq::<JsonLdSyntaxErrorV>::empty()
                }),
                None => Seq::empty(),
            },
        },
        JsonEventV::ObjectKey(k) => {
            let keep = c.states.push(StateV::Value { value_type, value, language }).push(
                StateV::Skip,
            );
            match spec_expand_iri(c.contexts.last().0, c.lenient, k, false, true) {
                Some(JsonLdIdOrKeywordV::Id(iri)) => step_states_err(
                    c,
                    keep,
                    diag(
                        "Objects with @value cannot contain properties, "@ + iri + " found"@,
                        Some(JsonLdErrorCode::InvalidValueObject),
                    ),
                ),
                Some(JsonLdIdOrKeywordV::Keyword(kw)) => if kw == "value"@ {
                    if value is Some {
                        step_states_err(
                            c,
                            keep,
                            diag(
                                "@value cannot be set multiple times"@,
                                Some(JsonLdErrorCode::InvalidValueObject),
                            ),
                        )
                    } else {
                        step_states(
                            c,
                            c.states.push(StateV::ValueValue { value_type, language }),
                        )
                    }
                } else if kw == "language"@ {
                    if language is Some {
                        step_states_err(
                            c,
                            keep,
                            diag(
                                "@language cannot be set multiple times"@,
                                Some(JsonLdErrorCode::CollidingKeywords),
                            ),
                        )
                    } else {
                        step_states(
                            c,
                            c.states.push(StateV::ValueLanguage { value_type, value }),
                        )
                    }
                } else if kw == "type"@ {
                    if value_type is Some {
                        step_states_err(
                            c,
                            keep,
                            diag(
                                "@type cannot be set multiple times"@,
                                Some(JsonLdErrorCode::CollidingKeywords),
                            ),
                        )
                    } else {
                        step_states(c, c.states.push(StateV::ValueType { value, language }))
                    }
                } else {
                    step_states_err(
                        c,
                        keep,
                        diag("Unsupported JSON-Ld keyword inside of a @value: @"@ + kw, None),
                    )
                },
                None => step_states(c, keep),
            }
        },
        JsonEventV::Eof => step_states(c, c.states),
        _ => step_states_err(
            c,
            c.states.push(StateV::Value { value_type, value, language }),
            malformed_diag(),
        ),
    }
}

/// What completing a buffered subtree does: for a `@context`, the scope's
/// copied entry is replaced by the processed context and key reading resumes.
pub open spec fn spec_step_buffered(
    c: ConverterV,
    node: JsonNodeV,
    end_state: JsonLdAfterBuffering,
) -> StepV {
    match end_state {
        JsonLdAfterBuffering::Context => {
            let out = spec_process_context(
                spec_new_empty(None),
                node,
                true,
                false,
                true,
                JsonLdProcessingMode::JsonLd1_0,
                c.lenient,
            );
            StepV {
                states: c.states.push(StateV::ObjectStart { types: Seq::empty(), id: None }),
                contexts: spec_pop_context(c.contexts).push((out.context, 1nat)),
                is_end: c.is_end,
                events: Seq::empty(),
                errors: out.diags,
            }
        },
    }
}

/// What placing a completed JSON value does: it is inserted into the parent
/// object under the pending key, appended to the parent array, or handed on
/// when the buffering stack is empty.
pub open spec fn spec_step_placed(
    c: ConverterV,
    stack: Seq<(JsonNodeV, Option<Seq<char>>)>,
    key: Option<Seq<char>>,
    node: JsonNodeV,
    end_state: JsonLdAfterBuffering,
) -> StepV {
    if stack.len() == 0 {
        spec_step_buffered(c, node, end_state)
    } else {
        let top = stack.last();
        match top.0 {
            JsonNodeV::Object(entries) => match key {
                Some(k) => step_states(
                    c,
                    c.states.push(
                        StateV::ToNode {
                            stack: stack.drop_last().push(
                                (JsonNodeV::Object(object_with_member(entries, k, node)), top.1),
                            ),
                            current_key: None,
                            end_state,
                        },
                    ),
                ),
                None => step_states_err(
                    c,
                    c.states.push(StateV::ToNode { stack, current_key: None, end_state }),
                    malformed_diag(),
                ),
            },
            JsonNodeV::Array(items) => step_states(
                c,
                c.states.push(
                    StateV::ToNode {
                        stack: stack.drop_last().push(
                            (JsonNodeV::Array(items.push(node)), top.1),
                        ),
                        current_key: key,
                        end_state,
                    },
                ),
            ),
            _ => step_states_err(
                c,
                c.states.push(StateV::ToNode { stack, current_key: key, end_state }),
                malformed_diag(),
            ),
        }
    }
}

/// What one token does after a `ToNode` state was popped: the `@context`
/// subtree grows by one node, or a finished node is placed into its parent.
pub open spec fn spec_step_to_node(
    c: ConverterV,
    stack: Seq<(JsonNodeV, Option<Seq<char>>)>,
    current_key: Option<Seq<char>>,
    end_state: JsonLdAfterBuffering,
    ev: JsonEventV,
) -> StepV {
    match ev {
        JsonEventV::String(v) => spec_step_placed(
            c,
            stack,
            current_key,
            JsonNodeV::String(v),
            end_state,
        ),
        JsonEventV::Number(v) => spec_step_placed(
            c,
            stack,
            current_key,
            JsonNodeV::Number(v),
            end_state,
        ),
        JsonEventV::Boolean(v) => spec_step_placed(
            c,
            stack,
            current_key,
            JsonNodeV::Boolean(v),
            end_state,
        ),
        JsonEventV::Null => spec_step_placed(c, stack, current_key, JsonNodeV::Null, end_state),
        JsonEventV::EndArray | JsonEventV::EndObject => if stack.len() == 0 {
            step_states_err(
                c,
                c.states.push(StateV::ToNode { stack, current_key, end_state }),
                malformed_diag(),
            )
        } else {
            spec_step_placed(c, stack.drop_last(), stack.last().1, stack.last().0, end_state)
        },
        JsonEventV::StartArray => step_states(
            c,
            c.states.push(
                StateV::ToNode {
                    stack: stack.push((JsonNodeV::Array(Seq::empty()), current_key)),
                    current_key: None,
                    end_state,
                },
            ),
        ),
        JsonEventV::StartObject => step_states(
            c,
            c.states.push(
                StateV::ToNode {
                    stack: stack.push((JsonNodeV::Object(Seq::empty()), current_key)),
                    current_key: None,
                    end_state,
                },
            ),
        ),
        JsonEventV::ObjectKey(k) => step_states(
            c,
            c.states.push(StateV::ToNode { stack, current_key: Some(k), end_state }),
        ),
        JsonEventV::Eof => step_states(c, c.states),
    }
}

/// What one token does to the converter, end to end: the depth cap, the final
/// token, a finished document, or the popped state's own rules.
pub open spec fn spec_step(pre: ConverterV, ev: JsonEventV) -> StepV {
    if pre.states.len() > 4096 {
        StepV {
            states: pre.states,
            contexts: pre.contexts,
            is_end: pre.is_end,
            events: Seq::empty(),
            errors: seq![diag("Too large state stack"@, None)],
        }
    } else if ev is Eof {
        StepV {
            states: pre.states,
            contexts: pre.contexts,
            is_end: true,
            events: Seq::empty(),
            errors: Seq::empty(),
        }
    } else if pre.states.len() == 0 {
        StepV {
            states: pre.states,
            contexts: pre.contexts,
            is_end: pre.is_end,
            events: Seq::empty(),
            errors: seq![diag("unexpected content after the end of the document"@, None)],
        }
    } else {
        let c = ConverterV { states: pre.states.drop_last(), ..pre };
        match pre.states.last() {
            StateV::Element => spec_step_element(c, false, ev),
            StateV::ElementArray => spec_step_element(c, true, ev),
            StateV::ObjectStart { types, id } => spec_step_object_start(c, types, id, ev),
            StateV::ObjectType { types, id } => spec_step_object_type(c, types, id, false, ev),
            StateV::ObjectTypeArray { types, id } => spec_step_object_type(
                c,
                types,
                id,
                true,
                ev,
            ),
            StateV::ObjectId { types, id, from_start } => spec_step_object_id(
                c,
                types,
                id,
                from_start,
                ev,
            ),
            StateV::Object { in_property } => spec_step_object(c, in_property, ev),
            StateV::Value { value_type, value, language } => spec_step_value(
                c,
                value_type,
                value,
                language,
                ev,
            ),
            StateV::ValueValue { value_type, language } => spec_step_value_value(
                c,
                value_type,
                language,
                ev,
            ),
            StateV::ValueLanguage { value_type, value } => spec_step_value_language(
                c,
                value_type,
                value,
                ev,
            ),
            StateV::ValueType { value, language } => spec_step_value_type(
                c,
                value,
                language,
                ev,
            ),
            StateV::ToNode { stack, current_key, end_state } => spec_step_to_node(
                c,
                stack,
                current_key,
                end_state,
                ev,
            ),
            StateV::Skip => spec_step_skip(c, false, ev),
            StateV::SkipArray => spec_step_skip(c, true, ev),
        }
    }
}

/// Appends one event to the caller-owned output buffer.
fn emit_event(results: &mut Vec<JsonLdEvent>, e: JsonLdEvent)
    ensures
        events_view(final(results)@) == events_view(old(results)@).push(e@),
{
    let ghost ev = e@;
    results.push(e);
    proof {
        assert(events_view(results@) =~= events_view(old(results)@).push(ev));
    }
}

/// Appends one diagnostic to the caller-owned error buffer.
fn emit_error(errors: &mut Vec<JsonLdSyntaxError>, e: JsonLdSyntaxError)
    ensures
        diags_view(final(errors)@) == diags_view(old(errors)@).push(e@),
{
    let ghost ev = e@;
    errors.push(e);
    proof {
        assert(diags_view(errors@) =~= diags_view(old(errors)@).push(ev));
    }
}

impl JsonLdExpansionConverter {
    /// Pushes one state onto the state stack.
    fn push_state(&mut self, s: JsonLdExpansionState)
        ensures
            final(self)@.states == old(self)@.states.push(s@),
            final(self)@.contexts == old(self)@.contexts,
            final(self)@.is_end == old(self)@.is_end,
            final(self)@.lenient == old(self)@.lenient,
    {
        let ghost sv = s@;
        self.state.push(s);
        proof {
            assert(final(self)@.states =~= old(self)@.states.push(sv));
            assert(final(self)@.contexts =~= old(self)@.contexts);
        }
    }

    /// `Skip` and `SkipArray`: swallow one value (or the rest of one array),
    /// emitting nothing, so that an erroneous subtree leaves the stream
    /// balanced.
    fn on_skip(
        &mut self,
        is_array: bool,
        event: JsonEvent,
        results: &mut Vec<JsonLdEvent>,
        errors: &mut Vec<JsonLdSyntaxError>,
    )
        requires
            handler_pre(
                old(self)@,
                if is_array {
                    StateV::SkipArray
                } else {
                    StateV::Skip
                },
            ),
            !(event@ is Eof),
        ensures
            handler_ok(
                old(self)@,
                if is_array {
                    StateV::SkipArray
                } else {
                    StateV::Skip
                },
                final(self)@,
                events_view(old(results)@),
                events_view(final(results)@),
                diags_view(old(errors)@),
                diags_view(final(errors)@),
            ),
            step_post(
                spec_step_skip(old(self)@, is_array, event@),
                old(self)@,
                final(self)@,
                events_view(old(results)@),
                events_view(final(results)@),
                diags_view(old(errors)@),
                diags_view(final(errors)@),
            ),
    {
        let ghost popped: StateV = if is_array { StateV::SkipArray } else { StateV::Skip };
        let ghost basef = frames_of(old(self)@.states) + state_frames(popped);
        match event {
            JsonEvent::String(_) | JsonEvent::Number(_) | JsonEvent::Boolean(_)
            | JsonEvent::Null => {
                if is_array {
                    self.push_state(JsonLdExpansionState::SkipArray);
                    proof {
                        lemma_units_push(old(self)@.states, StateV::SkipArray);
                        lemma_frames_push(old(self)@.states, StateV::SkipArray);
                    }
                }
            },
            JsonEvent::EndArray | JsonEvent::EndObject => {},
            JsonEvent::StartArray => {
                if is_array {
                    self.push_state(JsonLdExpansionState::SkipArray);
                    proof {
                        lemma_units_push(old(self)@.states, StateV::SkipArray);
                        lemma_frames_push(old(self)@.states, StateV::SkipArray);
                    }
                }
                let ghost mid = self@.states;
                self.push_state(JsonLdExpansionState::SkipArray);
                proof {
                    lemma_units_push(mid, StateV::SkipArray);
                    lemma_frames_push(mid, StateV::SkipArray);
                }
            },
            JsonEvent::StartObject => {
                if is_array {
                    self.push_state(JsonLdExpansionState::SkipArray);
                    proof {
                        lemma_units_push(old(self)@.states, StateV::SkipArray);
                        lemma_frames_push(old(self)@.states, StateV::SkipArray);
                    }
                }
                let ghost mid = self@.states;
                self.push_state(JsonLdExpansionState::Skip);
                proof {
                    lemma_units_push(mid, StateV::Skip);
                    lemma_frames_push(mid, StateV::Skip);
                }
            },
            JsonEvent::ObjectKey(_) => {
                self.push_state(JsonLdExpansionState::Skip);
                let ghost mid = self@.states;
                self.push_state(JsonLdExpansionState::Skip);
                proof {
                    lemma_units_push(old(self)@.states, StateV::Skip);
                    lemma_frames_push(old(self)@.states, StateV::Skip);
                    lemma_units_push(mid, StateV::Skip);
                    lemma_frames_push(mid, StateV::Skip);
                }
            },
            JsonEvent::Eof => {},
        }
        proof {
            lemma_apply0(basef);
            assert(events_view(results@).skip(events_view(old(results)@).len() as int)
                =~= Seq::<JsonLdEventV>::empty());
            assert(frames_of(final(self)@.states) =~= basef);
            assert(events_view(old(results)@).is_prefix_of(events_view(results@)));
            assert(diags_view(old(errors)@).is_prefix_of(diags_view(errors@)));
            assert(events_view(results@) =~= events_view(old(results)@)
                + Seq::<JsonLdEventV>::empty());
            assert(diags_view(errors@) =~= diags_view(old(errors)@)
                + Seq::<JsonLdSyntaxErrorV>::empty());
        }
    }

    /// `Element` and `ElementArray`: a JSON value is awaited. Scalars become
    /// literal `Value` events, arrays flatten, and an object opens a scope
    /// that shares the top context entry.
    fn on_element(
        &mut self,
        is_array: bool,
        event: JsonEvent,
        results: &mut Vec<JsonLdEvent>,
        errors: &mut Vec<JsonLdSyntaxError>,
    )
        requires
            handler_pre(
                old(self)@,
                if is_array {
                    StateV::ElementArray
                } else {
                    StateV::Element
                },
            ),
            !(event@ is Eof),
        ensures
            handler_ok(
                old(self)@,
                if is_array {
                    StateV::ElementArray
                } else {
                    StateV::Element
                },
                final(self)@,
                events_view(old(results)@),
                events_view(final(results)@),
                diags_view(old(errors)@),
                diags_view(final(errors)@),
            ),
            (event@ matches JsonEventV::String(sv) ==> events_view(final(results)@)
                == events_view(old(results)@).push(
                JsonLdEventV::Value {
                    value: JsonLdValueV::String(sv),
                    value_type: None,
                    language: None,
                },
            )),
            (event@ matches JsonEventV::Number(sv) ==> events_view(final(results)@)
                == events_view(old(results)@).push(
                JsonLdEventV::Value {
                    value: JsonLdValueV::Number(sv),
                    value_type: None,
                    language: None,
                },
            )),
            (event@ matches JsonEventV::Boolean(b) ==> events_view(final(results)@)
                == events_view(old(results)@).push(
                JsonLdEventV::Value {
                    value: JsonLdValueV::Boolean(b),
                    value_type: None,
                    language: None,
                },
            )),
            step_post(
                spec_step_element(old(self)@, is_array, event@),
                old(self)@,
                final(self)@,
                events_view(old(results)@),
                events_view(final(results)@),
                diags_view(old(errors)@),
                diags_view(final(errors)@),
            ),
    {
        let ghost popped: StateV = if is_array { StateV::ElementArray } else { StateV::Element };
        let ghost basef = frames_of(old(self)@.states) + state_frames(popped);
        match event {
            JsonEvent::Null => {
                if is_array {
                    self.push_state(JsonLdExpansionState::ElementArray);
                    proof {
                        lemma_units_push(old(self)@.states, StateV::ElementArray);
                        lemma_frames_push(old(self)@.states, StateV::ElementArray);
                    }
                }
                proof {
                    lemma_apply0(basef);
                    assert(events_view(results@).skip(events_view(old(results)@).len() as int)
                        =~= Seq::<JsonLdEventV>::empty());
                    assert(frames_of(final(self)@.states) =~= basef);
                }
            },
            JsonEvent::String(value) => {
                if is_array {
                    self.push_state(JsonLdExpansionState::ElementArray);
                    proof {
                        lemma_units_push(old(self)@.states, StateV::ElementArray);
                        lemma_frames_push(old(self)@.states, StateV::ElementArray);
                    }
                }
                let ev = JsonLdEvent::Value {
                    value: JsonLdValue::String(value),
                    value_type: None,
                    language: None,
                };
                let ghost evv = ev@;
                emit_event(results, ev);
                proof {
                    lemma_apply1(basef, evv);
                    assert(events_view(results@).skip(events_view(old(results)@).len() as int)
                        =~= seq![evv]);
                    assert(events_view(results@) =~= events_view(old(results)@) + seq![evv]);
                    assert(frames_of(final(self)@.states) =~= basef);
                }
            },
            JsonEvent::Number(value) => {
                if is_array {
                    self.push_state(JsonLdExpansionState::ElementArray);
                    proof {
                        lemma_units_push(old(self)@.states, StateV::ElementArray);
                        lemma_frames_push(old(self)@.states, StateV::ElementArray);
                    }
                }
                let ev = JsonLdEvent::Value {
                    value: JsonLdValue::Number(value),
                    value_type: None,
                    language: None,
                };
                let ghost evv = ev@;
                emit_event(results, ev);
                proof {
                    lemma_apply1(basef, evv);
                    assert(events_view(results@).skip(events_view(old(results)@).len() as int)
                        =~= seq![evv]);
                    assert(events_view(results@) =~= events_view(old(results)@) + seq![evv]);
                    assert(frames_of(final(self)@.states) =~= basef);
                }
            },
            JsonEvent::Boolean(value) => {
                if is_array {
                    self.push_state(JsonLdExpansionState::ElementArray);
                    proof {
                        lemma_units_push(old(self)@.states, StateV::ElementArray);
                        lemma_frames_push(old(self)@.states, StateV::ElementArray);
                    }
                }
                let ev = JsonLdEvent::Value {
                    value: JsonLdValue::Boolean(value),
                    value_type: None,
                    language: None,
                };
                let ghost evv = ev@;
                emit_event(results, ev);
                proof {
                    lemma_apply1(basef, evv);
                    assert(events_view(results@).skip(events_view(old(results)@).len() as int)
                        =~= seq![evv]);
                    assert(events_view(results@) =~= events_view(old(results)@) + seq![evv]);
                    assert(frames_of(final(self)@.states) =~= basef);
                }
            },
            JsonEvent::StartArray => {
                if is_array {
                    self.push_state(JsonLdExpansionState::ElementArray);
                    proof {
                        lemma_units_push(old(self)@.states, StateV::ElementArray);
                        lemma_frames_push(old(self)@.states, StateV::ElementArray);
                    }
                }
                let ghost mid = self@.states;
                self.push_state(JsonLdExpansionState::ElementArray);
                proof {
                    lemma_units_push(mid, StateV::ElementArray);
                    lemma_frames_push(mid, StateV::ElementArray);
                    lemma_apply0(basef);
                    assert(events_view(results@).skip(events_view(old(results)@).len() as int)
                        =~= Seq::<JsonLdEventV>::empty());
                    assert(frames_of(final(self)@.states) =~= basef);
                }
            },
            JsonEvent::EndArray => {
                proof {
                    lemma_apply0(basef);
                    assert(events_view(results@).skip(events_view(old(results)@).len() as int)
                        =~= Seq::<JsonLdEventV>::empty());
                    assert(frames_of(final(self)@.states) =~= basef);
                }
            },
            JsonEvent::StartObject => {
                if is_array {
                    self.push_state(JsonLdExpansionState::ElementArray);
                    proof {
                        lemma_units_push(old(self)@.states, StateV::ElementArray);
                        lemma_frames_push(old(self)@.states, StateV::ElementArray);
                    }
                }
                let ghost mid0 = self@;
                self.push_same_context();
                let ghost mid = self@.states;
                self.push_state(
                    JsonLdExpansionState::ObjectStart { types: Vec::new(), id: None },
                );
                proof {
                    lemma_sum_update_last(
                        mid0.contexts,
                        (mid0.contexts.last().0, (mid0.contexts.last().1 + 1) as nat),
                    );
                    let newst = StateV::ObjectStart {
                        types: strings_view(Seq::<String>::empty()),
                        id: None,
                    };
                    lemma_units_push(mid, newst);
                    lemma_frames_push(mid, newst);
                    assert(forall|i: int| 0 <= i < final(self)@.contexts.len()
                        ==> (#[trigger] final(self)@.contexts[i]).1 >= 1) by {
                        assert(forall|i: int| 0 <= i < mid0.contexts.len() - 1
                            ==> final(self)@.contexts[i] == mid0.contexts[i]);
                    }
                    lemma_apply0(basef);
                    assert(events_view(results@).skip(events_view(old(results)@).len() as int)
                        =~= Seq::<JsonLdEventV>::empty());
                    assert(state_frames(newst) =~= Seq::<FrameV>::empty());
                    assert(frames_of(final(self)@.states) =~= basef);
                    assert(newst == (StateV::ObjectStart {
                        types: Seq::<Seq<char>>::empty(),
                        id: None,
                    })) by {
                        assert(strings_view(Seq::<String>::empty())
                            =~= Seq::<Seq<char>>::empty());
                    }
                }
            },
            JsonEvent::EndObject | JsonEvent::ObjectKey(_) => {
                emit_error(errors, JsonLdSyntaxError::msg("malformed JSON token stream"));
                proof {
                    assert(diags_view(errors@) =~= diags_view(old(errors)@) + seq![
                        diag("malformed JSON token stream"@, None),
                    ]);
                }
                proof {
                    assert(diags_view(errors@) =~= diags_view(old(errors)@) + seq![
                        malformed_diag(),
                    ]);
                }
                if is_array {
                    self.push_state(JsonLdExpansionState::ElementArray);
                    proof {
                        lemma_units_push(old(self)@.states, StateV::ElementArray);
                        lemma_frames_push(old(self)@.states, StateV::ElementArray);
                    }
                }
                proof {
                    lemma_apply0(basef);
                    assert(events_view(results@).skip(events_view(old(results)@).len() as int)
                        =~= Seq::<JsonLdEventV>::empty());
                    assert(frames_of(final(self)@.states) =~= basef);
                }
            },
            JsonEvent::Eof => {},
        }
        proof {
            assert(events_view(old(results)@).is_prefix_of(events_view(results@)));
            assert(diags_view(old(errors)@).is_prefix_of(diags_view(errors@)));
            assert(events_view(results@) =~= events_view(old(results)@) + events_view(
                results@,
            ).skip(events_view(old(results)@).len() as int));
            assert(diags_view(errors@) =~= diags_view(old(errors)@) + diags_view(errors@).skip(
                diags_view(old(errors)@).len() as int,
            ));
        }
    }
}

impl JsonLdExpansionConverter {
    /// `ValueValue`: the scalar following a `@value` key is awaited.
    fn on_value_value(
        &mut self,
        value_type: Option<String>,
        language: Option<String>,
        event: JsonEvent,
        results: &mut Vec<JsonLdEvent>,
        errors: &mut Vec<JsonLdSyntaxError>,
    )
        requires
            handler_pre(
                old(self)@,
                (StateV::ValueValue {
                    value_type: opt_str_view(value_type),
                    language: opt_str_view(language),
                }),
            ),
            !(event@ is Eof),
        ensures
            handler_ok(
                old(self)@,
                (StateV::ValueValue {
                    value_type: opt_str_view(value_type),
                    language: opt_str_view(language),
                }),
                final(self)@,
                events_view(old(results)@),
                events_view(final(results)@),
                diags_view(old(errors)@),
                diags_view(final(errors)@),
            ),
            step_post(
                spec_step_value_value(
                    old(self)@,
                    opt_str_view(value_type),
                    opt_str_view(language),
                    event@,
                ),
                old(self)@,
                final(self)@,
                events_view(old(results)@),
                events_view(final(results)@),
                diags_view(old(errors)@),
                diags_view(final(errors)@),
            ),
    {
        let ghost popped: StateV = StateV::ValueValue {
            value_type: opt_str_view(value_type),
            language: opt_str_view(language),
        };
        let ghost basef = frames_of(old(self)@.states) + state_frames(popped);
        match event {
            JsonEvent::Null => {
                let ghost mid = self@.states;
                let st = JsonLdExpansionState::Value { value_type, value: None, language };
                let ghost stv = st@;
                self.push_state(st);
                proof {
                    lemma_units_push(mid, stv);
                    lemma_frames_push(mid, stv);
                }
            },
            JsonEvent::Number(v) => {
                let ghost mid = self@.states;
                let st = JsonLdExpansionState::Value {
                    value_type,
                    value: Some(JsonLdValue::Number(v)),
                    language,
                };
                let ghost stv = st@;
                self.push_state(st);
                proof {
                    lemma_units_push(mid, stv);
                    lemma_frames_push(mid, stv);
                }
            },
            JsonEvent::Boolean(v) => {
                let ghost mid = self@.states;
                let st = JsonLdExpansionState::Value {
                    value_type,
                    value: Some(JsonLdValue::Boolean(v)),
                    language,
                };
                let ghost stv = st@;
                self.push_state(st);
                proof {
                    lemma_units_push(mid, stv);
                    lemma_frames_push(mid, stv);
                }
            },
            JsonEvent::String(v) => {
                let ghost mid = self@.states;
                let st = JsonLdExpansionState::Value {
                    value_type,
                    value: Some(JsonLdValue::String(v)),
                    language,
                };
                let ghost stv = st@;
                self.push_state(st);
                proof {
                    lemma_units_push(mid, stv);
                    lemma_frames_push(mid, stv);
                }
            },
            JsonEvent::StartArray => {
                emit_error(
                    errors,
                    JsonLdSyntaxError::msg_and_code(
                        "@type cannot contain an array",
                        JsonLdErrorCode::InvalidValueObjectValue,
                    ),
                );
                proof {
                    assert(diags_view(errors@) =~= diags_view(old(errors)@) + seq![
                        diag("@type cannot contain an array"@, Some(JsonLdErrorCode::InvalidValueObjectValue)),
                    ]);
                }
                let ghost mid = self@.states;
                let st = JsonLdExpansionState::Value { value_type, value: None, language };
                let ghost stv = st@;
                self.push_state(st);
                let ghost mid2 = self@.states;
                self.push_state(JsonLdExpansionState::SkipArray);
                proof {
                    lemma_units_push(mid, stv);
                    lemma_frames_push(mid, stv);
                    lemma_units_push(mid2, StateV::SkipArray);
                    lemma_frames_push(mid2, StateV::SkipArray);
                }
            },
            JsonEvent::StartObject => {
                emit_error(
                    errors,
                    JsonLdSyntaxError::msg_and_code(
                        "@type cannot contain an object",
                        JsonLdErrorCode::InvalidValueObjectValue,
                    ),
                );
                proof {
                    assert(diags_view(errors@) =~= diags_view(old(errors)@) + seq![
                        diag("@type cannot contain an object"@, Some(JsonLdErrorCode::InvalidValueObjectValue)),
                    ]);
                }
                let ghost mid = self@.states;
                let st = JsonLdExpansionState::Value { value_type, value: None, language };
                let ghost stv = st@;
                self.push_state(st);
                let ghost mid2 = self@.states;
                self.push_state(JsonLdExpansionState::Skip);
                proof {
                    lemma_units_push(mid, stv);
                    lemma_frames_push(mid, stv);
                    lemma_units_push(mid2, StateV::Skip);
                    lemma_frames_push(mid2, StateV::Skip);
                }
            },
            JsonEvent::EndArray | JsonEvent::ObjectKey(_) | JsonEvent::EndObject => {
                emit_error(errors, JsonLdSyntaxError::msg("malformed JSON token stream"));
                proof {
                    assert(diags_view(errors@) =~= diags_view(old(errors)@) + seq![
                        diag("malformed JSON token stream"@, None),
                    ]);
                }
                let ghost mid = self@.states;
                let st = JsonLdExpansionState::ValueValue { value_type, language };
                let ghost stv = st@;
                self.push_state(st);
                proof {
                    lemma_units_push(mid, stv);
                    lemma_frames_push(mid, stv);
                }
            },
            JsonEvent::Eof => {},
        }
        proof {
            lemma_apply0(basef);
            assert(events_view(results@).skip(events_view(old(results)@).len() as int)
                =~= Seq::<JsonLdEventV>::empty());
            assert(frames_of(final(self)@.states) =~= basef);
            assert(events_view(old(results)@).is_prefix_of(events_view(results@)));
            assert(diags_view(old(errors)@).is_prefix_of(diags_view(errors@)));
            assert(events_view(results@) =~= events_view(old(results)@)
                + Seq::<JsonLdEventV>::empty());
            assert(diags_view(errors@) =~= diags_view(old(errors)@) + diags_view(errors@).skip(
                diags_view(old(errors)@).len() as int,
            ));
        }
    }

    /// `ValueLanguage`: the string following a `@language` key is awaited.
    fn on_value_language(
        &mut self,
        value_type: Option<String>,
        value: Option<JsonLdValue>,
        event: JsonEvent,
        results: &mut Vec<JsonLdEvent>,
        errors: &mut Vec<JsonLdSyntaxError>,
    )
        requires
            handler_pre(
                old(self)@,
                (StateV::ValueLanguage {
                    value_type: opt_str_view(value_type),
                    value: opt_value_view(value),
                }),
            ),
            !(event@ is Eof),
        ensures
            handler_ok(
                old(self)@,
                (StateV::ValueLanguage {
                    value_type: opt_str_view(value_type),
                    value: opt_value_view(value),
                }),
                final(self)@,
                events_view(old(results)@),
                events_view(final(results)@),
                diags_view(old(errors)@),
                diags_view(final(errors)@),
            ),
            step_post(
                spec_step_value_language(
                    old(self)@,
                    opt_str_view(value_type),
                    opt_value_view(value),
                    event@,
                ),
                old(self)@,
                final(self)@,
                events_view(old(results)@),
                events_view(final(results)@),
                diags_view(old(errors)@),
                diags_view(final(errors)@),
            ),
    {
        let ghost popped: StateV = StateV::ValueLanguage {
            value_type: opt_str_view(value_type),
            value: opt_value_view(value),
        };
        let ghost basef = frames_of(old(self)@.states) + state_frames(popped);
        match event {
            JsonEvent::String(l) => {
                let ghost mid = self@.states;
                let st = JsonLdExpansionState::Value { value_type, value, language: Some(l) };
                let ghost stv = st@;
                self.push_state(st);
                proof {
                    lemma_units_push(mid, stv);
                    lemma_frames_push(mid, stv);
                }
            },
            JsonEvent::Null | JsonEvent::Number(_) | JsonEvent::Boolean(_) => {
                emit_error(
                    errors,
                    JsonLdSyntaxError::msg_and_code(
                        "@language value must be a string",
                        JsonLdErrorCode::InvalidLanguageTaggedString,
                    ),
                );
                proof {
                    assert(diags_view(errors@) =~= diags_view(old(errors)@) + seq![
                        diag("@language value must be a string"@, Some(JsonLdErrorCode::InvalidLanguageTaggedString)),
                    ]);
                }
                let ghost mid = self@.states;
                let st = JsonLdExpansionState::Value { value_type, value, language: None };
                let ghost stv = st@;
                self.push_state(st);
                proof {
                    lemma_units_push(mid, stv);
                    lemma_frames_push(mid, stv);
                }
            },
            JsonEvent::StartArray => {
                emit_error(
                    errors,
                    JsonLdSyntaxError::msg_and_code(
                        "@language value must be a string",
                        JsonLdErrorCode::InvalidLanguageTaggedString,
                    ),
                );
                proof {
                    assert(diags_view(errors@) =~= diags_view(old(errors)@) + seq![
                        diag("@language value must be a string"@, Some(JsonLdErrorCode::InvalidLanguageTaggedString)),
                    ]);
                }
                let ghost mid = self@.states;
                let st = JsonLdExpansionState::Value { value_type, value, language: None };
                let ghost stv = st@;
                self.push_state(st);
                let ghost mid2 = self@.states;
                self.push_state(JsonLdExpansionState::SkipArray);
                proof {
                    lemma_units_push(mid, stv);
                    lemma_frames_push(mid, stv);
                    lemma_units_push(mid2, StateV::SkipArray);
                    lemma_frames_push(mid2, StateV::SkipArray);
                }
            },
            JsonEvent::StartObject => {
                emit_error(
                    errors,
                    JsonLdSyntaxError::msg_and_code(
                        "@language value must be a string",
                        JsonLdErrorCode::InvalidLanguageTaggedString,
                    ),
                );
                proof {
                    assert(diags_view(errors@) =~= diags_view(old(errors)@) + seq![
                        diag("@language value must be a string"@, Some(JsonLdErrorCode::InvalidLanguageTaggedString)),
                    ]);
                }
                let ghost mid = self@.states;
                let st = JsonLdExpansionState::Value { value_type, value, language: None };
                let ghost stv = st@;
                self.push_state(st);
                let ghost mid2 = self@.states;
                self.push_state(JsonLdExpansionState::Skip);
                proof {
                    lemma_units_push(mid, stv);
                    lemma_frames_push(mid, stv);
                    lemma_units_push(mid2, StateV::Skip);
                    lemma_frames_push(mid2, StateV::Skip);
                }
            },
            JsonEvent::EndArray | JsonEvent::ObjectKey(_) | JsonEvent::EndObject => {
                emit_error(errors, JsonLdSyntaxError::msg("malformed JSON token stream"));
                proof {
                    assert(diags_view(errors@) =~= diags_view(old(errors)@) + seq![
                        diag("malformed JSON token stream"@, None),
                    ]);
                }
                let ghost mid = self@.states;
                let st = JsonLdExpansionState::ValueLanguage { value_type, value };
                let ghost stv = st@;
                self.push_state(st);
                proof {
                    lemma_units_push(mid, stv);
                    lemma_frames_push(mid, stv);
                }
            },
            JsonEvent::Eof => {},
        }
        proof {
            lemma_apply0(basef);
            assert(events_view(results@).skip(events_view(old(results)@).len() as int)
                =~= Seq::<JsonLdEventV>::empty());
            assert(frames_of(final(self)@.states) =~= basef);
            assert(events_view(old(results)@).is_prefix_of(events_view(results@)));
            assert(diags_view(old(errors)@).is_prefix_of(diags_view(errors@)));
            assert(events_view(results@) =~= events_view(old(results)@)
                + Seq::<JsonLdEventV>::empty());
            assert(diags_view(errors@) =~= diags_view(old(errors)@) + diags_view(errors@).skip(
                diags_view(old(errors)@).len() as int,
            ));
        }
    }

    /// `ValueType`: the string following a `@type` key inside a value object
    /// is awaited.
    fn on_value_type(
        &mut self,
        value: Option<JsonLdValue>,
        language: Option<String>,
        event: JsonEvent,
        results: &mut Vec<JsonLdEvent>,
        errors: &mut Vec<JsonLdSyntaxError>,
    )
        requires
            handler_pre(
                old(self)@,
                (StateV::ValueType {
                    value: opt_value_view(value),
                    language: opt_str_view(language),
                }),
            ),
            !(event@ is Eof),
        ensures
            handler_ok(
                old(self)@,
                (StateV::ValueType {
                    value: opt_value_view(value),
                    language: opt_str_view(language),
                }),
                final(self)@,
                events_view(old(results)@),
                events_view(final(results)@),
                diags_view(old(errors)@),
                diags_view(final(errors)@),
            ),
            step_post(
                spec_step_value_type(
                    old(self)@,
                    opt_value_view(value),
                    opt_str_view(language),
                    event@,
                ),
                old(self)@,
                final(self)@,
                events_view(old(results)@),
                events_view(final(results)@),
                diags_view(old(errors)@),
                diags_view(final(errors)@),
            ),
    {
        let ghost popped: StateV = StateV::ValueType {
            value: opt_value_view(value),
            language: opt_str_view(language),
        };
        let ghost basef = frames_of(old(self)@.states) + state_frames(popped);
        match event {
            JsonEvent::String(t) => {
                let ghost mid = self@.states;
                let st = JsonLdExpansionState::Value {
                    value_type: Some(t),
                    value,
                    language,
                };
                let ghost stv = st@;
                self.push_state(st);
                proof {
                    lemma_units_push(mid, stv);
                    lemma_frames_push(mid, stv);
                }
            },
            JsonEvent::Null | JsonEvent::Number(_) | JsonEvent::Boolean(_) => {
                emit_error(
                    errors,
                    JsonLdSyntaxError::msg_and_code(
                        "@type value must be a string when @value is present",
                        JsonLdErrorCode::InvalidTypedValue,
                    ),
                );
                proof {
                    assert(diags_view(errors@) =~= diags_view(old(errors)@) + seq![
                        diag("@type value must be a string when @value is present"@, Some(JsonLdErrorCode::InvalidTypedValue)),
                    ]);
                }
                let ghost mid = self@.states;
                let st = JsonLdExpansionState::Value { value_type: None, value, language };
                let ghost stv = st@;
                self.push_state(st);
                proof {
                    lemma_units_push(mid, stv);
                    lemma_frames_push(mid, stv);
                }
            },
            JsonEvent::StartArray => {
                emit_error(
                    errors,
                    JsonLdSyntaxError::msg_and_code(
                        "@language value must be a string",
                        JsonLdErrorCode::InvalidLanguageTaggedString,
                    ),
                );
                proof {
                    assert(diags_view(errors@) =~= diags_view(old(errors)@) + seq![
                        diag("@language value must be a string"@, Some(JsonLdErrorCode::InvalidLanguageTaggedString)),
                    ]);
                }
                let ghost mid = self@.states;
                let st = JsonLdExpansionState::Value { value_type: None, value, language };
                let ghost stv = st@;
                self.push_state(st);
                let ghost mid2 = self@.states;
                self.push_state(JsonLdExpansionState::SkipArray);
                proof {
                    lemma_units_push(mid, stv);
                    lemma_frames_push(mid, stv);
                    lemma_units_push(mid2, StateV::SkipArray);
                    lemma_frames_push(mid2, StateV::SkipArray);
                }
            },
            JsonEvent::StartObject => {
                emit_error(
                    errors,
                    JsonLdSyntaxError::msg_and_code(
                        "@language value must be a string",
                        JsonLdErrorCode::InvalidLanguageTaggedString,
                    ),
                );
                proof {
                    assert(diags_view(errors@) =~= diags_view(old(errors)@) + seq![
                        diag("@language value must be a string"@, Some(JsonLdErrorCode::InvalidLanguageTaggedString)),
                    ]);
                }
                let ghost mid = self@.states;
                let st = JsonLdExpansionState::Value { value_type: None, value, language };
                let ghost stv = st@;
                self.push_state(st);
                let ghost mid2 = self@.states;
                self.push_state(JsonLdExpansionState::Skip);
                proof {
                    lemma_units_push(mid, stv);
                    lemma_frames_push(mid, stv);
                    lemma_units_push(mid2, StateV::Skip);
                    lemma_frames_push(mid2, StateV::Skip);
                }
            },
            JsonEvent::EndArray | JsonEvent::ObjectKey(_) | JsonEvent::EndObject => {
                emit_error(errors, JsonLdSyntaxError::msg("malformed JSON token stream"));
                proof {
                    assert(diags_view(errors@) =~= diags_view(old(errors)@) + seq![
                        diag("malformed JSON token stream"@, None),
                    ]);
                }
                let ghost mid = self@.states;
                let st = JsonLdExpansionState::ValueType { value, language };
                let ghost stv = st@;
                self.push_state(st);
                proof {
                    lemma_units_push(mid, stv);
                    lemma_frames_push(mid, stv);
                }
            },
            JsonEvent::Eof => {},
        }
        proof {
            lemma_apply0(basef);
            assert(events_view(results@).skip(events_view(old(results)@).len() as int)
                =~= Seq::<JsonLdEventV>::empty());
            assert(frames_of(final(self)@.states) =~= basef);
            assert(events_view(old(results)@).is_prefix_of(events_view(results@)));
            assert(diags_view(old(errors)@).is_prefix_of(diags_view(errors@)));
            assert(events_view(results@) =~= events_view(old(results)@)
                + Seq::<JsonLdEventV>::empty());
            assert(diags_view(errors@) =~= diags_view(old(errors)@) + diags_view(errors@).skip(
                diags_view(old(errors)@).len() as int,
            ));
        }
    }
}

impl JsonLdExpansionConverter {
    /// `ObjectType` and `ObjectTypeArray`: a `@type` value (or array of
    /// values) is read; every string is expanded with `vocab` set and
    /// collected.
    #[verifier::rlimit(60)]
    fn on_object_type(
        &mut self,
        types: Vec<String>,
        id: Option<String>,
        is_array: bool,
        event: JsonEvent,
        results: &mut Vec<JsonLdEvent>,
        errors: &mut Vec<JsonLdSyntaxError>,
    )
        requires
            handler_pre(
                old(self)@,
                (StateV::ObjectType { types: strings_view(types@), id: opt_str_view(id) }),
            ),
            !(event@ is Eof),
        ensures
            handler_ok(
                old(self)@,
                (StateV::ObjectType { types: strings_view(types@), id: opt_str_view(id) }),
                final(self)@,
                events_view(old(results)@),
                events_view(final(results)@),
                diags_view(old(errors)@),
                diags_view(final(errors)@),
            ),
            step_post(
                spec_step_object_type(
                    old(self)@,
                    strings_view(types@),
                    opt_str_view(id),
                    is_array,
                    event@,
                ),
                old(self)@,
                final(self)@,
                events_view(old(results)@),
                events_view(final(results)@),
                diags_view(old(errors)@),
                diags_view(final(errors)@),
            ),
    {
        let ghost popped: StateV = StateV::ObjectType {
            types: strings_view(types@),
            id: opt_str_view(id),
        };
        let ghost basef = frames_of(old(self)@.states) + state_frames(popped);
        match event {
            JsonEvent::Null | JsonEvent::Number(_) | JsonEvent::Boolean(_) => {
                emit_error(
                    errors,
                    JsonLdSyntaxError::msg_and_code(
                        "@type value must be a string",
                        JsonLdErrorCode::InvalidTypeValue,
                    ),
                );
                proof {
                    assert(diags_view(errors@) =~= diags_view(old(errors)@) + seq![
                        diag("@type value must be a string"@, Some(JsonLdErrorCode::InvalidTypeValue)),
                    ]);
                }
                let ghost mid = self@.states;
                let st = if is_array {
                    JsonLdExpansionState::ObjectTypeArray { types, id }
                } else {
                    JsonLdExpansionState::ObjectStart { types, id }
                };
                let ghost stv = st@;
                self.push_state(st);
                proof {
                    lemma_units_push(mid, stv);
                    lemma_frames_push(mid, stv);
                }
            },
            JsonEvent::String(value) => {
                let mut types = types;
                let ghost tv0 = strings_view(types@);
                match self.expand_iri(value, false, true) {
                    Some(JsonLdIdOrKeyword::Id(iri)) => {
                        let ghost iv = iri@;
                        types.push(iri);
                        proof {
                            assert(strings_view(types@) =~= tv0.push(iv));
                        }
                    },
                    Some(JsonLdIdOrKeyword::Keyword(keyword)) => {
                        emit_error(
                            errors,
                            JsonLdSyntaxError::msg(
                                str_concat(
                                    str_concat("@", keyword.as_str()).as_str(),
                                    " is not a valid value for @type",
                                ).as_str(),
                            ),
                        );
                        proof {
                            assert(diags_view(errors@) =~= diags_view(old(errors)@) + seq![
                                diag("@"@ + keyword@ + " is not a valid value for @type"@, None),
                            ]);
                        }
                    },
                    None => {},
                }
                let ghost mid = self@.states;
                let st = if is_array {
                    JsonLdExpansionState::ObjectTypeArray { types, id }
                } else {
                    JsonLdExpansionState::ObjectStart { types, id }
                };
                let ghost stv = st@;
                self.push_state(st);
                proof {
                    lemma_units_push(mid, stv);
                    lemma_frames_push(mid, stv);
                }
            },
            JsonEvent::StartArray => {
                let ghost mid = self@.states;
                let st = JsonLdExpansionState::ObjectTypeArray { types, id };
                let ghost stv = st@;
                self.push_state(st);
                proof {
                    lemma_units_push(mid, stv);
                    lemma_frames_push(mid, stv);
                }
                if is_array {
                    emit_error(
                        errors,
                        JsonLdSyntaxError::msg_and_code(
                            "@type cannot contain a nested array",
                            JsonLdErrorCode::InvalidTypeValue,
                        ),
                    );
                    proof {
                        assert(diags_view(errors@) =~= diags_view(old(errors)@) + seq![
                            diag("@type cannot contain a nested array"@, Some(JsonLdErrorCode::InvalidTypeValue)),
                        ]);
                    }
                    let ghost mid2 = self@.states;
                    self.push_state(JsonLdExpansionState::SkipArray);
                    proof {
                        lemma_units_push(mid2, StateV::SkipArray);
                        lemma_frames_push(mid2, StateV::SkipArray);
                    }
                }
            },
            JsonEvent::EndArray => {
                let ghost mid = self@.states;
                let st = JsonLdExpansionState::ObjectStart { types, id };
                let ghost stv = st@;
                self.push_state(st);
                proof {
                    lemma_units_push(mid, stv);
                    lemma_frames_push(mid, stv);
                }
            },
            JsonEvent::StartObject => {
                emit_error(
                    errors,
                    JsonLdSyntaxError::msg_and_code(
                        "@type value must be a string",
                        JsonLdErrorCode::InvalidTypeValue,
                    ),
                );
                proof {
                    assert(diags_view(errors@) =~= diags_view(old(errors)@) + seq![
                        diag("@type value must be a string"@, Some(JsonLdErrorCode::InvalidTypeValue)),
                    ]);
                }
                let ghost mid = self@.states;
                let st = if is_array {
                    JsonLdExpansionState::ObjectTypeArray { types, id }
                } else {
                    JsonLdExpansionState::ObjectStart { types, id }
                };
                let ghost stv = st@;
                self.push_state(st);
                let ghost mid2 = self@.states;
                self.push_state(JsonLdExpansionState::Skip);
                proof {
                    lemma_units_push(mid, stv);
                    lemma_frames_push(mid, stv);
                    lemma_units_push(mid2, StateV::Skip);
                    lemma_frames_push(mid2, StateV::Skip);
                }
            },
            JsonEvent::ObjectKey(_) | JsonEvent::EndObject => {
                emit_error(errors, JsonLdSyntaxError::msg("malformed JSON token stream"));
                proof {
                    assert(diags_view(errors@) =~= diags_view(old(errors)@) + seq![
                        diag("malformed JSON token stream"@, None),
                    ]);
                }
                let ghost mid = self@.states;
                let st = if is_array {
                    JsonLdExpansionState::ObjectTypeArray { types, id }
                } else {
                    JsonLdExpansionState::ObjectType { types, id }
                };
                let ghost stv = st@;
                self.push_state(st);
                proof {
                    lemma_units_push(mid, stv);
                    lemma_frames_push(mid, stv);
                }
            },
            JsonEvent::Eof => {},
        }
        proof {
            lemma_apply0(basef);
            assert(events_view(results@).skip(events_view(old(results)@).len() as int)
                =~= Seq::<JsonLdEventV>::empty());
            assert(frames_of(final(self)@.states) =~= basef);
            assert(events_view(old(results)@).is_prefix_of(events_view(results@)));
            assert(diags_view(old(errors)@).is_prefix_of(diags_view(errors@)));
            assert(events_view(results@) =~= events_view(old(results)@)
                + Seq::<JsonLdEventV>::empty());
            assert(diags_view(errors@) =~= diags_view(old(errors)@) + diags_view(errors@).skip(
                diags_view(old(errors)@).len() as int,
            ));
        }
    }

    /// `ObjectId`: the string following an `@id` key is read and expanded
    /// document-relatively. Inside the start-of-object phase the id is kept
    /// for the coming `StartObject`; later it is emitted at once.
    #[verifier::rlimit(60)]
    fn on_object_id(
        &mut self,
        types: Vec<String>,
        id: Option<String>,
        from_start: bool,
        event: JsonEvent,
        results: &mut Vec<JsonLdEvent>,
        errors: &mut Vec<JsonLdSyntaxError>,
    )
        requires
            handler_pre(
                old(self)@,
                (StateV::ObjectId {
                    types: strings_view(types@),
                    id: opt_str_view(id),
                    from_start,
                }),
            ),
            !(event@ is Eof),
        ensures
            handler_ok(
                old(self)@,
                (StateV::ObjectId {
                    types: strings_view(types@),
                    id: opt_str_view(id),
                    from_start,
                }),
                final(self)@,
                events_view(old(results)@),
                events_view(final(results)@),
                diags_view(old(errors)@),
                diags_view(final(errors)@),
            ),
            step_post(
                spec_step_object_id(
                    old(self)@,
                    strings_view(types@),
                    opt_str_view(id),
                    from_start,
                    event@,
                ),
                old(self)@,
                final(self)@,
                events_view(old(results)@),
                events_view(final(results)@),
                diags_view(old(errors)@),
                diags_view(final(errors)@),
            ),
    {
        let ghost popped: StateV = StateV::ObjectId {
            types: strings_view(types@),
            id: opt_str_view(id),
            from_start,
        };
        let ghost basef = frames_of(old(self)@.states) + state_frames(popped);
        match event {
            JsonEvent::String(new_id) => {
                let mut id = id;
                match self.expand_iri(new_id, true, false) {
                    Some(JsonLdIdOrKeyword::Id(expanded)) => {
                        id = Some(expanded);
                    },
                    Some(JsonLdIdOrKeyword::Keyword(_)) => {
                        emit_error(
                            errors,
                            JsonLdSyntaxError::msg("@id value must be an IRI or a blank node"),
                        );
                        proof {
                            assert(diags_view(errors@) =~= diags_view(old(errors)@) + seq![
                                diag("@id value must be an IRI or a blank node"@, None),
                            ]);
                        }
                    },
                    None => {},
                }
                if from_start {
                    let ghost mid = self@.states;
                    let st = JsonLdExpansionState::ObjectStart { types, id };
                    let ghost stv = st@;
                    self.push_state(st);
                    proof {
                        lemma_units_push(mid, stv);
                        lemma_frames_push(mid, stv);
                        lemma_apply0(basef);
                        assert(events_view(results@).skip(
                            events_view(old(results)@).len() as int,
                        ) =~= Seq::<JsonLdEventV>::empty());
                        assert(frames_of(final(self)@.states) =~= basef);
                    }
                } else {
                    let ghost emitted: Seq<JsonLdEventV> = if id is Some {
                        seq![JsonLdEventV::Id(id->Some_0@)]
                    } else {
                        Seq::empty()
                    };
                    if let Some(id_value) = id {
                        emit_event(results, JsonLdEvent::Id(id_value));
                    }
                    let ghost mid = self@.states;
                    let st = JsonLdExpansionState::Object { in_property: false };
                    let ghost stv = st@;
                    self.push_state(st);
                    proof {
                        lemma_units_push(mid, stv);
                        lemma_frames_push(mid, stv);
                        if emitted.len() == 1 {
                            lemma_apply1(basef, emitted[0]);
                        } else {
                            lemma_apply0(basef);
                        }
                        assert(events_view(results@).skip(
                            events_view(old(results)@).len() as int,
                        ) =~= emitted);
                        assert(events_view(results@) =~= events_view(old(results)@) + emitted);
                        assert(frames_of(final(self)@.states) =~= basef);
                    }
                }
            },
            JsonEvent::Null | JsonEvent::Number(_) | JsonEvent::Boolean(_) => {
                emit_error(
                    errors,
                    JsonLdSyntaxError::msg_and_code(
                        "@id value must be a string",
                        JsonLdErrorCode::InvalidLanguageTaggedString,
                    ),
                );
                proof {
                    assert(diags_view(errors@) =~= diags_view(old(errors)@) + seq![
                        diag("@id value must be a string"@, Some(JsonLdErrorCode::InvalidLanguageTaggedString)),
                    ]);
                }
                let ghost mid = self@.states;
                let st = if from_start {
                    JsonLdExpansionState::ObjectStart { types, id }
                } else {
                    JsonLdExpansionState::Object { in_property: false }
                };
                let ghost stv = st@;
                self.push_state(st);
                proof {
                    lemma_units_push(mid, stv);
                    lemma_frames_push(mid, stv);
                    lemma_apply0(basef);
                    assert(events_view(results@).skip(events_view(old(results)@).len() as int)
                        =~= Seq::<JsonLdEventV>::empty());
                    assert(frames_of(final(self)@.states) =~= basef);
                }
            },
            JsonEvent::StartArray => {
                emit_error(
                    errors,
                    JsonLdSyntaxError::msg_and_code(
                        "@id value must be a string",
                        JsonLdErrorCode::InvalidLanguageTaggedString,
                    ),
                );
                proof {
                    assert(diags_view(errors@) =~= diags_view(old(errors)@) + seq![
                        diag("@id value must be a string"@, Some(JsonLdErrorCode::InvalidLanguageTaggedString)),
                    ]);
                }
                let ghost mid = self@.states;
                let st = if from_start {
                    JsonLdExpansionState::ObjectStart { types, id }
                } else {
                    JsonLdExpansionState::Object { in_property: false }
                };
                let ghost stv = st@;
                self.push_state(st);
                let ghost mid2 = self@.states;
                self.push_state(JsonLdExpansionState::SkipArray);
                proof {
                    lemma_units_push(mid, stv);
                    lemma_frames_push(mid, stv);
                    lemma_units_push(mid2, StateV::SkipArray);
                    lemma_frames_push(mid2, StateV::SkipArray);
                    lemma_apply0(basef);
                    assert(events_view(results@).skip(events_view(old(results)@).len() as int)
                        =~= Seq::<JsonLdEventV>::empty());
                    assert(frames_of(final(self)@.states) =~= basef);
                }
            },
            JsonEvent::StartObject => {
                emit_error(
                    errors,
                    JsonLdSyntaxError::msg_and_code(
                        "@id value must be a string",
                        JsonLdErrorCode::InvalidLanguageTaggedString,
                    ),
                );
                proof {
                    assert(diags_view(errors@) =~= diags_view(old(errors)@) + seq![
                        diag("@id value must be a string"@, Some(JsonLdErrorCode::InvalidLanguageTaggedString)),
                    ]);
                }
                let ghost mid = self@.states;
                let st = if from_start {
                    JsonLdExpansionState::ObjectStart { types, id }
                } else {
                    JsonLdExpansionState::Object { in_property: false }
                };
                let ghost stv = st@;
                self.push_state(st);
                let ghost mid2 = self@.states;
                self.push_state(JsonLdExpansionState::Skip);
                proof {
                    lemma_units_push(mid, stv);
                    lemma_frames_push(mid, stv);
                    lemma_units_push(mid2, StateV::Skip);
                    lemma_frames_push(mid2, StateV::Skip);
                    lemma_apply0(basef);
                    assert(events_view(results@).skip(events_view(old(results)@).len() as int)
                        =~= Seq::<JsonLdEventV>::empty());
                    assert(frames_of(final(self)@.states) =~= basef);
                }
            },
            JsonEvent::EndArray | JsonEvent::ObjectKey(_) | JsonEvent::EndObject => {
                emit_error(errors, JsonLdSyntaxError::msg("malformed JSON token stream"));
                proof {
                    assert(diags_view(errors@) =~= diags_view(old(errors)@) + seq![
                        diag("malformed JSON token stream"@, None),
                    ]);
                }
                let ghost mid = self@.states;
                let st = JsonLdExpansionState::ObjectId { types, id, from_start };
                let ghost stv = st@;
                self.push_state(st);
                proof {
                    lemma_units_push(mid, stv);
                    lemma_frames_push(mid, stv);
                    lemma_apply0(basef);
                    assert(events_view(results@).skip(events_view(old(results)@).len() as int)
                        =~= Seq::<JsonLdEventV>::empty());
                    assert(frames_of(final(self)@.states) =~= basef);
                }
            },
            JsonEvent::Eof => {},
        }
        proof {
            assert(events_view(old(results)@).is_prefix_of(events_view(results@)));
            assert(diags_view(old(errors)@).is_prefix_of(diags_view(errors@)));
            assert(events_view(results@) =~= events_view(old(results)@) + events_view(
                results@,
            ).skip(events_view(old(results)@).len() as int));
            assert(diags_view(errors@) =~= diags_view(old(errors)@) + diags_view(errors@).skip(
                diags_view(old(errors)@).len() as int,
            ));
        }
    }
}

impl JsonLdExpansionConverter {
    /// Releases the popped scope's context unit and proves the accounting.
    fn release_context_unit(&mut self)
        requires
            old(self)@.contexts.len() >= 1,
            forall|i: int| 0 <= i < old(self)@.contexts.len()
                ==> (#[trigger] old(self)@.contexts[i]).1 >= 1,
            sum_refcounts(old(self)@.contexts) >= 2,
        ensures
            final(self)@.states == old(self)@.states,
            final(self)@.is_end == old(self)@.is_end,
            final(self)@.lenient == old(self)@.lenient,
            final(self)@.contexts.len() >= 1,
            forall|i: int| 0 <= i < final(self)@.contexts.len()
                ==> (#[trigger] final(self)@.contexts[i]).1 >= 1,
            sum_refcounts(final(self)@.contexts) == sum_refcounts(old(self)@.contexts) - 1,
            final(self)@.contexts == spec_pop_context(old(self)@.contexts),
    {
        proof {
            lemma_pop_context_sum(old(self)@.contexts);
        }
        self.pop_context();
        proof {
            lemma_sum_positive_nonempty(final(self)@.contexts);
        }
    }

    /// `ObjectStart`: the first keys of an object are read, before the object
    /// commits to being a node object, a value object, or empty.
    #[verifier::rlimit(60)]
    fn on_object_start(
        &mut self,
        types: Vec<String>,
        id: Option<String>,
        event: JsonEvent,
        results: &mut Vec<JsonLdEvent>,
        errors: &mut Vec<JsonLdSyntaxError>,
    )
        requires
            handler_pre(
                old(self)@,
                (StateV::ObjectStart { types: strings_view(types@), id: opt_str_view(id) }),
            ),
            !(event@ is Eof),
        ensures
            handler_ok(
                old(self)@,
                (StateV::ObjectStart { types: strings_view(types@), id: opt_str_view(id) }),
                final(self)@,
                events_view(old(results)@),
                events_view(final(results)@),
                diags_view(old(errors)@),
                diags_view(final(errors)@),
            ),
            (event@ is EndObject ==> events_view(final(results)@) == events_view(old(results)@)
                + start_object_events(strings_view(types@), opt_str_view(id)) + seq![
                JsonLdEventV::EndObject,
            ]),
            (event@ matches JsonEventV::ObjectKey(k) ==> (spec_expand_iri(
                old(self)@.contexts.last().0,
                old(self)@.lenient,
                k,
                false,
                true,
            ) matches Some(JsonLdIdOrKeywordV::Id(iri)) ==> events_view(final(results)@)
                == events_view(old(results)@) + start_object_events(
                strings_view(types@),
                opt_str_view(id),
            ) + seq![JsonLdEventV::StartProperty(iri)])),
            step_post(
                spec_step_object_start(
                    old(self)@,
                    strings_view(types@),
                    opt_str_view(id),
                    event@,
                ),
                old(self)@,
                final(self)@,
                events_view(old(results)@),
                events_view(final(results)@),
                diags_view(old(errors)@),
                diags_view(final(errors)@),
            ),
    {
        let ghost popped: StateV = StateV::ObjectStart {
            types: strings_view(types@),
            id: opt_str_view(id),
        };
        let ghost basef = frames_of(old(self)@.states) + state_frames(popped);
        match event {
            JsonEvent::ObjectKey(key) => {
                match self.expand_iri(key, false, true) {
                    Some(JsonLdIdOrKeyword::Id(iri)) => {
                        let ghost e1 = JsonLdEventV::StartObject { types: strings_view(types@) };
                        let ghost has_id = id is Some;
                        let ghost e2 = if id is Some {
                            JsonLdEventV::Id(id->Some_0@)
                        } else {
                            JsonLdEventV::EndObject
                        };
                        let ghost e3 = JsonLdEventV::StartProperty(iri@);
                        emit_event(results, JsonLdEvent::StartObject { types });
                        if let Some(id_value) = id {
                            emit_event(results, JsonLdEvent::Id(id_value));
                        }
                        emit_event(results, JsonLdEvent::StartProperty(iri));
                        let ghost mid = self@.states;
                        let st = JsonLdExpansionState::Object { in_property: true };
                        let ghost stv = st@;
                        self.push_state(st);
                        let ghost mid2 = self@.states;
                        self.push_state(JsonLdExpansionState::Element);
                        proof {
                            lemma_units_push(mid, stv);
                            lemma_frames_push(mid, stv);
                            lemma_units_push(mid2, StateV::Element);
                            lemma_frames_push(mid2, StateV::Element);
                            let tv = strings_view(types@);
                            let idv = opt_str_view(id);
                            if has_id {
                                lemma_apply3(basef, e1, e2, e3);
                                assert(events_view(results@).skip(
                                    events_view(old(results)@).len() as int,
                                ) =~= seq![e1, e2, e3]);
                                assert(start_object_events(tv, idv) =~= seq![e1, e2]);
                                assert(events_view(results@) =~= events_view(old(results)@)
                                    + start_object_events(tv, idv) + seq![e3]);
                                assert(events_view(results@) =~= events_view(old(results)@)
                                    + (start_object_events(tv, idv) + seq![e3]));
                            } else {
                                lemma_apply2(basef, e1, e3);
                                assert(events_view(results@).skip(
                                    events_view(old(results)@).len() as int,
                                ) =~= seq![e1, e3]);
                                assert(start_object_events(tv, idv) =~= seq![e1]);
                                assert(events_view(results@) =~= events_view(old(results)@)
                                    + (start_object_events(tv, idv) + seq![e3]));
                            }
                            assert(frames_of(final(self)@.states) =~= basef.push(
                                FrameV::ObjectScope,
                            ).push(FrameV::PropertyScope));
                        }
                    },
                    Some(JsonLdIdOrKeyword::Keyword(keyword)) => {
                        if string_eq(keyword.as_str(), "context") {
                            let ghost mid = self@.states;
                            let st = JsonLdExpansionState::ToNode {
                                stack: Vec::new(),
                                current_key: None,
                                end_state: JsonLdAfterBuffering::Context,
                            };
                            let ghost stv = st@;
                            self.push_state(st);
                            proof {
                                lemma_units_push(mid, stv);
                                lemma_frames_push(mid, stv);
                                assert(stv == (StateV::ToNode {
                                    stack: Seq::<(JsonNodeV, Option<Seq<char>>)>::empty(),
                                    current_key: None,
                                    end_state: JsonLdAfterBuffering::Context,
                                })) by {
                                    assert(tonode_stack_view(
                                        Seq::<(JsonNode, Option<String>)>::empty(),
                                    ) =~= Seq::<(JsonNodeV, Option<Seq<char>>)>::empty());
                                }
                            }
                        } else if string_eq(keyword.as_str(), "type") {
                            let ghost mid = self@.states;
                            let st = JsonLdExpansionState::ObjectType { types, id };
                            let ghost stv = st@;
                            self.push_state(st);
                            proof {
                                lemma_units_push(mid, stv);
                                lemma_frames_push(mid, stv);
                            }
                        } else if string_eq(keyword.as_str(), "value") {
                            if types.len() > 1 {
                                emit_error(
                                    errors,
                                    JsonLdSyntaxError::msg_and_code(
                                        "Only a single @type is allowed when @value is present",
                                        JsonLdErrorCode::InvalidTypedValue,
                                    ),
                                );
                                proof {
                                    assert(diags_view(errors@) =~= diags_view(old(errors)@) + seq![
                                        diag("Only a single @type is allowed when @value is present"@, Some(JsonLdErrorCode::InvalidTypedValue)),
                                    ]);
                                }
                            }
                            let ghost mid = self@.states;
                            let st = JsonLdExpansionState::ValueValue {
                                value_type: None,
                                language: None,
                            };
                            let ghost stv = st@;
                            self.push_state(st);
                            proof {
                                lemma_units_push(mid, stv);
                                lemma_frames_push(mid, stv);
                            }
                        } else if string_eq(keyword.as_str(), "language") {
                            if types.len() > 1 {
                                emit_error(
                                    errors,
                                    JsonLdSyntaxError::msg_and_code(
                                        "Only a single @language is allowed",
                                        JsonLdErrorCode::CollidingKeywords,
                                    ),
                                );
                                proof {
                                    assert(diags_view(errors@) =~= diags_view(old(errors)@) + seq![
                                        diag("Only a single @language is allowed"@, Some(JsonLdErrorCode::CollidingKeywords)),
                                    ]);
                                }
                            }
                            let ghost mid = self@.states;
                            let st = JsonLdExpansionState::ValueLanguage {
                                value_type: None,
                                value: None,
                            };
                            let ghost stv = st@;
                            self.push_state(st);
                            proof {
                                lemma_units_push(mid, stv);
                                lemma_frames_push(mid, stv);
                            }
                        } else if string_eq(keyword.as_str(), "id") {
                            if id.is_some() {
                                emit_error(
                                    errors,
                                    JsonLdSyntaxError::msg_and_code(
                                        "Only a single @id is allowed",
                                        JsonLdErrorCode::CollidingKeywords,
                                    ),
                                );
                                proof {
                                    assert(diags_view(errors@) =~= diags_view(old(errors)@) + seq![
                                        diag("Only a single @id is allowed"@, Some(JsonLdErrorCode::CollidingKeywords)),
                                    ]);
                                }
                            }
                            let ghost mid = self@.states;
                            let st = JsonLdExpansionState::ObjectId {
                                types,
                                id,
                                from_start: true,
                            };
                            let ghost stv = st@;
                            self.push_state(st);
                            proof {
                                lemma_units_push(mid, stv);
                                lemma_frames_push(mid, stv);
                            }
                        } else {
                            emit_error(
                                errors,
                                JsonLdSyntaxError::msg(
                                    str_concat(
                                        "Unsupported JSON-LD keyword: @",
                                        keyword.as_str(),
                                    ).as_str(),
                                ),
                            );
                            proof {
                                assert(diags_view(errors@) =~= diags_view(old(errors)@) + seq![
                                    diag("Unsupported JSON-LD keyword: @"@ + keyword@, None),
                                ]);
                            }
                            let ghost mid = self@.states;
                            let st = JsonLdExpansionState::ObjectStart { types, id };
                            let ghost stv = st@;
                            self.push_state(st);
                            let ghost mid2 = self@.states;
                            self.push_state(JsonLdExpansionState::Skip);
                            proof {
                                lemma_units_push(mid, stv);
                                lemma_frames_push(mid, stv);
                                lemma_units_push(mid2, StateV::Skip);
                                lemma_frames_push(mid2, StateV::Skip);
                            }
                        }
                        proof {
                            lemma_apply0(basef);
                            assert(events_view(results@).skip(
                                events_view(old(results)@).len() as int,
                            ) =~= Seq::<JsonLdEventV>::empty());
                            assert(frames_of(final(self)@.states) =~= basef);
                        }
                    },
                    None => {
                        let ghost mid = self@.states;
                        let st = JsonLdExpansionState::ObjectStart { types, id };
                        let ghost stv = st@;
                        self.push_state(st);
                        let ghost mid2 = self@.states;
                        self.push_state(JsonLdExpansionState::Skip);
                        proof {
                            lemma_units_push(mid, stv);
                            lemma_frames_push(mid, stv);
                            lemma_units_push(mid2, StateV::Skip);
                            lemma_frames_push(mid2, StateV::Skip);
                            lemma_apply0(basef);
                            assert(events_view(results@).skip(
                                events_view(old(results)@).len() as int,
                            ) =~= Seq::<JsonLdEventV>::empty());
                            assert(frames_of(final(self)@.states) =~= basef);
                        }
                    },
                }
            },
            JsonEvent::EndObject => {
                let ghost e1 = JsonLdEventV::StartObject { types: strings_view(types@) };
                let ghost has_id = id is Some;
                let ghost e2 = if id is Some {
                    JsonLdEventV::Id(id->Some_0@)
                } else {
                    JsonLdEventV::EndObject
                };
                emit_event(results, JsonLdEvent::StartObject { types });
                if let Some(id_value) = id {
                    emit_event(results, JsonLdEvent::Id(id_value));
                }
                emit_event(results, JsonLdEvent::EndObject);
                self.release_context_unit();
                proof {
                    let tv = strings_view(types@);
                    let idv = opt_str_view(id);
                    if has_id {
                        lemma_apply3(basef, e1, e2, JsonLdEventV::EndObject);
                        assert(events_view(results@).skip(
                            events_view(old(results)@).len() as int,
                        ) =~= seq![e1, e2, JsonLdEventV::EndObject]);
                        assert(start_object_events(tv, idv) =~= seq![e1, e2]);
                    } else {
                        lemma_apply2(basef, e1, JsonLdEventV::EndObject);
                        assert(events_view(results@).skip(
                            events_view(old(results)@).len() as int,
                        ) =~= seq![e1, JsonLdEventV::EndObject]);
                        assert(start_object_events(tv, idv) =~= seq![e1]);
                    }
                    assert(events_view(results@) =~= events_view(old(results)@)
                        + (start_object_events(tv, idv) + seq![JsonLdEventV::EndObject]));
                    assert(basef.push(FrameV::ObjectScope).drop_last() =~= basef);
                    assert(frames_of(final(self)@.states) =~= basef);
                }
            },
            _ => {
                emit_error(errors, JsonLdSyntaxError::msg("malformed JSON token stream"));
                proof {
                    assert(diags_view(errors@) =~= diags_view(old(errors)@) + seq![
                        diag("malformed JSON token stream"@, None),
                    ]);
                }
                let ghost mid = self@.states;
                let st = JsonLdExpansionState::ObjectStart { types, id };
                let ghost stv = st@;
                self.push_state(st);
                proof {
                    lemma_units_push(mid, stv);
                    lemma_frames_push(mid, stv);
                    lemma_apply0(basef);
                    assert(events_view(results@).skip(events_view(old(results)@).len() as int)
                        =~= Seq::<JsonLdEventV>::empty());
                    assert(frames_of(final(self)@.states) =~= basef);
                }
            },
        }
        proof {
            assert(events_view(old(results)@).is_prefix_of(events_view(results@)));
            assert(diags_view(old(errors)@).is_prefix_of(diags_view(errors@)));
            assert(events_view(results@) =~= events_view(old(results)@) + events_view(
                results@,
            ).skip(events_view(old(results)@).len() as int));
            assert(diags_view(errors@) =~= diags_view(old(errors)@) + diags_view(errors@).skip(
                diags_view(old(errors)@).len() as int,
            ));
        }
    }

    /// `Object`: further keys of a committed node object are read; an open
    /// property scope is closed before the next key or the object end.
    #[verifier::rlimit(60)]
    fn on_object(
        &mut self,
        in_property: bool,
        event: JsonEvent,
        results: &mut Vec<JsonLdEvent>,
        errors: &mut Vec<JsonLdSyntaxError>,
    )
        requires
            handler_pre(old(self)@, (StateV::Object { in_property })),
            !(event@ is Eof),
        ensures
            handler_ok(
                old(self)@,
                (StateV::Object { in_property }),
                final(self)@,
                events_view(old(results)@),
                events_view(final(results)@),
                diags_view(old(errors)@),
                diags_view(final(errors)@),
            ),
            (event@ is EndObject ==> events_view(final(results)@) == events_view(old(results)@)
                + (if in_property {
                seq![JsonLdEventV::EndProperty, JsonLdEventV::EndObject]
            } else {
                seq![JsonLdEventV::EndObject]
            })),
            (event@ matches JsonEventV::ObjectKey(k) ==> (spec_expand_iri(
                old(self)@.contexts.last().0,
                old(self)@.lenient,
                k,
                false,
                true,
            ) matches Some(JsonLdIdOrKeywordV::Id(iri)) ==> events_view(final(results)@)
                == events_view(old(results)@) + (if in_property {
                seq![JsonLdEventV::EndProperty]
            } else {
                Seq::<JsonLdEventV>::empty()
            }) + seq![JsonLdEventV::StartProperty(iri)])),
            step_post(
                spec_step_object(old(self)@, in_property, event@),
                old(self)@,
                final(self)@,
                events_view(old(results)@),
                events_view(final(results)@),
                diags_view(old(errors)@),
                diags_view(final(errors)@),
            ),
    {
        let ghost popped: StateV = StateV::Object { in_property };
        let ghost basef = frames_of(old(self)@.states) + state_frames(popped);
        let ghost objf = frames_of(old(self)@.states).push(FrameV::ObjectScope);
        proof {
            if in_property {
                assert(basef =~= objf.push(FrameV::PropertyScope));
            } else {
                assert(basef =~= objf);
            }
        }
        match event {
            JsonEvent::EndObject => {
                if in_property {
                    emit_event(results, JsonLdEvent::EndProperty);
                }
                emit_event(results, JsonLdEvent::EndObject);
                self.release_context_unit();
                proof {
                    assert(objf.drop_last() =~= frames_of(old(self)@.states));
                    if in_property {
                        assert(basef.drop_last() =~= objf);
                        lemma_apply2(basef, JsonLdEventV::EndProperty, JsonLdEventV::EndObject);
                        assert(events_view(results@).skip(
                            events_view(old(results)@).len() as int,
                        ) =~= seq![JsonLdEventV::EndProperty, JsonLdEventV::EndObject]);
                        assert(events_view(results@) =~= events_view(old(results)@) + (seq![
                            JsonLdEventV::EndProperty,
                        ] + seq![JsonLdEventV::EndObject]));
                    } else {
                        lemma_apply1(basef, JsonLdEventV::EndObject);
                        assert(events_view(results@).skip(
                            events_view(old(results)@).len() as int,
                        ) =~= seq![JsonLdEventV::EndObject]);
                        assert(events_view(results@) =~= events_view(old(results)@) + (
                        Seq::<JsonLdEventV>::empty() + seq![JsonLdEventV::EndObject]));
                    }
                    assert(frames_of(final(self)@.states) =~= frames_of(old(self)@.states));
                }
            },
            JsonEvent::ObjectKey(key) => {
                let ghost pre_key_events = events_view(results@);
                if in_property {
                    emit_event(results, JsonLdEvent::EndProperty);
                }
                match self.expand_iri(key, false, true) {
                    Some(JsonLdIdOrKeyword::Id(iri)) => {
                        let ghost e_sp = JsonLdEventV::StartProperty(iri@);
                        let ghost mid = self@.states;
                        let st = JsonLdExpansionState::Object { in_property: true };
                        let ghost stv = st@;
                        self.push_state(st);
                        let ghost mid2 = self@.states;
                        self.push_state(JsonLdExpansionState::Element);
                        emit_event(results, JsonLdEvent::StartProperty(iri));
                        proof {
                            lemma_units_push(mid, stv);
                            lemma_frames_push(mid, stv);
                            lemma_units_push(mid2, StateV::Element);
                            lemma_frames_push(mid2, StateV::Element);
                            if in_property {
                                lemma_apply2(basef, JsonLdEventV::EndProperty, e_sp);
                                assert(basef.drop_last() =~= objf);
                                assert(events_view(results@).skip(
                                    events_view(old(results)@).len() as int,
                                ) =~= seq![JsonLdEventV::EndProperty, e_sp]);
                                assert(events_view(results@) =~= events_view(old(results)@)
                                    + (seq![JsonLdEventV::EndProperty] + seq![e_sp]));
                            } else {
                                lemma_apply1(basef, e_sp);
                                assert(events_view(results@).skip(
                                    events_view(old(results)@).len() as int,
                                ) =~= seq![e_sp]);
                                assert(events_view(results@) =~= events_view(old(results)@)
                                    + (Seq::<JsonLdEventV>::empty() + seq![e_sp]));
                            }
                            assert(frames_of(final(self)@.states) =~= objf.push(
                                FrameV::PropertyScope,
                            ));
                        }
                    },
                    Some(JsonLdIdOrKeyword::Keyword(keyword)) => {
                        if string_eq(keyword.as_str(), "id") {
                            let ghost mid = self@.states;
                            let st = JsonLdExpansionState::ObjectId {
                                types: Vec::new(),
                                id: None,
                                from_start: false,
                            };
                            let ghost stv = st@;
                            self.push_state(st);
                            proof {
                                lemma_units_push(mid, stv);
                                lemma_frames_push(mid, stv);
                                assert(state_frames(stv) =~= seq![FrameV::ObjectScope]);
                                assert(stv == (StateV::ObjectId {
                                    types: Seq::<Seq<char>>::empty(),
                                    id: None,
                                    from_start: false,
                                })) by {
                                    assert(strings_view(Seq::<String>::empty())
                                        =~= Seq::<Seq<char>>::empty());
                                }
                            }
                        } else {
                            emit_error(
                                errors,
                                JsonLdSyntaxError::msg(
                                    str_concat("Unsupported keyword: ", keyword.as_str()).as_str(),
                                ),
                            );
                            proof {
                                assert(diags_view(errors@) =~= diags_view(old(errors)@) + seq![
                                    diag("Unsupported keyword: "@ + keyword@, None),
                                ]);
                            }
                            let ghost mid = self@.states;
                            let st = JsonLdExpansionState::Object { in_property: false };
                            let ghost stv = st@;
                            self.push_state(st);
                            let ghost mid2 = self@.states;
                            self.push_state(JsonLdExpansionState::Skip);
                            proof {
                                lemma_units_push(mid, stv);
                                lemma_frames_push(mid, stv);
                                lemma_units_push(mid2, StateV::Skip);
                                lemma_frames_push(mid2, StateV::Skip);
                            }
                        }
                        proof {
                            if in_property {
                                lemma_apply1(basef, JsonLdEventV::EndProperty);
                                assert(basef.drop_last() =~= objf);
                                assert(events_view(results@).skip(
                                    events_view(old(results)@).len() as int,
                                ) =~= seq![JsonLdEventV::EndProperty]);
                            } else {
                                lemma_apply0(basef);
                                assert(events_view(results@).skip(
                                    events_view(old(results)@).len() as int,
                                ) =~= Seq::<JsonLdEventV>::empty());
                            }
                            assert(frames_of(final(self)@.states) =~= objf);
                        }
                    },
                    None => {
                        let ghost mid = self@.states;
                        let st = JsonLdExpansionState::Object { in_property: false };
                        let ghost stv = st@;
                        self.push_state(st);
                        let ghost mid2 = self@.states;
                        self.push_state(JsonLdExpansionState::Skip);
                        proof {
                            lemma_units_push(mid, stv);
                            lemma_frames_push(mid, stv);
                            lemma_units_push(mid2, StateV::Skip);
                            lemma_frames_push(mid2, StateV::Skip);
                            if in_property {
                                lemma_apply1(basef, JsonLdEventV::EndProperty);
                                assert(basef.drop_last() =~= objf);
                                assert(events_view(results@).skip(
                                    events_view(old(results)@).len() as int,
                                ) =~= seq![JsonLdEventV::EndProperty]);
                            } else {
                                lemma_apply0(basef);
                                assert(events_view(results@).skip(
                                    events_view(old(results)@).len() as int,
                                ) =~= Seq::<JsonLdEventV>::empty());
                            }
                            assert(frames_of(final(self)@.states) =~= objf);
                        }
                    },
                }
            },
            _ => {
                emit_error(errors, JsonLdSyntaxError::msg("malformed JSON token stream"));
                proof {
                    assert(diags_view(errors@) =~= diags_view(old(errors)@) + seq![
                        diag("malformed JSON token stream"@, None),
                    ]);
                }
                let ghost mid = self@.states;
                let st = JsonLdExpansionState::Object { in_property };
                let ghost stv = st@;
                self.push_state(st);
                proof {
                    lemma_units_push(mid, stv);
                    lemma_frames_push(mid, stv);
                    lemma_apply0(basef);
                    assert(events_view(results@).skip(events_view(old(results)@).len() as int)
                        =~= Seq::<JsonLdEventV>::empty());
                    assert(frames_of(final(self)@.states) =~= basef);
                }
            },
        }
        proof {
            assert(events_view(old(results)@).is_prefix_of(events_view(results@)));
            assert(diags_view(old(errors)@).is_prefix_of(diags_view(errors@)));
            assert(events_view(results@) =~= events_view(old(results)@) + events_view(
                results@,
            ).skip(events_view(old(results)@).len() as int));
            assert(diags_view(errors@) =~= diags_view(old(errors)@) + diags_view(errors@).skip(
                diags_view(old(errors)@).len() as int,
            ));
        }
    }
}

impl JsonLdExpansionConverter {
    /// `Value`: further keys of a committed value object are read, confined
    /// to `@value`, `@language` and `@type`; at the object end a single
    /// literal event is emitted if a value is present.
    #[verifier::rlimit(60)]
    fn on_value(
        &mut self,
        value_type: Option<String>,
        value: Option<JsonLdValue>,
        language: Option<String>,
        event: JsonEvent,
        results: &mut Vec<JsonLdEvent>,
        errors: &mut Vec<JsonLdSyntaxError>,
    )
        requires
            handler_pre(
                old(self)@,
                (StateV::Value {
                    value_type: opt_str_view(value_type),
                    value: opt_value_view(value),
                    language: opt_str_view(language),
                }),
            ),
            !(event@ is Eof),
        ensures
            handler_ok(
                old(self)@,
                (StateV::Value {
                    value_type: opt_str_view(value_type),
                    value: opt_value_view(value),
                    language: opt_str_view(language),
                }),
                final(self)@,
                events_view(old(results)@),
                events_view(final(results)@),
                diags_view(old(errors)@),
                diags_view(final(errors)@),
            ),
            (event@ is EndObject && opt_value_view(value) is Some ==> events_view(
                final(results)@,
            ) == events_view(old(results)@).push(
                JsonLdEventV::Value {
                    value: opt_value_view(value)->Some_0,
                    value_type: opt_str_view(value_type),
                    language: opt_str_view(language),
                },
            )),
            (event@ is EndObject && opt_value_view(value) is None ==> events_view(
                final(results)@,
            ) == events_view(old(results)@)),
            step_post(
                spec_step_value(
                    old(self)@,
                    opt_str_view(value_type),
                    opt_value_view(value),
                    opt_str_view(language),
                    event@,
                ),
                old(self)@,
                final(self)@,
                events_view(old(results)@),
                events_view(final(results)@),
                diags_view(old(errors)@),
                diags_view(final(errors)@),
            ),
    {
        let ghost popped: StateV = StateV::Value {
            value_type: opt_str_view(value_type),
            value: opt_value_view(value),
            language: opt_str_view(language),
        };
        let ghost basef = frames_of(old(self)@.states) + state_frames(popped);
        match event {
            JsonEvent::EndObject => {
                let ghost emitted: Seq<JsonLdEventV> = if value is Some {
                    seq![
                        JsonLdEventV::Value {
                            value: opt_value_view(value)->Some_0,
                            value_type: opt_str_view(value_type),
                            language: opt_str_view(language),
                        },
                    ]
                } else {
                    Seq::empty()
                };
                if let Some(v) = value {
                    let ghost expected_errors = (if opt_str_view(language) is Some
                        && opt_str_view(value_type) is Some {
                        seq![
                            diag(
                                "@type and @language cannot be used together"@,
                                Some(JsonLdErrorCode::InvalidValueObject),
                            ),
                        ]
                    } else {
                        Seq::<JsonLdSyntaxErrorV>::empty()
                    }) + (if opt_str_view(language) is Some && !(v@ is String) {
                        seq![
                            diag(
                                "@language can be used only on a string @value"@,
                                Some(JsonLdErrorCode::InvalidLanguageTaggedValue),
                            ),
                        ]
                    } else {
                        Seq::<JsonLdSyntaxErrorV>::empty()
                    });
                    if language.is_some() && value_type.is_some() {
                        emit_error(
                            errors,
                            JsonLdSyntaxError::msg_and_code(
                                "@type and @language cannot be used together",
                                JsonLdErrorCode::InvalidValueObject,
                            ),
                        );
                    }
                    let value_is_string = match &v {
                        JsonLdValue::String(_) => true,
                        _ => false,
                    };
                    if language.is_some() && !value_is_string {
                        emit_error(
                            errors,
                            JsonLdSyntaxError::msg_and_code(
                                "@language can be used only on a string @value",
                                JsonLdErrorCode::InvalidLanguageTaggedValue,
                            ),
                        );
                    }
                    proof {
                        assert(diags_view(errors@) =~= diags_view(old(errors)@)
                            + expected_errors);
                    }
                    emit_event(results, JsonLdEvent::Value { value: v, value_type, language });
                }
                self.release_context_unit();
                proof {
                    if emitted.len() == 1 {
                        lemma_apply1(basef, emitted[0]);
                    } else {
                        lemma_apply0(basef);
                    }
                    assert(events_view(results@).skip(events_view(old(results)@).len() as int)
                        =~= emitted);
                    assert(events_view(results@) =~= events_view(old(results)@) + emitted);
                    assert(frames_of(final(self)@.states) =~= basef);
                }
            },
            JsonEvent::ObjectKey(key) => {
                match self.expand_iri(key, false, true) {
                    Some(JsonLdIdOrKeyword::Id(iri)) => {
                        emit_error(
                            errors,
                            JsonLdSyntaxError::msg_and_code(
                                str_concat(
                                    str_concat(
                                        "Objects with @value cannot contain properties, ",
                                        iri.as_str(),
                                    ).as_str(),
                                    " found",
                                ).as_str(),
                                JsonLdErrorCode::InvalidValueObject,
                            ),
                        );
                        proof {
                            assert(diags_view(errors@) =~= diags_view(old(errors)@) + seq![
                                diag(
                                    "Objects with @value cannot contain properties, "@ + iri@
                                        + " found"@,
                                    Some(JsonLdErrorCode::InvalidValueObject),
                                ),
                            ]);
                        }
                        let ghost mid = self@.states;
                        let st = JsonLdExpansionState::Value { value_type, value, language };
                        let ghost stv = st@;
                        self.push_state(st);
                        let ghost mid2 = self@.states;
                        self.push_state(JsonLdExpansionState::Skip);
                        proof {
                            lemma_units_push(mid, stv);
                            lemma_frames_push(mid, stv);
                            lemma_units_push(mid2, StateV::Skip);
                            lemma_frames_push(mid2, StateV::Skip);
                        }
                    },
                    Some(JsonLdIdOrKeyword::Keyword(keyword)) => {
                        if string_eq(keyword.as_str(), "value") {
                            if value.is_some() {
                                emit_error(
                                    errors,
                                    JsonLdSyntaxError::msg_and_code(
                                        "@value cannot be set multiple times",
                                        JsonLdErrorCode::InvalidValueObject,
                                    ),
                                );
                                proof {
                                    assert(diags_view(errors@) =~= diags_view(old(errors)@) + seq![
                                        diag("@value cannot be set multiple times"@, Some(JsonLdErrorCode::InvalidValueObject)),
                                    ]);
                                }
                                let ghost mid = self@.states;
                                let st = JsonLdExpansionState::Value {
                                    value_type,
                                    value,
                                    language,
                                };
                                let ghost stv = st@;
                                self.push_state(st);
                                let ghost mid2 = self@.states;
                                self.push_state(JsonLdExpansionState::Skip);
                                proof {
                                    lemma_units_push(mid, stv);
                                    lemma_frames_push(mid, stv);
                                    lemma_units_push(mid2, StateV::Skip);
                                    lemma_frames_push(mid2, StateV::Skip);
                                }
                            } else {
                                let ghost mid = self@.states;
                                let st = JsonLdExpansionState::ValueValue {
                                    value_type,
                                    language,
                                };
                                let ghost stv = st@;
                                self.push_state(st);
                                proof {
                                    lemma_units_push(mid, stv);
                                    lemma_frames_push(mid, stv);
                                }
                            }
                        } else if string_eq(keyword.as_str(), "language") {
                            if language.is_some() {
                                emit_error(
                                    errors,
                                    JsonLdSyntaxError::msg_and_code(
                                        "@language cannot be set multiple times",
                                        JsonLdErrorCode::CollidingKeywords,
                                    ),
                                );
                                proof {
                                    assert(diags_view(errors@) =~= diags_view(old(errors)@) + seq![
                                        diag("@language cannot be set multiple times"@, Some(JsonLdErrorCode::CollidingKeywords)),
                                    ]);
                                }
                                let ghost mid = self@.states;
                                let st = JsonLdExpansionState::Value {
                                    value_type,
                                    value,
                                    language,
                                };
                                let ghost stv = st@;
                                self.push_state(st);
                                let ghost mid2 = self@.states;
                                self.push_state(JsonLdExpansionState::Skip);
                                proof {
                                    lemma_units_push(mid, stv);
                                    lemma_frames_push(mid, stv);
                                    lemma_units_push(mid2, StateV::Skip);
                                    lemma_frames_push(mid2, StateV::Skip);
                                }
                            } else {
                                let ghost mid = self@.states;
                                let st = JsonLdExpansionState::ValueLanguage {
                                    value_type,
                                    value,
                                };
                                let ghost stv = st@;
                                self.push_state(st);
                                proof {
                                    lemma_units_push(mid, stv);
                                    lemma_frames_push(mid, stv);
                                }
                            }
                        } else if string_eq(keyword.as_str(), "type") {
                            if value_type.is_some() {
                                emit_error(
                                    errors,
                                    JsonLdSyntaxError::msg_and_code(
                                        "@type cannot be set multiple times",
                                        JsonLdErrorCode::CollidingKeywords,
                                    ),
                                );
                                proof {
                                    assert(diags_view(errors@) =~= diags_view(old(errors)@) + seq![
                                        diag("@type cannot be set multiple times"@, Some(JsonLdErrorCode::CollidingKeywords)),
                                    ]);
                                }
                                let ghost mid = self@.states;
                                let st = JsonLdExpansionState::Value {
                                    value_type,
                                    value,
                                    language,
                                };
                                let ghost stv = st@;
                                self.push_state(st);
                                let ghost mid2 = self@.states;
                                self.push_state(JsonLdExpansionState::Skip);
                                proof {
                                    lemma_units_push(mid, stv);
                                    lemma_frames_push(mid, stv);
                                    lemma_units_push(mid2, StateV::Skip);
                                    lemma_frames_push(mid2, StateV::Skip);
                                }
                            } else {
                                let ghost mid = self@.states;
                                let st = JsonLdExpansionState::ValueType { value, language };
                                let ghost stv = st@;
                                self.push_state(st);
                                proof {
                                    lemma_units_push(mid, stv);
                                    lemma_frames_push(mid, stv);
                                }
                            }
                        } else {
                            emit_error(
                                errors,
                                JsonLdSyntaxError::msg(
                                    str_concat(
                                        "Unsupported JSON-Ld keyword inside of a @value: @",
                                        keyword.as_str(),
                                    ).as_str(),
                                ),
                            );
                            proof {
                                assert(diags_view(errors@) =~= diags_view(old(errors)@) + seq![
                                    diag(
                                        "Unsupported JSON-Ld keyword inside of a @value: @"@
                                            + keyword@,
                                        None,
                                    ),
                                ]);
                            }
                            let ghost mid = self@.states;
                            let st = JsonLdExpansionState::Value { value_type, value, language };
                            let ghost stv = st@;
                            self.push_state(st);
                            let ghost mid2 = self@.states;
                            self.push_state(JsonLdExpansionState::Skip);
                            proof {
                                lemma_units_push(mid, stv);
                                lemma_frames_push(mid, stv);
                                lemma_units_push(mid2, StateV::Skip);
                                lemma_frames_push(mid2, StateV::Skip);
                            }
                        }
                    },
                    None => {
                        let ghost mid = self@.states;
                        let st = JsonLdExpansionState::Value { value_type, value, language };
                        let ghost stv = st@;
                        self.push_state(st);
                        let ghost mid2 = self@.states;
                        self.push_state(JsonLdExpansionState::Skip);
                        proof {
                            lemma_units_push(mid, stv);
                            lemma_frames_push(mid, stv);
                            lemma_units_push(mid2, StateV::Skip);
                            lemma_frames_push(mid2, StateV::Skip);
                        }
                    },
                }
                proof {
                    lemma_apply0(basef);
                    assert(events_view(results@).skip(events_view(old(results)@).len() as int)
                        =~= Seq::<JsonLdEventV>::empty());
                    assert(frames_of(final(self)@.states) =~= basef);
                }
            },
            _ => {
                emit_error(errors, JsonLdSyntaxError::msg("malformed JSON token stream"));
                proof {
                    assert(diags_view(errors@) =~= diags_view(old(errors)@) + seq![
                        diag("malformed JSON token stream"@, None),
                    ]);
                }
                let ghost mid = self@.states;
                let st = JsonLdExpansionState::Value { value_type, value, language };
                let ghost stv = st@;
                self.push_state(st);
                proof {
                    lemma_units_push(mid, stv);
                    lemma_frames_push(mid, stv);
                    lemma_apply0(basef);
                    assert(events_view(results@).skip(events_view(old(results)@).len() as int)
                        =~= Seq::<JsonLdEventV>::empty());
                    assert(frames_of(final(self)@.states) =~= basef);
                }
            },
        }
        proof {
            assert(events_view(old(results)@).is_prefix_of(events_view(results@)));
            assert(diags_view(old(errors)@).is_prefix_of(diags_view(errors@)));
            assert(events_view(results@) =~= events_view(old(results)@) + events_view(
                results@,
            ).skip(events_view(old(results)@).len() as int));
            assert(diags_view(errors@) =~= diags_view(old(errors)@) + diags_view(errors@).skip(
                diags_view(old(errors)@).len() as int,
            ));
        }
    }
}

impl JsonLdExpansionConverter {
    /// A complete `@context` subtree has been buffered: the scope's copied
    /// context entry is replaced by the processed one, and key reading
    /// resumes.
    fn after_buffering(
        &mut self,
        node: JsonNode,
        end_state: JsonLdAfterBuffering,
        errors: &mut Vec<JsonLdSyntaxError>,
    )
        requires
            old(self)@.contexts.len() >= 1,
            forall|i: int| 0 <= i < old(self)@.contexts.len()
                ==> (#[trigger] old(self)@.contexts[i]).1 >= 1,
            sum_refcounts(old(self)@.contexts) == 2 + units(old(self)@.states),
            old(self)@.states.len() <= 4095,
        ensures
            final(self)@.is_end == old(self)@.is_end,
            final(self)@.lenient == old(self)@.lenient,
            final(self)@.contexts.len() >= 1,
            forall|i: int| 0 <= i < final(self)@.contexts.len()
                ==> (#[trigger] final(self)@.contexts[i]).1 >= 1,
            sum_refcounts(final(self)@.contexts) == 1 + units(final(self)@.states),
            final(self)@.states.len() == old(self)@.states.len() + 1,
            frames_of(final(self)@.states) == frames_of(old(self)@.states),
            ({
                let out = spec_process_context(
                    spec_new_empty(None),
                    node@,
                    true,
                    false,
                    true,
                    JsonLdProcessingMode::JsonLd1_0,
                    old(self)@.lenient,
                );
                final(self)@.contexts.last() == (out.context, 1nat) && diags_view(
                    final(errors)@,
                ) == diags_view(old(errors)@) + out.diags
            }),
            final(self)@.states.last() == (StateV::ObjectStart {
                types: Seq::empty(),
                id: None,
            }),
            ({
                let st = spec_step_buffered(old(self)@, node@, end_state);
                final(self)@.states == st.states && final(self)@.contexts == st.contexts
                    && final(self)@.is_end == st.is_end && diags_view(final(errors)@)
                    == diags_view(old(errors)@) + st.errors
            }),
    {
        match end_state {
            JsonLdAfterBuffering::Context => {
                self.release_context_unit();
                let ghost mid0 = self@;
                let lenient = self.lenient;
                let new_context = process_context(
                    &JsonLdContext::new_empty(None),
                    node,
                    None,
                    Vec::new(),
                    false,
                    true,
                    JsonLdProcessingMode::JsonLd1_0,
                    lenient,
                    errors,
                );
                let ghost ncv = new_context@;
                self.context.push((new_context, 1));
                proof {
                    assert(self@.contexts =~= mid0.contexts.push((ncv, 1nat)));
                    assert(self@.states =~= mid0.states);
                    lemma_sum_push(mid0.contexts, (ncv, 1nat));
                }
                let ghost mid = self@;
                self.push_state(
                    JsonLdExpansionState::ObjectStart { types: Vec::new(), id: None },
                );
                proof {
                    let newst = StateV::ObjectStart {
                        types: strings_view(Seq::<String>::empty()),
                        id: None,
                    };
                    assert(newst == (StateV::ObjectStart {
                        types: Seq::<Seq<char>>::empty(),
                        id: None,
                    })) by {
                        assert(strings_view(Seq::<String>::empty())
                            =~= Seq::<Seq<char>>::empty());
                    }
                    lemma_units_push(mid.states, newst);
                    lemma_frames_push(mid.states, newst);
                    assert(state_frames(newst) =~= Seq::<FrameV>::empty());
                    assert(frames_of(final(self)@.states) =~= frames_of(old(self)@.states));
                    assert(forall|i: int| 0 <= i < final(self)@.contexts.len()
                        ==> (#[trigger] final(self)@.contexts[i]).1 >= 1) by {
                        assert(forall|i: int| 0 <= i < mid0.contexts.len()
                            ==> final(self)@.contexts[i] == mid0.contexts[i]);
                    }
                    assert(diags_view(old(errors)@).is_prefix_of(diags_view(errors@)));
                }
            },
        }
    }

    /// Places a completed JSON value into the subtree under construction, or
    /// hands the finished subtree on when the stack is empty.
    fn after_to_node_event(
        &mut self,
        stack: Vec<(JsonNode, Option<String>)>,
        current_key: Option<String>,
        end_state: JsonLdAfterBuffering,
        new_value: JsonNode,
        errors: &mut Vec<JsonLdSyntaxError>,
    )
        requires
            old(self)@.contexts.len() >= 1,
            forall|i: int| 0 <= i < old(self)@.contexts.len()
                ==> (#[trigger] old(self)@.contexts[i]).1 >= 1,
            sum_refcounts(old(self)@.contexts) == 2 + units(old(self)@.states),
            old(self)@.states.len() <= 4095,
        ensures
            final(self)@.is_end == old(self)@.is_end,
            final(self)@.lenient == old(self)@.lenient,
            final(self)@.contexts.len() >= 1,
            forall|i: int| 0 <= i < final(self)@.contexts.len()
                ==> (#[trigger] final(self)@.contexts[i]).1 >= 1,
            sum_refcounts(final(self)@.contexts) == 1 + units(final(self)@.states),
            final(self)@.states.len() == old(self)@.states.len() + 1,
            frames_of(final(self)@.states) == frames_of(old(self)@.states),
            diags_view(old(errors)@).is_prefix_of(diags_view(final(errors)@)),
            (stack@.len() == 0 && end_state == JsonLdAfterBuffering::Context ==> ({
                let out = spec_process_context(
                    spec_new_empty(None),
                    new_value@,
                    true,
                    false,
                    true,
                    JsonLdProcessingMode::JsonLd1_0,
                    old(self)@.lenient,
                );
                final(self)@.contexts.last() == (out.context, 1nat) && diags_view(
                    final(errors)@,
                ) == diags_view(old(errors)@) + out.diags
            })),
            ({
                let st = spec_step_placed(
                    old(self)@,
                    tonode_stack_view(stack@),
                    opt_str_view(current_key),
                    new_value@,
                    end_state,
                );
                final(self)@.states == st.states && final(self)@.contexts == st.contexts
                    && final(self)@.is_end == st.is_end && diags_view(final(errors)@)
                    == diags_view(old(errors)@) + st.errors
            }),
    {
        let ghost sv0 = tonode_stack_view(stack@);
        let mut stack = stack;
        if stack.len() == 0 {
            proof {
                assert(sv0.len() == 0);
            }
            self.after_buffering(new_value, end_state, errors);
            return;
        }
        proof {
            assert(sv0.len() > 0);
        }
        let popped = stack.pop();
        if let Some((top_node, top_key)) = popped {
            proof {
                assert((top_node@, opt_str_view(top_key)) == sv0.last());
                assert(tonode_stack_view(stack@) =~= sv0.drop_last());
            }
            let ghost top_key_v = opt_str_view(top_key);
            match top_node {
                JsonNode::Object(entries) => {
                    let ghost entries0 = crate::json::entries_view(entries@);
                    let ghost key_v = opt_str_view(current_key);
                    let ghost node_v = new_value@;
                    let mut entries = entries;
                    match current_key {
                        Some(k) => {
                            crate::json::object_insert(&mut entries, k, new_value);
                        },
                        None => {
                            emit_error(
                                errors,
                                JsonLdSyntaxError::msg("malformed JSON token stream"),
                            );
                            proof {
                                assert(diags_view(errors@) =~= diags_view(old(errors)@) + seq![
                                    malformed_diag(),
                                ]);
                            }
                        },
                    }
                    let ghost new_entries = crate::json::entries_view(entries@);
                    stack.push((JsonNode::Object(entries), top_key));
                    let ghost mid = self@.states;
                    let st = JsonLdExpansionState::ToNode { stack, current_key: None, end_state };
                    let ghost stv = st@;
                    self.push_state(st);
                    proof {
                        lemma_units_push(mid, stv);
                        lemma_frames_push(mid, stv);
                        assert(state_frames(stv) =~= Seq::<FrameV>::empty());
                        assert(frames_of(final(self)@.states) =~= frames_of(old(self)@.states));
                        assert(stv == (StateV::ToNode {
                            stack: sv0.drop_last().push(
                                (JsonNodeV::Object(new_entries), top_key_v),
                            ),
                            current_key: None,
                            end_state,
                        })) by {
                            assert(tonode_stack_view(stack@) =~= sv0.drop_last().push(
                                (JsonNodeV::Object(new_entries), top_key_v),
                            ));
                        }
                        if key_v is None {
                            assert(sv0.drop_last().push((JsonNodeV::Object(new_entries), top_key_v))
                                =~= sv0);
                        } else {
                            assert(diags_view(errors@) =~= diags_view(old(errors)@)
                                + Seq::<JsonLdSyntaxErrorV>::empty());
                        }
                    }
                },
                JsonNode::Array(items) => {
                    let ghost items0 = crate::json::nodes_view(items@);
                    let ghost node_v = new_value@;
                    let mut items = items;
                    items.push(new_value);
                    proof {
                        broadcast use crate::json::lemma_nodes_view_index;

                        assert(crate::json::nodes_view(items@) =~= items0.push(node_v));
                    }
                    stack.push((JsonNode::Array(items), top_key));
                    let ghost mid = self@.states;
                    let st = JsonLdExpansionState::ToNode { stack, current_key, end_state };
                    let ghost stv = st@;
                    self.push_state(st);
                    proof {
                        lemma_units_push(mid, stv);
                        lemma_frames_push(mid, stv);
                        assert(state_frames(stv) =~= Seq::<FrameV>::empty());
                        assert(frames_of(final(self)@.states) =~= frames_of(old(self)@.states));
                        assert(stv == (StateV::ToNode {
                            stack: sv0.drop_last().push(
                                (JsonNodeV::Array(items0.push(node_v)), top_key_v),
                            ),
                            current_key: opt_str_view(current_key),
                            end_state,
                        })) by {
                            assert(tonode_stack_view(stack@) =~= sv0.drop_last().push(
                                (JsonNodeV::Array(items0.push(node_v)), top_key_v),
                            ));
                        }
                        assert(diags_view(errors@) =~= diags_view(old(errors)@)
                            + Seq::<JsonLdSyntaxErrorV>::empty());
                    }
                },
                other => {
                    emit_error(errors, JsonLdSyntaxError::msg("malformed JSON token stream"));
                    proof {
                        assert(diags_view(errors@) =~= diags_view(old(errors)@) + seq![
                            diag("malformed JSON token stream"@, None),
                        ]);
                    }
                    stack.push((other, top_key));
                    let ghost mid = self@.states;
                    let st = JsonLdExpansionState::ToNode { stack, current_key, end_state };
                    let ghost stv = st@;
                    self.push_state(st);
                    proof {
                        lemma_units_push(mid, stv);
                        lemma_frames_push(mid, stv);
                        assert(state_frames(stv) =~= Seq::<FrameV>::empty());
                        assert(frames_of(final(self)@.states) =~= frames_of(old(self)@.states));
                        assert(stv == (StateV::ToNode {
                            stack: sv0,
                            current_key: opt_str_view(current_key),
                            end_state,
                        })) by {
                            assert(tonode_stack_view(stack@) =~= sv0);
                        }
                    }
                },
            }
        }
    }

    /// `ToNode`: an arbitrary JSON subtree (a `@context` value) is buffered
    /// into a node tree, one token at a time.
    #[verifier::rlimit(60)]
    fn on_to_node(
        &mut self,
        stack: Vec<(JsonNode, Option<String>)>,
        current_key: Option<String>,
        end_state: JsonLdAfterBuffering,
        event: JsonEvent,
        results: &mut Vec<JsonLdEvent>,
        errors: &mut Vec<JsonLdSyntaxError>,
    )
        requires
            handler_pre(
                old(self)@,
                (StateV::ToNode {
                    stack: tonode_stack_view(stack@),
                    current_key: opt_str_view(current_key),
                    end_state,
                }),
            ),
            !(event@ is Eof),
        ensures
            handler_ok(
                old(self)@,
                (StateV::ToNode {
                    stack: tonode_stack_view(stack@),
                    current_key: opt_str_view(current_key),
                    end_state,
                }),
                final(self)@,
                events_view(old(results)@),
                events_view(final(results)@),
                diags_view(old(errors)@),
                diags_view(final(errors)@),
            ),
            step_post(
                spec_step_to_node(
                    old(self)@,
                    tonode_stack_view(stack@),
                    opt_str_view(current_key),
                    end_state,
                    event@,
                ),
                old(self)@,
                final(self)@,
                events_view(old(results)@),
                events_view(final(results)@),
                diags_view(old(errors)@),
                diags_view(final(errors)@),
            ),
    {
        let ghost popped: StateV = StateV::ToNode {
            stack: tonode_stack_view(stack@),
            current_key: opt_str_view(current_key),
            end_state,
        };
        let ghost basef = frames_of(old(self)@.states) + state_frames(popped);
        let ghost sv0 = tonode_stack_view(stack@);
        let mut stack = stack;
        match event {
            JsonEvent::String(value) => {
                self.after_to_node_event(
                    stack,
                    current_key,
                    end_state,
                    JsonNode::String(value),
                    errors,
                );
            },
            JsonEvent::Number(value) => {
                self.after_to_node_event(
                    stack,
                    current_key,
                    end_state,
                    JsonNode::Number(value),
                    errors,
                );
            },
            JsonEvent::Boolean(value) => {
                self.after_to_node_event(
                    stack,
                    current_key,
                    end_state,
                    JsonNode::Boolean(value),
                    errors,
                );
            },
            JsonEvent::Null => {
                self.after_to_node_event(stack, current_key, end_state, JsonNode::Null, errors);
            },
            JsonEvent::EndArray | JsonEvent::EndObject => {
                if stack.len() == 0 {
                    emit_error(errors, JsonLdSyntaxError::msg("malformed JSON token stream"));
                    proof {
                        assert(diags_view(errors@) =~= diags_view(old(errors)@) + seq![
                            diag("malformed JSON token stream"@, None),
                        ]);
                    }
                    let ghost mid = self@.states;
                    let st = JsonLdExpansionState::ToNode { stack, current_key, end_state };
                    let ghost stv = st@;
                    self.push_state(st);
                    proof {
                        lemma_units_push(mid, stv);
                        lemma_frames_push(mid, stv);
                    }
                } else {
                    let popped_node = stack.pop();
                    if let Some((node, saved_key)) = popped_node {
                        proof {
                            assert((node@, opt_str_view(saved_key)) == sv0.last());
                            assert(tonode_stack_view(stack@) =~= sv0.drop_last());
                        }
                        self.after_to_node_event(stack, saved_key, end_state, node, errors);
                    }
                }
            },
            JsonEvent::StartArray => {
                let ghost key_v = opt_str_view(current_key);
                stack.push((JsonNode::Array(Vec::new()), current_key));
                let ghost mid = self@.states;
                let st = JsonLdExpansionState::ToNode { stack, current_key: None, end_state };
                let ghost stv = st@;
                self.push_state(st);
                proof {
                    lemma_units_push(mid, stv);
                    lemma_frames_push(mid, stv);
                    assert(stv == (StateV::ToNode {
                        stack: sv0.push((JsonNodeV::Array(Seq::empty()), key_v)),
                        current_key: None,
                        end_state,
                    })) by {
                        assert(crate::json::nodes_view(Seq::<JsonNode>::empty())
                            =~= Seq::<JsonNodeV>::empty());
                        assert(tonode_stack_view(stack@) =~= sv0.push(
                            (JsonNodeV::Array(Seq::empty()), key_v),
                        ));
                    }
                }
            },
            JsonEvent::StartObject => {
                let ghost key_v = opt_str_view(current_key);
                stack.push((JsonNode::Object(Vec::new()), current_key));
                let ghost mid = self@.states;
                let st = JsonLdExpansionState::ToNode { stack, current_key: None, end_state };
                let ghost stv = st@;
                self.push_state(st);
                proof {
                    lemma_units_push(mid, stv);
                    lemma_frames_push(mid, stv);
                    assert(stv == (StateV::ToNode {
                        stack: sv0.push((JsonNodeV::Object(Seq::empty()), key_v)),
                        current_key: None,
                        end_state,
                    })) by {
                        assert(crate::json::entries_view(Seq::<(String, JsonNode)>::empty())
                            =~= Seq::<(Seq<char>, JsonNodeV)>::empty());
                        assert(tonode_stack_view(stack@) =~= sv0.push(
                            (JsonNodeV::Object(Seq::empty()), key_v),
                        ));
                    }
                }
            },
            JsonEvent::ObjectKey(key) => {
                let ghost mid = self@.states;
                let st = JsonLdExpansionState::ToNode {
                    stack,
                    current_key: Some(key),
                    end_state,
                };
                let ghost stv = st@;
                self.push_state(st);
                proof {
                    lemma_units_push(mid, stv);
                    lemma_frames_push(mid, stv);
                }
            },
            JsonEvent::Eof => {},
        }
        proof {
            lemma_apply0(basef);
            assert(events_view(results@).skip(events_view(old(results)@).len() as int)
                =~= Seq::<JsonLdEventV>::empty());
            assert(frames_of(final(self)@.states) =~= basef);
            assert(events_view(old(results)@).is_prefix_of(events_view(results@)));
            assert(diags_view(old(errors)@).is_prefix_of(diags_view(errors@)));
            assert(events_view(results@) =~= events_view(old(results)@)
                + Seq::<JsonLdEventV>::empty());
            assert(diags_view(errors@) =~= diags_view(old(errors)@) + diags_view(errors@).skip(
                diags_view(old(errors)@).len() as int,
            ));
        }
    }
}

/// With no state left, the context stack has shrunk back to one entry owned
/// once by the document.
proof fn lemma_document_done(c: ConverterV)
    requires
        c.contexts.len() >= 1,
        forall|i: int| 0 <= i < c.contexts.len() ==> (#[trigger] c.contexts[i]).1 >= 1,
        sum_refcounts(c.contexts) == 1 + units(c.states),
        c.states.len() == 0,
    ensures
        c.contexts.len() == 1,
        c.contexts[0].1 == 1,
{
    assert(units(c.states) == 0);
    lemma_context_singleton(c.contexts);
}

impl JsonLdExpansionConverter {
    /// Consumes one JSON token: the state stack and the context stack move,
    /// zero or more events are appended to `results`, and zero or more
    /// diagnostics to `errors`. The appended events always respect the open
    /// scopes the converter owes, so a completely consumed document leaves a
    /// balanced event stream and a single context entry owned once.
    #[verifier::rlimit(60)]
    pub fn convert_event(
        &mut self,
        event: JsonEvent,
        results: &mut Vec<JsonLdEvent>,
        errors: &mut Vec<JsonLdSyntaxError>,
    )
        requires
            old(self).wf(),
        ensures
            final(self).wf(),
            final(self)@.lenient == old(self)@.lenient,
            final(self)@.is_end == (old(self)@.is_end || (event@ is Eof
                && old(self)@.states.len() <= 4096)),
            events_view(old(results)@).is_prefix_of(events_view(final(results)@)),
            diags_view(old(errors)@).is_prefix_of(diags_view(final(errors)@)),
            apply_events_frames(
                frames_of(old(self)@.states),
                events_view(final(results)@).skip(events_view(old(results)@).len() as int),
            ) == Some(frames_of(final(self)@.states)),
            final(self)@.states.len() == 0 ==> final(self)@.contexts.len() == 1
                && final(self)@.contexts[0].1 == 1,
            final(self)@.contexts.len() >= 1,
            (old(self)@.states.len() >= 1 && old(self)@.states.len() <= 4096 && (old(
                self,
            )@.states.last() == StateV::Element || old(self)@.states.last()
                == StateV::ElementArray) ==> (event@ matches JsonEventV::String(sv)
                ==> events_view(final(results)@) == events_view(old(results)@).push(
                JsonLdEventV::Value {
                    value: JsonLdValueV::String(sv),
                    value_type: None,
                    language: None,
                },
            ))),
            (old(self)@.states.len() >= 1 && old(self)@.states.len() <= 4096 ==> (old(
                self,
            )@.states.last() matches StateV::Value { value_type, value, language } ==> (event@
                is EndObject ==> (match value {
                Some(v) => events_view(final(results)@) == events_view(old(results)@).push(
                    JsonLdEventV::Value { value: v, value_type, language },
                ),
                None => events_view(final(results)@) == events_view(old(results)@),
            })))),
            (old(self)@.states.len() >= 1 && old(self)@.states.len() <= 4096 ==> (old(
                self,
            )@.states.last() matches StateV::ObjectStart { types, id } ==> (event@ is EndObject
                ==> events_view(final(results)@) == events_view(old(results)@)
                + start_object_events(types, id) + seq![JsonLdEventV::EndObject]))),
            (old(self)@.states.len() >= 1 && old(self)@.states.len() <= 4096 ==> (old(
                self,
            )@.states.last() matches StateV::ObjectStart { types, id } ==> (event@ matches
                JsonEventV::ObjectKey(k) ==> (spec_expand_iri(
                old(self)@.contexts.last().0,
                old(self)@.lenient,
                k,
                false,
                true,
            ) matches Some(JsonLdIdOrKeywordV::Id(iri)) ==> events_view(final(results)@)
                == events_view(old(results)@) + start_object_events(types, id) + seq![
                JsonLdEventV::StartProperty(iri),
            ])))),
            (old(self)@.states.len() >= 1 && old(self)@.states.len() <= 4096 ==> (old(
                self,
            )@.states.last() matches StateV::Object { in_property } ==> (event@ is EndObject
                ==> events_view(final(results)@) == events_view(old(results)@) + (
            if in_property {
                seq![JsonLdEventV::EndProperty, JsonLdEventV::EndObject]
            } else {
                seq![JsonLdEventV::EndObject]
            })))),
            (old(self)@.states.len() >= 1 && old(self)@.states.len() <= 4096 ==> (old(
                self,
            )@.states.last() matches StateV::Object { in_property } ==> (event@ matches
                JsonEventV::ObjectKey(k) ==> (spec_expand_iri(
                old(self)@.contexts.last().0,
                old(self)@.lenient,
                k,
                false,
                true,
            ) matches Some(JsonLdIdOrKeywordV::Id(iri)) ==> events_view(final(results)@)
                == events_view(old(results)@) + (if in_property {
                seq![JsonLdEventV::EndProperty]
            } else {
                Seq::<JsonLdEventV>::empty()
            }) + seq![JsonLdEventV::StartProperty(iri)])))),
            step_post(
                spec_step(old(self)@, event@),
                old(self)@,
                final(self)@,
                events_view(old(results)@),
                events_view(final(results)@),
                diags_view(old(errors)@),
                diags_view(final(errors)@),
            ),
    {
        if self.state.len() > 4096 {
            emit_error(errors, JsonLdSyntaxError::msg("Too large state stack"));
            proof {
                assert(diags_view(errors@) =~= diags_view(old(errors)@) + seq![
                    diag("Too large state stack"@, None),
                ]);
            }
            proof {
                lemma_apply0(frames_of(self@.states));
                assert(events_view(results@).skip(events_view(old(results)@).len() as int)
                    =~= Seq::<JsonLdEventV>::empty());
                assert(events_view(old(results)@).is_prefix_of(events_view(results@)));
                assert(diags_view(old(errors)@).is_prefix_of(diags_view(errors@)));
                assert(events_view(results@) =~= events_view(old(results)@)
                    + Seq::<JsonLdEventV>::empty());
            }
            return;
        }
        if matches!(event, JsonEvent::Eof) {
            self.is_end = true;
            proof {
                assert(self@.states =~= old(self)@.states);
                assert(self@.contexts =~= old(self)@.contexts);
                lemma_apply0(frames_of(self@.states));
                assert(events_view(results@).skip(events_view(old(results)@).len() as int)
                    =~= Seq::<JsonLdEventV>::empty());
                assert(events_view(old(results)@).is_prefix_of(events_view(results@)));
                assert(diags_view(old(errors)@).is_prefix_of(diags_view(errors@)));
                if self@.states.len() == 0 {
                    lemma_document_done(self@);
                }
                assert(events_view(results@) =~= events_view(old(results)@)
                    + Seq::<JsonLdEventV>::empty());
                assert(diags_view(errors@) =~= diags_view(old(errors)@)
                    + Seq::<JsonLdSyntaxErrorV>::empty());
            }
            return;
        }
        let popped = self.state.pop();
        match popped {
            None => {
                emit_error(
                    errors,
                    JsonLdSyntaxError::msg("unexpected content after the end of the document"),
                );
                proof {
                    assert(diags_view(errors@) =~= diags_view(old(errors)@) + seq![
                        diag("unexpected content after the end of the document"@, None),
                    ]);
                    assert(events_view(results@) =~= events_view(old(results)@)
                        + Seq::<JsonLdEventV>::empty());
                    assert(self@.states =~= old(self)@.states);
                    assert(self@.contexts =~= old(self)@.contexts);
                    lemma_apply0(frames_of(self@.states));
                    assert(events_view(results@).skip(events_view(old(results)@).len() as int)
                        =~= Seq::<JsonLdEventV>::empty());
                    assert(events_view(old(results)@).is_prefix_of(events_view(results@)));
                    assert(diags_view(old(errors)@).is_prefix_of(diags_view(errors@)));
                    lemma_document_done(self@);
                }
            },
            Some(st) => {
                let ghost stv = st@;
                let ghost mid = self@;
                proof {
                    assert(old(self)@.states =~= mid.states.push(stv));
                    assert(mid.contexts =~= old(self)@.contexts);
                    assert(mid.states =~= old(self)@.states.drop_last());
                    assert(stv == old(self)@.states.last());
                    assert(mid == (ConverterV {
                        states: old(self)@.states.drop_last(),
                        contexts: old(self)@.contexts,
                        is_end: old(self)@.is_end,
                        lenient: old(self)@.lenient,
                    }));
                    lemma_units_push(mid.states, stv);
                    assert(frames_of(old(self)@.states) == frames_of(
                        old(self)@.states.drop_last(),
                    ) + state_frames(old(self)@.states.last()));
                    assert(old(self)@.states.drop_last() =~= mid.states);
                    assert(handler_pre(mid, stv));
                }
                match st {
                    JsonLdExpansionState::Element => {
                        self.on_element(false, event, results, errors);
                    },
                    JsonLdExpansionState::ElementArray => {
                        self.on_element(true, event, results, errors);
                    },
                    JsonLdExpansionState::ObjectStart { types, id } => {
                        self.on_object_start(types, id, event, results, errors);
                    },
                    JsonLdExpansionState::ObjectType { types, id } => {
                        self.on_object_type(types, id, false, event, results, errors);
                    },
                    JsonLdExpansionState::ObjectTypeArray { types, id } => {
                        self.on_object_type(types, id, true, event, results, errors);
                    },
                    JsonLdExpansionState::ObjectId { types, id, from_start } => {
                        self.on_object_id(types, id, from_start, event, results, errors);
                    },
                    JsonLdExpansionState::Object { in_property } => {
                        self.on_object(in_property, event, results, errors);
                    },
                    JsonLdExpansionState::Value { value_type, value, language } => {
                        self.on_value(value_type, value, language, event, results, errors);
                    },
                    JsonLdExpansionState::ValueValue { value_type, language } => {
                        self.on_value_value(value_type, language, event, results, errors);
                    },
                    JsonLdExpansionState::ValueLanguage { value_type, value } => {
                        self.on_value_language(value_type, value, event, results, errors);
                    },
                    JsonLdExpansionState::ValueType { value, language } => {
                        self.on_value_type(value, language, event, results, errors);
                    },
                    JsonLdExpansionState::ToNode { stack, current_key, end_state } => {
                        self.on_to_node(stack, current_key, end_state, event, results, errors);
                    },
                    JsonLdExpansionState::Skip => {
                        self.on_skip(false, event, results, errors);
                    },
                    JsonLdExpansionState::SkipArray => {
                        self.on_skip(true, event, results, errors);
                    },
                }
                proof {
                    assert(frames_of(old(self)@.states) =~= frames_of(mid.states) + state_frames(
                        stv,
                    ));
                    if self@.states.len() == 0 {
                        lemma_document_done(self@);
                    }
                }
            },
        }
    }
}

/// The number of `StartObject` events in a stream.
pub open spec fn count_start_objects(es: Seq<JsonLdEventV>) -> int
    decreases es.len(),
{
    if es.len() == 0 {
        0
    } else {
        (if es[0] is StartObject {
            1int
        } else {
            0int
        }) + count_start_objects(es.subrange(1, es.len() as int))
    }
}

/// The number of `EndObject` events in a stream.
pub open spec fn count_end_objects(es: Seq<JsonLdEventV>) -> int
    decreases es.len(),
{
    if es.len() == 0 {
        0
    } else {
        (if es[0] is EndObject {
            1int
        } else {
            0int
        }) + count_end_objects(es.subrange(1, es.len() as int))
    }
}

/// The number of `StartProperty` events in a stream.
pub open spec fn count_start_properties(es: Seq<JsonLdEventV>) -> int
    decreases es.len(),
{
    if es.len() == 0 {
        0
    } else {
        (if es[0] is StartProperty {
            1int
        } else {
            0int
        }) + count_start_properties(es.subrange(1, es.len() as int))
    }
}

/// The number of `EndProperty` events in a stream.
pub open spec fn count_end_properties(es: Seq<JsonLdEventV>) -> int
    decreases es.len(),
{
    if es.len() == 0 {
        0
    } else {
        (if es[0] is EndProperty {
            1int
        } else {
            0int
        }) + count_end_properties(es.subrange(1, es.len() as int))
    }
}

/// The number of open object scopes on a frame stack.
pub open spec fn count_object_frames(stk: Seq<FrameV>) -> int
    decreases stk.len(),
{
    if stk.len() == 0 {
        0
    } else {
        (if stk[0] is ObjectScope {
            1int
        } else {
            0int
        }) + count_object_frames(stk.subrange(1, stk.len() as int))
    }
}

/// The number of open property scopes on a frame stack.
pub open spec fn count_property_frames(stk: Seq<FrameV>) -> int
    decreases stk.len(),
{
    if stk.len() == 0 {
        0
    } else {
        (if stk[0] is PropertyScope {
            1int
        } else {
            0int
        }) + count_property_frames(stk.subrange(1, stk.len() as int))
    }
}

proof fn lemma_frame_counts_drop_last(stk: Seq<FrameV>)
    requires
        stk.len() > 0,
    ensures
        count_object_frames(stk) == count_object_frames(stk.drop_last()) + (
        if stk.last() is ObjectScope {
            1int
        } else {
            0int
        }),
        count_property_frames(stk) == count_property_frames(stk.drop_last()) + (
        if stk.last() is PropertyScope {
            1int
        } else {
            0int
        }),
    decreases stk.len(),
{
    if stk.len() == 1 {
        assert(stk.drop_last() =~= Seq::<FrameV>::empty());
        assert(stk.subrange(1, 1) =~= Seq::<FrameV>::empty());
        assert(stk.last() == stk[0]);
    } else {
        lemma_frame_counts_drop_last(stk.subrange(1, stk.len() as int));
        assert(stk.subrange(1, stk.len() as int).drop_last()
            =~= stk.drop_last().subrange(1, stk.drop_last().len() as int));
        assert(stk.subrange(1, stk.len() as int).last() == stk.last());
    }
}

proof fn lemma_frame_counts_push(stk: Seq<FrameV>, f: FrameV)
    ensures
        count_object_frames(stk.push(f)) == count_object_frames(stk) + (
        if f is ObjectScope {
            1int
        } else {
            0int
        }),
        count_property_frames(stk.push(f)) == count_property_frames(stk) + (
        if f is PropertyScope {
            1int
        } else {
            0int
        }),
{
    assert(stk.push(f).drop_last() =~= stk);
    assert(stk.push(f).last() == f);
    lemma_frame_counts_drop_last(stk.push(f));
}

/// Applying events moves the start/end count differences exactly as the open
/// scopes move.
proof fn lemma_apply_counts(stk: Seq<FrameV>, es: Seq<JsonLdEventV>, stk2: Seq<FrameV>)
    requires
        apply_events_frames(stk, es) == Some(stk2),
    ensures
        count_start_objects(es) - count_end_objects(es) == count_object_frames(stk2)
            - count_object_frames(stk),
        count_start_properties(es) - count_end_properties(es) == count_property_frames(stk2)
            - count_property_frames(stk),
    decreases es.len(),
{
    if es.len() == 0 {
        assert(stk2 == stk);
    } else {
        let s1 = apply_event_frame(stk, es[0]);
        match s1 {
            Some(s) => {
                match es[0] {
                    JsonLdEventV::StartObject { .. } => {
                        lemma_frame_counts_push(stk, FrameV::ObjectScope);
                    },
                    JsonLdEventV::StartProperty(_) => {
                        lemma_frame_counts_push(stk, FrameV::PropertyScope);
                    },
                    JsonLdEventV::EndObject => {
                        lemma_frame_counts_drop_last(stk);
                    },
                    JsonLdEventV::EndProperty => {
                        lemma_frame_counts_drop_last(stk);
                    },
                    _ => {},
                }
                lemma_apply_counts(s, es.subrange(1, es.len() as int), stk2);
            },
            None => {
                assert(false);
            },
        }
    }
}

/// Balance law: an event stream that opens and closes its scopes in
/// discipline, beginning and ending with no open scope, holds as many
/// `StartObject` events as `EndObject` events, and as many `StartProperty`
/// events as `EndProperty` events; and every closing event closes the scope
/// opened last, so each `EndProperty` is preceded by its own `StartProperty`.
pub proof fn lemma_balanced_stream(es: Seq<JsonLdEventV>)
    requires
        apply_events_frames(Seq::empty(), es) == Some(Seq::<FrameV>::empty()),
    ensures
        count_start_objects(es) == count_end_objects(es),
        count_start_properties(es) == count_end_properties(es),
{
    lemma_apply_counts(Seq::empty(), es, Seq::empty());
}

/// Splitting a stream splits its application.
proof fn lemma_apply_concat(stk: Seq<FrameV>, a: Seq<JsonLdEventV>, b: Seq<JsonLdEventV>)
    ensures
        apply_events_frames(stk, a + b) == (match apply_events_frames(stk, a) {
            Some(s) => apply_events_frames(s, b),
            None => None,
        }),
    decreases a.len(),
{
    if a.len() == 0 {
        assert(a + b =~= b);
    } else {
        assert((a + b)[0] == a[0]);
        match apply_event_frame(stk, a[0]) {
            Some(s) => {
                lemma_apply_concat(s, a.subrange(1, a.len() as int), b);
                assert((a + b).subrange(1, (a + b).len() as int)
                    =~= a.subrange(1, a.len() as int) + b);
            },
            None => {
                assert((a + b).subrange(0, 1)[0] == a[0]);
            },
        }
    }
}

/// The views of a token buffer, token for token.
pub open spec fn tokens_view(tokens: Seq<JsonEvent>) -> Seq<JsonEventV> {
    Seq::new(tokens.len(), |i: int| tokens[i]@)
}

/// What a whole token stream does: the steps of its tokens, folded in order,
/// with their events and diagnostics concatenated.
pub open spec fn spec_run(pre: ConverterV, tokens: Seq<JsonEventV>) -> StepV
    decreases tokens.len(),
{
    if tokens.len() == 0 {
        StepV {
            states: pre.states,
            contexts: pre.contexts,
            is_end: pre.is_end,
            events: Seq::empty(),
            errors: Seq::empty(),
        }
    } else {
        let first = spec_step(pre, tokens[0]);
        let mid = ConverterV {
            states: first.states,
            contexts: first.contexts,
            is_end: first.is_end,
            lenient: pre.lenient,
        };
        let rest = spec_run(mid, tokens.subrange(1, tokens.len() as int));
        StepV {
            states: rest.states,
            contexts: rest.contexts,
            is_end: rest.is_end,
            events: first.events + rest.events,
            errors: first.errors + rest.errors,
        }
    }
}

impl JsonLdExpansionConverter {
    /// Whether the converter has consumed a complete document: every state
    /// has been closed.
    pub closed spec fn document_complete(&self) -> bool {
        self@.states.len() == 0
    }

    /// Feeds a whole token stream through the converter. The emitted events
    /// always respect the scope discipline; once the document is complete
    /// they are balanced, and the context stack is back to a single entry
    /// owned once.
    pub fn convert_all(
        &mut self,
        tokens: Vec<JsonEvent>,
        results: &mut Vec<JsonLdEvent>,
        errors: &mut Vec<JsonLdSyntaxError>,
    )
        requires
            old(self).wf(),
        ensures
            final(self).wf(),
            events_view(old(results)@).is_prefix_of(events_view(final(results)@)),
            diags_view(old(errors)@).is_prefix_of(diags_view(final(errors)@)),
            apply_events_frames(
                frames_of(old(self)@.states),
                events_view(final(results)@).skip(events_view(old(results)@).len() as int),
            ) == Some(frames_of(final(self)@.states)),
            final(self).document_complete() ==> final(self)@.contexts.len() == 1
                && final(self)@.contexts[0].1 == 1,
            step_post(
                spec_run(old(self)@, tokens_view(tokens@)),
                old(self)@,
                final(self)@,
                events_view(old(results)@),
                events_view(final(results)@),
                diags_view(old(errors)@),
                diags_view(final(errors)@),
            ),
    {
        let ghost pre_events = events_view(results@);
        let ghost pre_errors = diags_view(errors@);
        let ghost tv = tokens_view(tokens@);
        proof {
            lemma_apply0(frames_of(self@.states));
            assert(events_view(results@).skip(pre_events.len() as int)
                =~= Seq::<JsonLdEventV>::empty());
            assert(tv.subrange(0, tv.len() as int) =~= tv);
        }
        let n = tokens.len();
        let mut i: usize = 0;
        while i < n
            invariant
                i <= n,
                n == tokens@.len(),
                self.wf(),
                tv == tokens_view(tokens@),
                tv.len() == n,
                self@.lenient == old(self)@.lenient,
                pre_events.is_prefix_of(events_view(results@)),
                pre_errors.is_prefix_of(diags_view(errors@)),
                apply_events_frames(
                    frames_of(old(self)@.states),
                    events_view(results@).skip(pre_events.len() as int),
                ) == Some(frames_of(self@.states)),
                ({
                    let total = spec_run(old(self)@, tv);
                    let cont = spec_run(self@, tv.subrange(i as int, tv.len() as int));
                    total.states == cont.states && total.contexts == cont.contexts
                        && total.is_end == cont.is_end && total.events =~= events_view(
                        results@,
                    ).skip(pre_events.len() as int) + cont.events && total.errors =~= diags_view(
                        errors@,
                    ).skip(pre_errors.len() as int) + cont.errors
                }),
            decreases n - i,
        {
            let ghost mid = self@;
            let ghost mid_events = events_view(results@);
            let ghost mid_errors = diags_view(errors@);
            let ghost rest = tv.subrange(i as int, tv.len() as int);
            proof {
                assert(rest[0] == tv[i as int]);
                assert(rest[0] == tokens@[i as int]@);
                assert(rest.subrange(1, rest.len() as int) =~= tv.subrange(
                    i + 1,
                    tv.len() as int,
                ));
            }
            let token = tokens[i].clone();
            self.convert_event(token, results, errors);
            proof {
                let a = mid_events.skip(pre_events.len() as int);
                let b = events_view(results@).skip(mid_events.len() as int);
                lemma_apply_concat(frames_of(old(self)@.states), a, b);
                assert(events_view(results@).skip(pre_events.len() as int) =~= a + b);
                assert(pre_events.is_prefix_of(events_view(results@)));
                assert(pre_errors.is_prefix_of(diags_view(errors@)));
                let ae = mid_errors.skip(pre_errors.len() as int);
                let be = diags_view(errors@).skip(mid_errors.len() as int);
                assert(diags_view(errors@).skip(pre_errors.len() as int) =~= ae + be);
                let step = spec_step(mid, tokens@[i as int]@);
                assert(self@ == (ConverterV {
                    states: step.states,
                    contexts: step.contexts,
                    is_end: step.is_end,
                    lenient: mid.lenient,
                }));
                let total = spec_run(old(self)@, tv);
                let cont_pre = spec_run(mid, rest);
                let cont_post = spec_run(self@, tv.subrange(i + 1, tv.len() as int));
                assert(cont_pre.events =~= step.events + cont_post.events);
                assert(cont_pre.errors =~= step.errors + cont_post.errors);
                assert(total.events =~= events_view(results@).skip(pre_events.len() as int)
                    + cont_post.events);
                assert(total.errors =~= diags_view(errors@).skip(pre_errors.len() as int)
                    + cont_post.errors);
            }
            i = i + 1;
        }
        proof {
            if self@.states.len() == 0 {
                lemma_document_done(self@);
            }
            assert(tv.subrange(n as int, tv.len() as int) =~= Seq::<JsonEventV>::empty());
            assert(events_view(results@) =~= events_view(old(results)@) + events_view(
                results@,
            ).skip(pre_events.len() as int));
            assert(diags_view(errors@) =~= diags_view(old(errors)@) + diags_view(errors@).skip(
                pre_errors.len() as int,
            ));
        }
    }
}

/// Stability law: a string that does not begin with `@`, holds no colon, and
/// matches no term of the active context expands, with the document-relative
/// and vocabulary rules switched off, to itself unchanged.
pub proof fn lemma_expand_iri_stable(ctx: JsonLdContextV, lenient: bool, value: Seq<char>)
    requires
        value.len() == 0 || value[0] != '@',
        spec_find_char(value, ':') is None,
        term_lookup(ctx.term_definitions, value) is None,
    ensures
        spec_expand_iri(ctx, lenient, value, false, false) == Some(
            JsonLdIdOrKeywordV::Id(value),
        ),
{
}

} // verus!
