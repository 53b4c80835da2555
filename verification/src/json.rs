//! The JSON side of the engine: lexical tokens (the input alphabet) and
//! materialized JSON subtrees (used only to buffer a `@context` value).

use vstd::prelude::*;

use crate::text::string_eq;

verus! {

broadcast use vstd::std_specs::vec::group_vec_axioms, vstd::seq::axiom_seq_index_decreases,
    vstd::seq::axiom_seq_subrange_decreases;

/// One lexical JSON token. Numbers keep their lexical form.
#[derive(Debug, PartialEq, Eq)]
pub enum JsonEvent {
    Null,
    Boolean(bool),
    Number(String),
    String(String),
    StartArray,
    EndArray,
    StartObject,
    EndObject,
    ObjectKey(String),
    Eof,
}

/// Mathematical model of a token.
pub enum JsonEventV {
    Null,
    Boolean(bool),
    Number(Seq<char>),
    String(Seq<char>),
    StartArray,
    EndArray,
    StartObject,
    EndObject,
    ObjectKey(Seq<char>),
    Eof,
}

impl View for JsonEvent {
    type V = JsonEventV;

    open spec fn view(&self) -> JsonEventV {
        match self {
            JsonEvent::Null => JsonEventV::Null,
            JsonEvent::Boolean(b) => JsonEventV::Boolean(*b),
            JsonEvent::Number(s) => JsonEventV::Number(s@),
            JsonEvent::String(s) => JsonEventV::String(s@),
            JsonEvent::StartArray => JsonEventV::StartArray,
            JsonEvent::EndArray => JsonEventV::EndArray,
            JsonEvent::StartObject => JsonEventV::StartObject,
            JsonEvent::EndObject => JsonEventV::EndObject,
            JsonEvent::ObjectKey(s) => JsonEventV::ObjectKey(s@),
            JsonEvent::Eof => JsonEventV::Eof,
        }
    }
}

impl Clone for JsonEvent {
    fn clone(&self) -> (r: Self)
        ensures
            r@ == self@,
    {
        match self {
            JsonEvent::Null => JsonEvent::Null,
            JsonEvent::Boolean(b) => JsonEvent::Boolean(*b),
            JsonEvent::Number(s) => JsonEvent::Number(s.clone()),
            JsonEvent::String(s) => JsonEvent::String(s.clone()),
            JsonEvent::StartArray => JsonEvent::StartArray,
            JsonEvent::EndArray => JsonEvent::EndArray,
            JsonEvent::StartObject => JsonEvent::StartObject,
            JsonEvent::EndObject => JsonEvent::EndObject,
            JsonEvent::ObjectKey(s) => JsonEvent::ObjectKey(s.clone()),
            JsonEvent::Eof => JsonEvent::Eof,
        }
    }
}

/// A materialized JSON subtree. Objects keep their members as a sequence of
/// key/value pairs with unique keys; insertion order is irrelevant.
#[derive(Debug, PartialEq, Eq)]
pub enum JsonNode {
    String(String),
    Number(String),
    Boolean(bool),
    Null,
    Array(Vec<JsonNode>),
    Object(Vec<(String, JsonNode)>),
}

/// Mathematical model of a JSON subtree.
pub enum JsonNodeV {
    String(Seq<char>),
    Number(Seq<char>),
    Boolean(bool),
    Null,
    Array(Seq<JsonNodeV>),
    Object(Seq<(Seq<char>, JsonNodeV)>),
}

impl View for JsonNode {
    type V = JsonNodeV;

    open spec fn view(&self) -> JsonNodeV
        decreases self,
    {
        match self {
            JsonNode::String(s) => JsonNodeV::String(s@),
            JsonNode::Number(s) => JsonNodeV::Number(s@),
            JsonNode::Boolean(b) => JsonNodeV::Boolean(*b),
            JsonNode::Null => JsonNodeV::Null,
            JsonNode::Array(items) => JsonNodeV::Array(nodes_view(items@)),
            JsonNode::Object(entries) => JsonNodeV::Object(entries_view(entries@)),
        }
    }
}

/// The models of a sequence of JSON subtrees.
pub open spec fn nodes_view(items: Seq<JsonNode>) -> Seq<JsonNodeV>
    decreases items,
{
    if items.len() == 0 {
        Seq::empty()
    } else {
        seq![items[0]@] + nodes_view(items.subrange(1, items.len() as int))
    }
}

/// The models of the members of a JSON object under construction.
pub open spec fn entries_view(entries: Seq<(String, JsonNode)>) -> Seq<(Seq<char>, JsonNodeV)>
    decreases entries,
{
    if entries.len() == 0 {
        Seq::empty()
    } else {
        seq![(entries[0].0@, entries[0].1@)]
            + entries_view(entries.subrange(1, entries.len() as int))
    }
}

/// A sequence of subtrees and its model have the same length, member for
/// member.
pub broadcast proof fn lemma_nodes_view_index(items: Seq<JsonNode>)
    ensures
        #![trigger nodes_view(items)]
        nodes_view(items).len() == items.len(),
        forall|i: int| 0 <= i < items.len() ==> nodes_view(items)[i] == items[i]@,
    decreases items.len(),
{
    if items.len() == 0 {
        assert(nodes_view(items) =~= Seq::<JsonNodeV>::empty());
    } else {
        lemma_nodes_view_index(items.subrange(1, items.len() as int));
        assert(nodes_view(items)
            =~= seq![items[0]@] + nodes_view(items.subrange(1, items.len() as int)));
        assert forall|i: int| 0 <= i < items.len() implies nodes_view(items)[i] == items[i]@ by {
            if i > 0 {
                assert(items.subrange(1, items.len() as int)[i - 1] == items[i]);
            }
        }
    }
}

/// An object's members and their models correspond one for one.
pub broadcast proof fn lemma_entries_view_index(entries: Seq<(String, JsonNode)>)
    ensures
        #![trigger entries_view(entries)]
        entries_view(entries).len() == entries.len(),
        forall|i: int| 0 <= i < entries.len()
            ==> entries_view(entries)[i] == (entries[i].0@, entries[i].1@),
    decreases entries.len(),
{
    if entries.len() == 0 {
        assert(entries_view(entries) =~= Seq::<(Seq<char>, JsonNodeV)>::empty());
    } else {
        lemma_entries_view_index(entries.subrange(1, entries.len() as int));
        assert(entries_view(entries)
            =~= seq![(entries[0].0@, entries[0].1@)]
                + entries_view(entries.subrange(1, entries.len() as int)));
        assert forall|i: int| 0 <= i < entries.len()
            implies entries_view(entries)[i] == (entries[i].0@, entries[i].1@) by {
            if i > 0 {
                assert(entries.subrange(1, entries.len() as int)[i - 1] == entries[i]);
            }
        }
    }
}

/// What replacing-or-appending a member does to a modelled JSON object:
/// the first member with this key is replaced; without one, the pair is
/// appended.
pub open spec fn object_with_member(
    entries: Seq<(Seq<char>, JsonNodeV)>,
    key: Seq<char>,
    value: JsonNodeV,
) -> Seq<(Seq<char>, JsonNodeV)>
    decreases entries.len(),
{
    if entries.len() == 0 {
        seq![(key, value)]
    } else if entries[0].0 == key {
        seq![(key, value)] + entries.skip(1)
    } else {
        seq![entries[0]] + object_with_member(entries.skip(1), key, value)
    }
}

/// Inserts a member into a JSON object under construction, replacing the
/// first member that already carries this key so that keys stay unique.
pub fn object_insert(entries: &mut Vec<(String, JsonNode)>, key: String, value: JsonNode)
    ensures
        entries_view(final(entries)@)
            == object_with_member(entries_view(old(entries)@), key@, value@),
{
    broadcast use lemma_entries_view_index;

    let n = entries.len();
    let mut found: usize = n;
    let mut i: usize = 0;
    while i < n
        invariant_except_break
            found == n,
        invariant
            n == entries@.len(),
            i <= n,
            forall|j: int| 0 <= j < i ==> entries@[j].0@ != key@,
        ensures
            found <= n,
            found < n ==> entries@[found as int].0@ == key@,
            forall|j: int| 0 <= j < found ==> entries@[j].0@ != key@,
        decreases n - i,
    {
        if string_eq(entries[i].0.as_str(), key.as_str()) {
            found = i;
            break;
        }
        i = i + 1;
    }
    let ghost pre = entries_view(entries@);
    if found < n {
        proof {
            assert(pre[found as int].0 == key@);
            assert forall|j: int| 0 <= j < found implies pre[j].0 != key@ by {
                assert(entries_view(entries@)[j] == (entries@[j].0@, entries@[j].1@));
            }
            lemma_object_with_member_replaces(pre, key@, value@, found as int);
        }
        entries.set(found, (key, value));
        proof {
            assert(entries_view(entries@) =~= pre.update(found as int, (key@, value@)));
        }
    } else {
        proof {
            assert forall|j: int| 0 <= j < pre.len() implies pre[j].0 != key@ by {
                assert(entries_view(entries@)[j] == (entries@[j].0@, entries@[j].1@));
            }
            lemma_object_with_member_appends(pre, key@, value@);
        }
        entries.push((key, value));
        proof {
            assert(entries_view(entries@) =~= pre.push((key@, value@)));
        }
    }
}

proof fn lemma_object_with_member_replaces(
    entries: Seq<(Seq<char>, JsonNodeV)>,
    key: Seq<char>,
    value: JsonNodeV,
    i: int,
)
    requires
        0 <= i < entries.len(),
        entries[i].0 == key,
        forall|j: int| 0 <= j < i ==> entries[j].0 != key,
    ensures
        object_with_member(entries, key, value) =~= entries.update(i, (key, value)),
    decreases entries.len(),
{
    if i == 0 {
        assert(object_with_member(entries, key, value)
            =~= entries.update(0, (key, value)));
    } else {
        lemma_object_with_member_replaces(entries.skip(1), key, value, i - 1);
        assert(object_with_member(entries, key, value)
            =~= entries.update(i, (key, value)));
    }
}

proof fn lemma_object_with_member_appends(
    entries: Seq<(Seq<char>, JsonNodeV)>,
    key: Seq<char>,
    value: JsonNodeV,
)
    requires
        forall|j: int| 0 <= j < entries.len() ==> entries[j].0 != key,
    ensures
        object_with_member(entries, key, value) =~= entries.push((key, value)),
    decreases entries.len(),
{
    if entries.len() > 0 {
        lemma_object_with_member_appends(entries.skip(1), key, value);
        assert(object_with_member(entries, key, value) =~= entries.push((key, value)));
    }
}

} // verus!
