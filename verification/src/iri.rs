//! The IRI operations the engine needs, performed by the `oxiri` crate.
//!
//! IRIs travel through the library as plain strings. Validation and
//! RFC 3986/3987 resolution are delegated to `oxiri`; their outcomes depend
//! on the argument strings alone, so the contracts name them.

use vstd::prelude::*;

verus! {

/// Whether a string is a valid absolute IRI under RFC 3987, as decided by
/// oxiri's `Iri::parse`.
pub uninterp spec fn iri_valid(s: Seq<char>) -> bool;

/// The outcome of oxiri's validating relative-reference resolution of
/// `reference` against `base`: the resolved IRI text, or nothing when the
/// reference or the resolution result is invalid.
pub uninterp spec fn iri_resolution(base: Seq<char>, reference: Seq<char>) -> Option<Seq<char>>;

/// The text that oxiri's non-validating resolution of `reference` against
/// `base` produces; it is defined for every pair of strings.
pub uninterp spec fn iri_resolution_unchecked(base: Seq<char>, reference: Seq<char>) -> Seq<char>;

/// The view of an optional string.
pub open spec fn opt_str_view(o: Option<String>) -> Option<Seq<char>> {
    match o {
        Some(s) => Some(s@),
        None => None,
    }
}

/// Relies on oxiri's `Iri::parse`, which validates the text against the
/// RFC 3987 IRI grammar and keeps it unchanged.
#[verifier::external_body]
pub fn iri_is_absolute(s: &str) -> (r: bool)
    ensures
        r == iri_valid(s@),
{
    oxiri::Iri::parse(s).is_ok()
}

/// Relies on oxiri's `IriRef::parse` and `Iri::resolve`: the reference is
/// validated against the IRI-reference grammar and resolved against the base
/// following RFC 3986; any failure yields nothing.
#[verifier::external_body]
pub fn iri_resolve(base: &str, reference: &str) -> (r: Option<String>)
    ensures
        opt_str_view(r) == iri_resolution(base@, reference@),
{
    let base = oxiri::Iri::parse_unchecked(base);
    match oxiri::IriRef::parse(reference) {
        Ok(reference) => match base.resolve(&reference) {
            Ok(resolved) => Some(resolved.into_inner()),
            Err(_) => None,
        },
        Err(_) => None,
    }
}

/// Relies on oxiri's `IriRef::parse_unchecked` and `Iri::resolve_unchecked`,
/// which skip validation and return a resolved text for every input.
#[verifier::external_body]
pub fn iri_resolve_unchecked(base: &str, reference: &str) -> (r: String)
    ensures
        r@ == iri_resolution_unchecked(base@, reference@),
{
    oxiri::Iri::parse_unchecked(base)
        .resolve_unchecked(&oxiri::IriRef::parse_unchecked(reference))
        .into_inner()
}

} // verus!
