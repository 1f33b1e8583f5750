//! The trusted boundary to `serde_json`. A template document is a generic
//! structured-value tree; the library carries such documents through its
//! logic opaquely and leaves parsing, copying, key injection and
//! serialization to `serde_json` behind the declarations below. Each of
//! those operations is deterministic in its arguments, so each result is
//! named, and the rendering pipeline's contracts compose the names.

use vstd::prelude::*;

verus! {

#[verifier::external_type_specification]
#[verifier::external_body]
pub struct ExValue(serde_json::Value);

/// The documents a text parses to as a JSON array: the array's elements,
/// in order, for a valid top-level array of documents; nothing otherwise.
/// `serde_json::from_str` reads the same text the same way everywhere, so
/// this is a function of the text alone; what it is on a given text only
/// [`parse_document_array`] can tell.
pub uninterp spec fn parsed_docs_of(s: Seq<char>) -> Option<Seq<serde_json::Value>>;

/// The document with its top-level `output` key set to the given monitor
/// name; a document that is no object, unchanged. A function of document
/// and name alone; what it is on given values only [`set_document_output`]
/// can tell.
pub uninterp spec fn with_output_of(doc: serde_json::Value, monitor: Seq<char>) -> serde_json::Value;

/// The pretty-printed JSON text of a document: a function of the document
/// alone; what it is on a given document only [`document_to_pretty_json`]
/// can tell.
pub uninterp spec fn doc_json_of(doc: serde_json::Value) -> Seq<char>;

/// Relies on `serde_json::from_str::<Vec<Value>>`: parses text as a
/// top-level JSON array of documents, an error carrying `serde_json`'s
/// message otherwise. Parsing is deterministic in the text, so the two
/// outcomes are exactly the two sides of [`parsed_docs_of`].
#[verifier::external_body]
pub fn parse_document_array(s: &str) -> (r: Result<Vec<serde_json::Value>, String>)
    ensures
        match r {
            Ok(v) => parsed_docs_of(s@) == Some(v@),
            Err(_) => parsed_docs_of(s@) is None,
        },
{
    serde_json::from_str::<Vec<serde_json::Value>>(s).map_err(|e| e.to_string())
}

/// Relies on `serde_json::Value`'s `Clone`: a deep copy equal to the
/// document it copies.
#[verifier::external_body]
pub fn clone_document(v: &serde_json::Value) -> (r: serde_json::Value)
    ensures
        r == *v,
{
    v.clone()
}

/// Relies on `serde_json::Value`'s `Clone`, `Value::as_object_mut` and
/// `serde_json::Map::insert`: a copy of the document with its top-level
/// `output` key set to the monitor name; a document that is no object is
/// copied unchanged. Top level only, no nested injection; the result is a
/// function of document and name alone, so it is [`with_output_of`].
#[verifier::external_body]
pub fn set_document_output(doc: &serde_json::Value, monitor: &str) -> (r: serde_json::Value)
    ensures
        r == with_output_of(*doc, monitor@),
{
    let mut copy = doc.clone();
    if let Some(obj) = copy.as_object_mut() {
        obj.insert("output".to_string(), serde_json::Value::String(monitor.to_string()));
    }
    copy
}

/// Relies on `serde_json::to_string_pretty`: the pretty-printed JSON text
/// of a document. For a `Value` this cannot fail: the writer is an
/// in-memory vector and every map a `Value` holds is keyed by strings, so
/// the serializer has no error path; the call is owed `Ok`, and its text
/// is a function of the document alone, so it is [`doc_json_of`].
#[verifier::external_body]
pub fn document_to_pretty_json(v: &serde_json::Value) -> (r: Result<String, String>)
    ensures
        r is Ok,
        r matches Ok(s) ==> s@ == doc_json_of(*v),
{
    serde_json::to_string_pretty(v).map_err(|e| e.to_string())
}

} // verus!
