//! Resolved records: the field set a kill gets from its two detail sources,
//! and the decoding of each source's body.
use mongodb::bson::{Bson, Document};
use vstd::prelude::*;

verus! {

#[verifier::external_type_specification]
#[verifier::external_body]
pub struct ExBson(Bson);

#[verifier::external_type_specification]
#[verifier::external_body]
pub struct ExJsonValue(serde_json::Value);

#[verifier::external_type_specification]
#[verifier::external_body]
pub struct ExDocument(Document);

/// What a BSON document holds: its fields in order.
pub uninterp spec fn document_contents(d: Document) -> Seq<(Seq<char>, Bson)>;

/// One field of a document: its key, and its value carried through as is.
pub type Field = (String, Bson);

/// The fields of a document with their keys as character sequences.
pub open spec fn field_seq(fields: Seq<Field>) -> Seq<(Seq<char>, Bson)> {
    fields.map_values(|f: Field| (f.0@, f.1))
}

/// `i` is the first position of key `k` in `doc`.
pub open spec fn is_first_key(doc: Seq<(Seq<char>, Bson)>, k: Seq<char>, i: int) -> bool {
    &&& 0 <= i < doc.len()
    &&& doc[i].0 == k
    &&& forall|j: int| 0 <= j < i ==> #[trigger] doc[j].0 != k
}

/// `doc` with field `f` set: a field with the same key takes the new value in
/// its place; a new key goes at the end.
pub open spec fn set_field(doc: Seq<(Seq<char>, Bson)>, f: (Seq<char>, Bson)) -> Seq<(Seq<char>, Bson)> {
    if exists|i: int| is_first_key(doc, f.0, i) {
        doc.update(choose|i: int| is_first_key(doc, f.0, i), f)
    } else {
        doc.push(f)
    }
}

/// `base` with each field of `top` set on it in order, so that on a shared
/// key the value of `top` wins.
pub open spec fn overlay(base: Seq<(Seq<char>, Bson)>, top: Seq<(Seq<char>, Bson)>) -> Seq<(Seq<char>, Bson)>
    decreases top.len(),
{
    if top.len() == 0 {
        base
    } else {
        set_field(overlay(base, top.drop_last()), top.last())
    }
}

/// `doc` holds field `f`.
pub open spec fn has_field(doc: Seq<(Seq<char>, Bson)>, f: (Seq<char>, Bson)) -> bool {
    exists|i: int| 0 <= i < doc.len() && doc[i] == f
}

/// `doc` holds a field with key `k`.
pub open spec fn has_key(doc: Seq<(Seq<char>, Bson)>, k: Seq<char>) -> bool {
    exists|i: int| 0 <= i < doc.len() && doc[i].0 == k
}

proof fn lemma_set_field(doc: Seq<(Seq<char>, Bson)>, f: (Seq<char>, Bson))
    requires
        distinct_keys(doc),
    ensures
        distinct_keys(set_field(doc, f)),
        has_field(set_field(doc, f), f),
        forall|g: (Seq<char>, Bson)| has_field(doc, g) && g.0 != f.0 ==> has_field(set_field(doc, f), g),
        forall|g: (Seq<char>, Bson)|
            has_field(set_field(doc, f), g) ==> g == f || (has_field(doc, g) && g.0 != f.0),
{
    let r = set_field(doc, f);
    if exists|i: int| is_first_key(doc, f.0, i) {
        let j = choose|i: int| is_first_key(doc, f.0, i);
        assert(r == doc.update(j, f));
        assert(r[j] == f);
        assert forall|g: (Seq<char>, Bson)| has_field(doc, g) && g.0 != f.0 implies has_field(r, g) by {
            let i = choose|i: int| 0 <= i < doc.len() && doc[i] == g;
            assert(r[i] == g);
        }
        assert forall|g: (Seq<char>, Bson)| has_field(r, g) implies g == f || (has_field(doc, g) && g.0 != f.0) by {
            let i = choose|i: int| 0 <= i < r.len() && r[i] == g;
            if i != j {
                assert(doc[i] == g);
                assert(doc[i].0 != doc[j].0);
            }
        }
        assert forall|a: int, b: int| 0 <= a < b < r.len() implies #[trigger] r[a].0 != #[trigger] r[b].0 by {
            assert(doc[a].0 != doc[b].0);
        }
    } else {
        assert(r == doc.push(f));
        assert(r[doc.len() as int] == f);
        assert forall|g: (Seq<char>, Bson)| has_field(doc, g) && g.0 != f.0 implies has_field(r, g) by {
            let i = choose|i: int| 0 <= i < doc.len() && doc[i] == g;
            assert(r[i] == g);
        }
        assert forall|g: (Seq<char>, Bson)| has_field(r, g) implies g == f || (has_field(doc, g) && g.0 != f.0) by {
            let i = choose|i: int| 0 <= i < r.len() && r[i] == g;
            if i < doc.len() {
                assert(doc[i] == g);
                if g.0 == f.0 {
                    assert(is_first_key(doc, f.0, i) || exists|k: int| 0 <= k < i && doc[k].0 == f.0);
                }
            }
        }
        assert forall|a: int, b: int| 0 <= a < b < r.len() implies #[trigger] r[a].0 != #[trigger] r[b].0 by {
            if b == doc.len() {
                if doc[a].0 == f.0 {
                    assert(is_first_key(doc, f.0, a));
                }
            } else {
                assert(doc[a].0 != doc[b].0);
            }
        }
    }
}

/// Merging keeps one field per key and lets the overlaid side win: every
/// field of `top` is in the result; a field of `base` is in it exactly when
/// `top` has no field with its key; and it holds no other field.
pub proof fn lemma_overlay_top_wins(base: Seq<(Seq<char>, Bson)>, top: Seq<(Seq<char>, Bson)>)
    requires
        distinct_keys(base),
        distinct_keys(top),
    ensures
        distinct_keys(overlay(base, top)),
        forall|i: int| 0 <= i < top.len() ==> has_field(overlay(base, top), #[trigger] top[i]),
        forall|i: int|
            0 <= i < base.len() && !has_key(top, base[i].0) ==> has_field(overlay(base, top), #[trigger] base[i]),
        forall|g: (Seq<char>, Bson)|
            #[trigger] has_field(overlay(base, top), g) ==> has_field(top, g) || (has_field(base, g) && !has_key(top, g.0)),
    decreases top.len(),
{
    if top.len() == 0 {
        assert forall|g: (Seq<char>, Bson)| #[trigger] has_field(overlay(base, top), g) implies has_field(top, g) || (
        has_field(base, g) && !has_key(top, g.0)) by {}
    } else {
        let rest = top.drop_last();
        let f = top.last();
        let prev = overlay(base, rest);
        assert(distinct_keys(rest));
        lemma_overlay_top_wins(base, rest);
        lemma_set_field(prev, f);
        let r = overlay(base, top);
        assert(r == set_field(prev, f));
        assert forall|i: int| 0 <= i < top.len() implies has_field(r, #[trigger] top[i]) by {
            if i < top.len() - 1 {
                assert(rest[i] == top[i]);
                assert(has_field(prev, rest[i]));
                assert(top[i].0 != f.0);
            }
        }
        assert forall|i: int| 0 <= i < base.len() && !has_key(top, base[i].0) implies has_field(r, #[trigger] base[i]) by {
            if has_key(rest, base[i].0) {
                let k = choose|k: int| 0 <= k < rest.len() && rest[k].0 == base[i].0;
                assert(top[k].0 == base[i].0);
            }
            assert(has_field(prev, base[i]));
            assert(top[top.len() - 1].0 != base[i].0);
        }
        assert forall|g: (Seq<char>, Bson)| #[trigger] has_field(r, g) implies has_field(top, g) || (has_field(base, g)
            && !has_key(top, g.0)) by {
            if g == f {
                assert(top[top.len() - 1] == g);
            } else {
                assert(has_field(prev, g) && g.0 != f.0);
                if has_field(rest, g) {
                    let k = choose|k: int| 0 <= k < rest.len() && rest[k] == g;
                    assert(top[k] == g);
                } else {
                    assert(has_field(base, g) && !has_key(rest, g.0));
                    if has_key(top, g.0) {
                        let k = choose|k: int| 0 <= k < top.len() && top[k].0 == g.0;
                        if k < top.len() - 1 {
                            assert(rest[k].0 == g.0);
                        }
                    }
                }
            }
        }
    }
}

/// Which detail source a body came from.
#[derive(Clone, Copy, Debug, PartialEq, Eq, Structural)]
pub enum Source {
    /// The source keyed by identifier alone, which answers with a list.
    Primary,
    /// The source keyed by identifier and access hash, which answers with
    /// one object.
    Secondary,
}

/// Why a detail source's body could not be used.
#[derive(Clone, Copy, Debug, PartialEq, Eq, Structural)]
pub enum ResolveError {
    /// The body was empty.
    EmptyBody(Source),
    /// The body did not have the expected shape.
    Malformed(Source),
}

/// The JSON value a text holds, if it is JSON.
pub uninterp spec fn json_value_of(text: Seq<char>) -> Option<serde_json::Value>;

/// The elements of a JSON value, if it is an array.
pub uninterp spec fn array_of(v: serde_json::Value) -> Option<Seq<serde_json::Value>>;

/// The fields of a JSON value as a BSON document, if it is an object that
/// converts.
pub uninterp spec fn document_of(v: serde_json::Value) -> Option<Seq<(Seq<char>, Bson)>>;

/// Relies on `serde_json::from_str`: the JSON value a text holds, or `None`
/// when it is not JSON.
#[verifier::external_body]
pub(crate) fn parse_json(text: &str) -> (r: Option<serde_json::Value>)
    ensures
        r == json_value_of(text@),
{
    serde_json::from_str::<serde_json::Value>(text).ok()
}

/// Relies on `serde_json::Value::as_array`: the elements of a JSON array.
pub assume_specification[ serde_json::Value::as_array ](v: &serde_json::Value) -> (r: Option<&Vec<serde_json::Value>>)
    ensures
        r is Some <==> array_of(*v) is Some,
        r matches Some(a) ==> array_of(*v) == Some(a@),
;

/// Relies on `bson::to_document`: a JSON object as a BSON document, or
/// `None` when the value is not an object that converts. A document holds
/// each key once.
#[verifier::external_body]
fn to_document(v: &serde_json::Value) -> (r: Option<Document>)
    ensures
        r is Some <==> document_of(*v) is Some,
        r matches Some(d) ==> document_of(*v) == Some(document_contents(d)),
        r matches Some(d) ==> distinct_keys(document_contents(d)),
{
    mongodb::bson::to_document(v).ok()
}

/// Relies on `Document::extend`: each field of `top` in turn is inserted,
/// which replaces the value of a key already present in its place and adds a
/// new key at the end.
#[verifier::external_body]
fn extend_document(base: &mut Document, top: Document)
    ensures
        document_contents(*final(base)) == overlay(document_contents(*old(base)), document_contents(top)),
{
    base.extend(top)
}

/// Relies on `Document::iter`: the fields of a document in order, copied.
#[verifier::external_body]
fn document_entries(d: &Document) -> (r: Vec<Field>)
    ensures
        field_seq(r@) == document_contents(*d),
{
    d.iter().map(|(k, v)| (k.clone(), v.clone())).collect()
}

/// No key occurs twice.
pub open spec fn distinct_keys(doc: Seq<(Seq<char>, Bson)>) -> bool {
    forall|i: int, j: int| 0 <= i < j < doc.len() ==> #[trigger] doc[i].0 != #[trigger] doc[j].0
}

/// The primary source's payload in a body: the fields of the first element
/// of the JSON array it holds.
pub open spec fn primary_payload(body: Seq<char>) -> Option<Seq<(Seq<char>, Bson)>> {
    match json_value_of(body) {
        Some(v) => match array_of(v) {
            Some(items) => if items.len() > 0 {
                document_of(items[0])
            } else {
                None
            },
            None => None,
        },
        None => None,
    }
}

/// The secondary source's payload in a body: the fields of the JSON object
/// it holds.
pub open spec fn secondary_payload(body: Seq<char>) -> Option<Seq<(Seq<char>, Bson)>> {
    match json_value_of(body) {
        Some(v) => document_of(v),
        None => None,
    }
}

/// The primary source's payload from its body: the first element of the JSON
/// array the body holds, which must be an object.
pub fn decode_primary(body: &str) -> (r: Result<Document, ResolveError>)
    ensures
        body@.len() == 0 <==> r == Err::<Document, ResolveError>(ResolveError::EmptyBody(Source::Primary)),
        body@.len() != 0 ==> (r is Ok || r == Err::<Document, ResolveError>(ResolveError::Malformed(Source::Primary))),
        body@.len() != 0 ==> (r is Ok <==> primary_payload(body@) is Some),
        r matches Ok(d) ==> primary_payload(body@) == Some(document_contents(d)),
        r matches Ok(d) ==> distinct_keys(document_contents(d)),
{
    if body.is_empty() {
        return Err(ResolveError::EmptyBody(Source::Primary));
    }
    let value = match parse_json(body) {
        Some(v) => v,
        None => {
            return Err(ResolveError::Malformed(Source::Primary));
        },
    };
    let items = match value.as_array() {
        Some(a) => a,
        None => {
            return Err(ResolveError::Malformed(Source::Primary));
        },
    };
    if items.len() == 0 {
        return Err(ResolveError::Malformed(Source::Primary));
    }
    match to_document(&items[0]) {
        Some(fs) => Ok(fs),
        None => Err(ResolveError::Malformed(Source::Primary)),
    }
}

/// The secondary source's payload from its body: the JSON object it holds.
pub fn decode_secondary(body: &str) -> (r: Result<Document, ResolveError>)
    ensures
        body@.len() == 0 <==> r == Err::<Document, ResolveError>(ResolveError::EmptyBody(Source::Secondary)),
        body@.len() != 0 ==> (r is Ok || r == Err::<Document, ResolveError>(ResolveError::Malformed(Source::Secondary))),
        body@.len() != 0 ==> (r is Ok <==> secondary_payload(body@) is Some),
        r matches Ok(d) ==> secondary_payload(body@) == Some(document_contents(d)),
        r matches Ok(d) ==> distinct_keys(document_contents(d)),
{
    if body.is_empty() {
        return Err(ResolveError::EmptyBody(Source::Secondary));
    }
    match parse_json(body) {
        Some(v) => match to_document(&v) {
            Some(fs) => Ok(fs),
            None => Err(ResolveError::Malformed(Source::Secondary)),
        },
        None => Err(ResolveError::Malformed(Source::Secondary)),
    }
}

/// A kill's merged field set, ready to be stored.
pub struct ResolvedRecord {
    document: Document,
}

impl View for ResolvedRecord {
    type V = Seq<(Seq<char>, Bson)>;

    closed spec fn view(&self) -> Seq<(Seq<char>, Bson)> {
        document_contents(self.document)
    }
}

impl ResolvedRecord {
    /// The record of a kill: the secondary source's fields, with the primary
    /// source's fields set over them, so that the primary source wins on a
    /// shared key.
    pub fn merge(secondary: Document, primary: Document) -> (r: ResolvedRecord)
        ensures
            r@ == overlay(document_contents(secondary), document_contents(primary)),
    {
        let mut document = secondary;
        extend_document(&mut document, primary);
        ResolvedRecord { document }
    }

    pub fn document(&self) -> (r: &Document)
        ensures
            document_contents(*r) == self@,
    {
        &self.document
    }

    /// The fields of the record, in order.
    pub fn fields(&self) -> (r: Vec<Field>)
        ensures
            field_seq(r@) == self@,
    {
        document_entries(&self.document)
    }

    pub fn into_document(self) -> (r: Document)
        ensures
            document_contents(r) == self@,
    {
        self.document
    }
}

} // verus!
