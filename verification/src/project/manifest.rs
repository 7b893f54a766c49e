//! The project manifest's schema: which documents this build can read, and the version they
//! are brought to.

use crate::project::model::SCHEMA;
use crate::text::{decimal, push_decimal, shown_as};
use serde_json::Value;
use vstd::prelude::*;

verus! {

#[verifier::external_type_specification]
#[verifier::external_body]
pub struct ExJsonValue(Value);

#[verifier::external_type_specification]
#[verifier::external_body]
pub struct ExJsonError(serde_json::Error);

/// The document that `serde_json` reads from a text; `None` where it reports an error.
pub uninterp spec fn json_document(text: Seq<char>) -> Option<Value>;

/// The number in a document's member, if it has one of that name.
pub uninterp spec fn json_number(doc: Value, member: Seq<char>) -> Option<u64>;

/// A document with a member set to a number; unchanged if it is no object.
pub uninterp spec fn json_stamped(doc: Value, member: Seq<char>, n: u32) -> Value;

/// `serde_json::from_str` reads an untyped document.
#[verifier::external_body]
fn parse_json(text: &str) -> (r: Result<Value, serde_json::Error>)
    ensures
        r matches Ok(doc) ==> json_document(text@) == Some(doc),
        r is Err ==> json_document(text@) is None,
{
    serde_json::from_str(text)
}

/// `Value::get` of a member and `Value::as_u64`.
#[verifier::external_body]
fn number_member(doc: &Value, member: &str) -> (n: Option<u64>)
    ensures
        n == json_number(*doc, member@),
{
    doc.get(member).and_then(Value::as_u64)
}

/// `serde_json::Map::insert` of a member, where the document is an object.
///
/// The member then reads back as that number; a document that is no object stays as it is.
#[verifier::external_body]
fn stamp_number(doc: &mut Value, member: &str, n: u32)
    ensures
        *final(doc) == json_stamped(*old(doc), member@, n),
        json_number(*final(doc), member@) == Some(n as u64) || *final(doc) == *old(doc),
        json_number(*old(doc), member@) is Some ==> json_number(*final(doc), member@) == Some(
            n as u64,
        ),
{
    if let Some(members) = doc.as_object_mut() {
        members.insert(member.into(), Value::from(n));
    }
}

/// The number that a document's schema is read from: its member `schema`.
pub open spec fn json_schema(doc: Value) -> Option<u64> {
    json_number(doc, "schema"@)
}

/// Why a manifest cannot be read.
#[derive(Debug)]
pub enum ManifestError {
    /// It is no JSON document; holds the parser's complaint.
    Malformed(String),
    /// It was written by a newer version, which this build cannot safely interpret.
    Newer { schema: u64 },
}

impl ManifestError {
    /// The text shown for an error.
    pub open spec fn text(self) -> Seq<char> {
        match self {
            ManifestError::Malformed(m) => m@,
            ManifestError::Newer { schema } => {
                "this project was saved by a newer Vuoom (schema "@ + decimal(schema as nat)
                    + ", this build understands up to schema "@ + decimal(SCHEMA as nat)
                    + "); please update Vuoom to open it"@
            },
        }
    }

    /// Human-readable description of the error.
    pub fn message(&self) -> (s: String)
        ensures
            s@ == self.text(),
    {
        match self {
            ManifestError::Malformed(m) => m.clone(),
            ManifestError::Newer { schema } => {
                let mut s = "this project was saved by a newer Vuoom (schema ".to_owned();
                push_decimal(&mut s, *schema as u128);
                s.push_str(", this build understands up to schema ");
                push_decimal(&mut s, SCHEMA as u128);
                s.push_str("); please update Vuoom to open it");
                s
            },
        }
    }
}

/// The schema of a document; one without the member is of the first version, which did not
/// have it yet.
pub open spec fn schema_of(doc: Value) -> u64 {
    match json_schema(doc) {
        Some(n) => n,
        None => 1,
    }
}

/// The schema that a member stands for.
pub fn schema_version(member: Option<u64>) -> (n: u64)
    ensures
        n == (match member {
            Some(n) => n,
            None => 1u64,
        }),
{
    match member {
        Some(n) => n,
        None => 1,
    }
}

/// Whether a document of a schema can be read: older ones are brought forward, newer ones
/// are refused, since they may have renamed or retyped fields this build has never seen.
pub fn check_schema(schema: u64) -> (r: Result<(), ManifestError>)
    ensures
        match r {
            Ok(_) => schema <= SCHEMA,
            Err(e) => schema > SCHEMA && e == (ManifestError::Newer { schema }),
        },
{
    if schema > SCHEMA as u64 {
        Err(ManifestError::Newer { schema })
    } else {
        Ok(())
    }
}

/// Read a project manifest up to its typed fields.
///
/// The document is read untyped, its schema is checked, and whatever it claimed, it then
/// carries the current version. Every field that later schemas added has a default, so
/// bringing a document forward changes nothing else.
pub fn prepare_manifest(text: &str) -> (r: Result<Value, ManifestError>)
    ensures
        match json_document(text@) {
            None => {
                &&& r is Err
                &&& r->Err_0 is Malformed
                &&& exists|x: serde_json::Error| #[trigger] shown_as(x, r->Err_0->Malformed_0)
            },
            Some(doc) => if schema_of(doc) > SCHEMA {
                r is Err && r->Err_0 == (ManifestError::Newer { schema: schema_of(doc) })
            } else {
                &&& r is Ok
                &&& r->Ok_0 == json_stamped(doc, "schema"@, SCHEMA)
                &&& json_schema(r->Ok_0) == Some(SCHEMA as u64) || r->Ok_0 == doc
                &&& json_schema(doc) is Some ==> json_schema(r->Ok_0) == Some(SCHEMA as u64)
            },
        },
{
    let mut doc = match parse_json(text) {
        Ok(doc) => doc,
        Err(e) => {
            let fault = ManifestError::Malformed(e.to_string());
            assert(shown_as(e, fault->Malformed_0));
            return Err(fault);
        },
    };
    let schema: u64 = schema_version(number_member(&doc, "schema"));
    match check_schema(schema) {
        Ok(_) => {},
        Err(e) => return Err(e),
    }
    stamp_number(&mut doc, "schema", SCHEMA);
    Ok(doc)
}

} // verus!
