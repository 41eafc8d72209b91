//! Kinds of wiki entities and events, and the plain inputs and counts of
//! wiki operations.

use vstd::prelude::*;
use crate::models::Error;
use crate::text::{str_eq, to_chars, from_chars, append_str};

verus! {

/// What a wiki event is about.
#[derive(Clone, Copy, Debug, PartialEq, Eq, Structural)]
pub enum WikiEntityType {
    Root,
    Page,
}

/// Wire name of a wiki entity type.
pub open spec fn entity_type_str(t: WikiEntityType) -> Seq<char> {
    match t {
        WikiEntityType::Root => "root"@,
        WikiEntityType::Page => "page"@,
    }
}

/// Prefix of the error for an unknown entity type.
pub open spec fn invalid_entity_prefix() -> Seq<char> {
    "invalid wiki entity type: "@
}

impl WikiEntityType {
    pub fn as_str(self) -> (r: &'static str)
        ensures
            r@ == entity_type_str(self),
    {
        match self {
            WikiEntityType::Root => "root",
            WikiEntityType::Page => "page",
        }
    }

    /// Parses a wire name; any other text is an error that quotes it.
    pub fn parse(value: &str) -> (r: Result<WikiEntityType, Error>)
        ensures
            r matches Ok(t) ==> value@ == entity_type_str(t),
            r is Err ==> value@ != "root"@ && value@ != "page"@,
            r matches Err(e) ==> (e matches Error::Message(m) && m@ == invalid_entity_prefix() + value@),
    {
        if str_eq(value, "root") {
            Ok(WikiEntityType::Root)
        } else if str_eq(value, "page") {
            Ok(WikiEntityType::Page)
        } else {
            let mut m: Vec<char> = Vec::new();
            append_str(&mut m, "invalid wiki entity type: ");
            append_str(&mut m, value);
            Err(Error::Message(from_chars(&m)))
        }
    }
}

/// What happened to a wiki entity.
#[derive(Clone, Copy, Debug, PartialEq, Eq, Structural)]
pub enum WikiEventType {
    Created,
    Updated,
    Deleted,
}

/// Wire name of a wiki event type.
pub open spec fn wiki_event_str(t: WikiEventType) -> Seq<char> {
    match t {
        WikiEventType::Created => "created"@,
        WikiEventType::Updated => "updated"@,
        WikiEventType::Deleted => "deleted"@,
    }
}

impl WikiEventType {
    pub fn as_str(self) -> (r: &'static str)
        ensures
            r@ == wiki_event_str(self),
    {
        match self {
            WikiEventType::Created => "created",
            WikiEventType::Updated => "updated",
            WikiEventType::Deleted => "deleted",
        }
    }

    /// Parses a wire name; any other text is an invalid event type.
    pub fn parse(value: &str) -> (r: Result<WikiEventType, Error>)
        ensures
            r matches Ok(t) ==> value@ == wiki_event_str(t),
            r is Err ==> value@ != "created"@ && value@ != "updated"@ && value@ != "deleted"@,
            r matches Err(e) ==> (e matches Error::InvalidEventType(m) && m@ == value@),
    {
        if str_eq(value, "created") {
            Ok(WikiEventType::Created)
        } else if str_eq(value, "updated") {
            Ok(WikiEventType::Updated)
        } else if str_eq(value, "deleted") {
            Ok(WikiEventType::Deleted)
        } else {
            Err(Error::InvalidEventType(from_chars(&to_chars(value))))
        }
    }
}

/// Input for adding a wiki root.
#[derive(Clone, Debug)]
pub struct AddWikiRootInput {
    pub path: String,
    pub label: Option<String>,
}

/// Counts of a reindex.
#[derive(Clone, Copy, Debug)]
pub struct ReindexStats {
    pub scanned: u64,
    pub upserted: u64,
    pub missing: u64,
}

} // verus!
