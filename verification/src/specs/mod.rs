//! The versioned reading-list schemas and the choice between them.

use crate::cbl::{CBLView, CBL};
use crate::specs::draft::{draft_of, is_random_uuid, DraftSpec, DraftSpecView};
use vstd::prelude::*;

pub mod draft;

verus! {

/// The version string of the schema that conversions target by default.
pub const CURRENT_SPEC_VERSION: &'static str = draft::VERSION;

/// A version of the reading-list schema that a legacy list can be converted
/// into.
#[derive(Debug, Clone, Copy, PartialEq, Eq, Structural)]
pub enum SpecVersion {
    /// The "1.0-draft" schema.
    Draft,
}

impl Default for SpecVersion {
    fn default() -> (version: SpecVersion)
        ensures
            version == SpecVersion::Draft,
    {
        SpecVersion::Draft
    }
}

impl SpecVersion {
    /// The version string of this schema.
    pub open spec fn name(self) -> Seq<char> {
        match self {
            SpecVersion::Draft => draft::VERSION@,
        }
    }

    /// The version string of this schema.
    pub fn to_string(&self) -> (name: String)
        ensures
            name@ == self.name(),
    {
        match self {
            SpecVersion::Draft => String::from_str(draft::VERSION),
        }
    }
}

/// What a legacy reading list becomes in a given schema version under a
/// given unique identifier.
pub open spec fn converted(
    cbl: CBLView,
    version: SpecVersion,
    unique_id: Seq<char>,
) -> DraftSpecView {
    match version {
        SpecVersion::Draft => draft_of(cbl, unique_id),
    }
}

/// Converts a legacy reading list into the schema version asked for, under
/// the unique identifier given.
pub fn convert_with_id(cbl: CBL, version: SpecVersion, unique_id: String) -> (list: DraftSpec)
    ensures
        list@ == converted(cbl@, version, unique_id@),
{
    match version {
        SpecVersion::Draft => DraftSpec::from_legacy(cbl, unique_id),
    }
}

/// Converts a legacy reading list into the schema version asked for,
/// minting a fresh unique identifier for it.
pub fn convert(cbl: CBL, version: SpecVersion) -> (list: DraftSpec)
    ensures
        is_random_uuid(list@.file_details.unique_id),
        list@ == converted(cbl@, version, list@.file_details.unique_id),
        list@.file_details.version == version.name(),
{
    match version {
        SpecVersion::Draft => DraftSpec::from(cbl),
    }
}

} // verus!
