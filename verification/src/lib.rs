//! Conversion of legacy CBL reading lists into the versioned reading-list
//! schema.
//!
//! A CBL file is an XML document that states a reading list: a name, a
//! declared issue count and the issues in reading order. [`CBL::from_bytes`]
//! parses such a file, and [`convert`] turns the parsed list into a
//! [`DraftSpec`], the list in the "1.0-draft" schema.
//!
//! Parsing goes in three steps. [`document`] reads the bytes into tokens and
//! builds the tree of elements that the tokens spell. [`schema`] names the
//! records and fields of the legacy format, the keys under which a document
//! may state each field, and what a field is worth where the document
//! leaves it out. [`cbl`] decodes the tree into a [`CBL`]. [`aliases`] shows
//! that the choice among the keys of a field never changes the outcome.
//!
//! Every function is verified against its contract, with two exceptions
//! that call into other crates and are believed: the reading of bytes as XML
//! tokens in [`document`], and the minting of a unique identifier in
//! [`specs::draft`].

pub mod aliases;
pub mod cbl;
pub mod common;
pub mod document;
pub mod error;
pub mod schema;
pub mod specs;

pub use cbl::{
    CBLView, ComicReadingListItemBook, ComicReadingListItemBookDatabase,
    ComicReadingListItemBookDatabaseView, ComicReadingListItemBookView, ComicReadingListItems,
    ComicReadingListItemsView, CBL,
};
pub use common::{negative_default_i32, parse_i32, text_eq};
pub use document::{
    build_document, document_from, read_document, Attribute, AttributeView, Element, ElementView,
    Node, NodeView, Token, TokenView,
};
pub use error::{CLIError, CLIResult};
pub use schema::{
    key_names, keys_of, locate, read_nested, read_number, read_text, Field, Located, Record,
};
pub use specs::draft::{
    Database, DatabaseView, DraftSpec, DraftSpecView, FileDetails, FileDetailsView,
    ListAssociations, ListAssociationsView, ListDetails, ListDetailsView, ListIssue, ListIssueView,
    ListRelationship, ListRelationshipView, ListRelationships, ListRelationshipsView,
};
pub use specs::{convert, convert_with_id, SpecVersion, CURRENT_SPEC_VERSION};
