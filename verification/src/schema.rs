//! The shape of the legacy format: its records, their fields, the keys
//! under which a document may state each field, and how a field is found
//! among the attributes and children of an element.

use crate::common::{decimal_i32, parse_i32, text_eq};
use crate::document::{Element, ElementView, Node, NodeView};
use crate::error::{fulfils, CLIError, CLIErrorView};
use vstd::prelude::*;

verus! {

/// The kinds of record that the legacy format holds.
#[derive(Debug, Clone, Copy, PartialEq, Eq, Structural)]
pub enum Record {
    /// The reading list itself.
    List,
    /// One issue of the list.
    Book,
    /// An issue's reference into an outside database.
    Database,
}

/// The fields of the legacy format's records.
#[derive(Debug, Clone, Copy, PartialEq, Eq, Structural)]
pub enum Field {
    Name,
    NumIssues,
    Books,
    Id,
    FileName,
    Series,
    Number,
    Volume,
    Year,
    Format,
    Database,
    Issue,
}

/// The table of accepted keys: for each field of each record, the plain
/// key and the tag under which documents usually state it. A record has no
/// other fields than those listed.
pub open spec fn field_keys(record: Record, field: Field) -> Option<(Seq<char>, Seq<char>)> {
    match (record, field) {
        (Record::List, Field::Name) => Some(("name"@, "Name"@)),
        (Record::List, Field::NumIssues) => Some(("num_issues"@, "NumIssues"@)),
        (Record::List, Field::Books) => Some(("items"@, "Books"@)),
        (Record::Book, Field::Id) => Some(("id"@, "Id"@)),
        (Record::Book, Field::FileName) => Some(("file_name"@, "FileName"@)),
        (Record::Book, Field::Series) => Some(("series"@, "Series"@)),
        (Record::Book, Field::Number) => Some(("number"@, "Number"@)),
        (Record::Book, Field::Volume) => Some(("volume"@, "Volume"@)),
        (Record::Book, Field::Year) => Some(("year"@, "Year"@)),
        (Record::Book, Field::Format) => Some(("format"@, "Format"@)),
        (Record::Book, Field::Database) => Some(("database"@, "Database"@)),
        (Record::Database, Field::Name) => Some(("name"@, "Name"@)),
        (Record::Database, Field::Series) => Some(("series"@, "Series"@)),
        (Record::Database, Field::Issue) => Some(("issue"@, "Issue"@)),
        _ => None,
    }
}

/// The key names the field in the record.
pub open spec fn names(key: Seq<char>, record: Record, field: Field) -> bool {
    match field_keys(record, field) {
        Some((plain, tag)) => key == plain || key == tag,
        None => false,
    }
}

/// Two keys that a record reads alike: one key, or two keys of one field.
pub open spec fn same_key(record: Record, a: Seq<char>, b: Seq<char>) -> bool {
    a == b || exists|field: Field| names(a, record, field) && names(b, record, field)
}

/// A key names at most one field of a record.
pub proof fn lemma_key_names_one_field(key: Seq<char>, record: Record, first: Field, second: Field)
    requires
        names(key, record, first),
        names(key, record, second),
    ensures
        first == second,
{
    reveal_strlit("name");
    reveal_strlit("Name");
    reveal_strlit("num_issues");
    reveal_strlit("NumIssues");
    reveal_strlit("items");
    reveal_strlit("Books");
    reveal_strlit("id");
    reveal_strlit("Id");
    reveal_strlit("file_name");
    reveal_strlit("FileName");
    reveal_strlit("series");
    reveal_strlit("Series");
    reveal_strlit("number");
    reveal_strlit("Number");
    reveal_strlit("volume");
    reveal_strlit("Volume");
    reveal_strlit("year");
    reveal_strlit("Year");
    reveal_strlit("format");
    reveal_strlit("Format");
    reveal_strlit("database");
    reveal_strlit("Database");
    reveal_strlit("issue");
    reveal_strlit("Issue");
    if first != second {
        let (first_plain, first_tag) = field_keys(record, first)->Some_0;
        let (second_plain, second_tag) = field_keys(record, second)->Some_0;
        assert(first_plain.len() != second_plain.len() || first_plain[0] != second_plain[0]);
        assert(first_plain.len() != second_tag.len() || first_plain[0] != second_tag[0]);
        assert(first_tag.len() != second_plain.len() || first_tag[0] != second_plain[0]);
        assert(first_tag.len() != second_tag.len() || first_tag[0] != second_tag[0]);
    }
}

/// Keys that a record reads alike name the same fields.
pub proof fn lemma_same_key_names(record: Record, a: Seq<char>, b: Seq<char>, field: Field)
    requires
        same_key(record, a, b),
    ensures
        names(a, record, field) == names(b, record, field),
{
    if a != b {
        let shared = choose|shared: Field| names(a, record, shared) && names(b, record, shared);
        if names(a, record, field) {
            lemma_key_names_one_field(a, record, field, shared);
        }
        if names(b, record, field) {
            lemma_key_names_one_field(b, record, field, shared);
        }
    }
}

/// The name by which diagnostics call a field: its plain key.
pub open spec fn field_name(record: Record, field: Field) -> Seq<char> {
    match field_keys(record, field) {
        Some((plain, tag)) => plain,
        None => Seq::empty(),
    }
}

/// The accepted keys of a field of a record.
pub fn keys_of(record: Record, field: Field) -> (keys: Option<(&'static str, &'static str)>)
    ensures
        match keys {
            Some((plain, tag)) => field_keys(record, field) == Some((plain@, tag@)),
            None => field_keys(record, field) is None,
        },
{
    match (record, field) {
        (Record::List, Field::Name) => Some(("name", "Name")),
        (Record::List, Field::NumIssues) => Some(("num_issues", "NumIssues")),
        (Record::List, Field::Books) => Some(("items", "Books")),
        (Record::Book, Field::Id) => Some(("id", "Id")),
        (Record::Book, Field::FileName) => Some(("file_name", "FileName")),
        (Record::Book, Field::Series) => Some(("series", "Series")),
        (Record::Book, Field::Number) => Some(("number", "Number")),
        (Record::Book, Field::Volume) => Some(("volume", "Volume")),
        (Record::Book, Field::Year) => Some(("year", "Year")),
        (Record::Book, Field::Format) => Some(("format", "Format")),
        (Record::Book, Field::Database) => Some(("database", "Database")),
        (Record::Database, Field::Name) => Some(("name", "Name")),
        (Record::Database, Field::Series) => Some(("series", "Series")),
        (Record::Database, Field::Issue) => Some(("issue", "Issue")),
        _ => None,
    }
}

/// Whether a key names a field of a record.
pub fn key_names(key: &str, record: Record, field: Field) -> (named: bool)
    ensures
        named == names(key@, record, field),
{
    match keys_of(record, field) {
        Some((plain, tag)) => text_eq(key, plain) || text_eq(key, tag),
        None => false,
    }
}

/// The diagnostic for a field that must be stated and is not.
pub open spec fn missing_field(record: Record, field: Field) -> Seq<char> {
    "missing field `"@ + field_name(record, field) + "`"@
}

/// The diagnostic for a field that is stated more than once.
pub open spec fn duplicate_field(record: Record, field: Field) -> Seq<char> {
    "duplicate field `"@ + field_name(record, field) + "`"@
}

/// The diagnostic for a field whose value is not of the kind the field
/// holds.
pub open spec fn invalid_field(record: Record, field: Field) -> Seq<char> {
    "invalid value for field `"@ + field_name(record, field) + "`"@
}

/// The failure that carries a diagnostic about a field.
fn field_failure(opening: &str, record: Record, field: Field) -> (error: CLIError)
    ensures
        error@ == CLIErrorView::InvalidCBL(opening@ + field_name(record, field) + "`"@),
{
    let mut text = String::from_str(opening);
    match keys_of(record, field) {
        Some((plain, tag)) => {
            text.append(plain);
        },
        None => {
            assert(text@ + field_name(record, field) =~= text@);
        },
    }
    text.append("`");
    CLIError::InvalidCBL(text)
}

/// A place inside an element where a field can be stated: the attribute or
/// the child at a position.
pub enum Place {
    Attribute(int),
    Child(int),
}

/// The element states the field at the place: an attribute, or a child
/// element, whose name is a key of the field stands there.
pub open spec fn occurs(element: ElementView, record: Record, field: Field, place: Place) -> bool {
    match place {
        Place::Attribute(i) => 0 <= i < element.attributes.len() && names(
            element.attributes[i].name,
            record,
            field,
        ),
        Place::Child(i) => 0 <= i < element.children.len() && match element.children[i] {
            NodeView::Element(child) => names(child.name, record, field),
            NodeView::Text(_) => false,
        },
    }
}

/// The element states the field at the place and nowhere else.
pub open spec fn sole(element: ElementView, record: Record, field: Field, place: Place) -> bool {
    &&& occurs(element, record, field, place)
    &&& forall|other: Place| #[trigger]
        occurs(element, record, field, other) ==> other == place
}

/// How often an element states a field.
pub enum Found {
    /// Nowhere.
    Missing,
    /// At one place.
    Once(Place),
    /// At more than one place.
    Repeated,
}

/// How often, and where, an element states a field.
pub open spec fn found(element: ElementView, record: Record, field: Field) -> Found {
    if forall|place: Place| !#[trigger] occurs(element, record, field, place) {
        Found::Missing
    } else if exists|place: Place| sole(element, record, field, place) {
        Found::Once(choose|place: Place| sole(element, record, field, place))
    } else {
        Found::Repeated
    }
}

/// How often, and where, an element states a field.
#[derive(Debug, Clone, Copy, PartialEq, Eq, Structural)]
pub enum Located {
    /// Nowhere.
    Missing,
    /// In the attribute at this position, and nowhere else.
    Attribute(usize),
    /// In the child at this position, and nowhere else.
    Child(usize),
    /// At more than one place.
    Repeated,
}

impl View for Located {
    type V = Found;

    open spec fn view(&self) -> Found {
        match self {
            Located::Missing => Found::Missing,
            Located::Attribute(i) => Found::Once(Place::Attribute(*i as int)),
            Located::Child(i) => Found::Once(Place::Child(*i as int)),
            Located::Repeated => Found::Repeated,
        }
    }
}

/// A field stated at one place only is found there.
proof fn lemma_found_once(element: ElementView, record: Record, field: Field, place: Place)
    requires
        sole(element, record, field, place),
    ensures
        found(element, record, field) == Found::Once(place),
{
    let chosen = choose|p: Place| sole(element, record, field, p);
    assert(occurs(element, record, field, chosen));
}

/// A field stated at two places is found repeated.
proof fn lemma_found_repeated(
    element: ElementView,
    record: Record,
    field: Field,
    first: Place,
    second: Place,
)
    requires
        occurs(element, record, field, first),
        occurs(element, record, field, second),
        first != second,
    ensures
        found(element, record, field) == Found::Repeated,
{
    assert forall|place: Place| !sole(element, record, field, place) by {
        if sole(element, record, field, place) {
            assert(first == place);
            assert(second == place);
        }
    }
}

/// Finds where an element states a field.
pub fn locate(element: &Element, record: Record, field: Field) -> (located: Located)
    ensures
        located@ == found(element@, record, field),
{
    let ghost view = element@;
    let mut located = Located::Missing;
    let mut i: usize = 0;
    while i < element.attributes.len()
        invariant
            i <= element.attributes.len(),
            view == element@,
            match located {
                Located::Missing => forall|k: int|
                    0 <= k < i ==> !#[trigger] occurs(view, record, field, Place::Attribute(k)),
                Located::Attribute(at) => at < i && forall|k: int|
                    0 <= k < i ==> (#[trigger] occurs(view, record, field, Place::Attribute(k))
                        <==> k == at),
                _ => false,
            },
        decreases element.attributes.len() - i,
    {
        assert(view.attributes[i as int].name == element.attributes@[i as int].name@);
        if key_names(element.attributes[i].name.as_str(), record, field) {
            match located {
                Located::Attribute(at) => {
                    proof {
                        lemma_found_repeated(
                            view,
                            record,
                            field,
                            Place::Attribute(at as int),
                            Place::Attribute(i as int),
                        );
                    }
                    return Located::Repeated;
                },
                _ => {
                    located = Located::Attribute(i);
                },
            }
        }
        i += 1;
    }
    let mut j: usize = 0;
    while j < element.children.len()
        invariant
            j <= element.children.len(),
            view == element@,
            match located {
                Located::Missing => (forall|k: int|
                    0 <= k < view.attributes.len() ==> !#[trigger] occurs(
                        view,
                        record,
                        field,
                        Place::Attribute(k),
                    )) && (forall|k: int|
                    0 <= k < j ==> !#[trigger] occurs(view, record, field, Place::Child(k))),
                Located::Attribute(at) => at < view.attributes.len() && (forall|k: int|
                    0 <= k < view.attributes.len() ==> (#[trigger] occurs(
                        view,
                        record,
                        field,
                        Place::Attribute(k),
                    ) <==> k == at)) && (forall|k: int|
                    0 <= k < j ==> !#[trigger] occurs(view, record, field, Place::Child(k))),
                Located::Child(at) => at < j && (forall|k: int|
                    0 <= k < view.attributes.len() ==> !#[trigger] occurs(
                        view,
                        record,
                        field,
                        Place::Attribute(k),
                    )) && (forall|k: int|
                    0 <= k < j ==> (#[trigger] occurs(view, record, field, Place::Child(k)) <==> k
                        == at)),
                Located::Repeated => false,
            },
        decreases element.children.len() - j,
    {
        assert(view.children[j as int] == element.children@[j as int]@);
        let named = match &element.children[j] {
            Node::Element(child) => key_names(child.name.as_str(), record, field),
            Node::Text(_) => false,
        };
        assert(named == occurs(view, record, field, Place::Child(j as int)));
        if named {
            match located {
                Located::Attribute(at) => {
                    proof {
                        lemma_found_repeated(
                            view,
                            record,
                            field,
                            Place::Attribute(at as int),
                            Place::Child(j as int),
                        );
                    }
                    return Located::Repeated;
                },
                Located::Child(at) => {
                    proof {
                        lemma_found_repeated(
                            view,
                            record,
                            field,
                            Place::Child(at as int),
                            Place::Child(j as int),
                        );
                    }
                    return Located::Repeated;
                },
                _ => {
                    located = Located::Child(j);
                },
            }
        }
        j += 1;
    }
    proof {
        match located {
            Located::Missing => {
                assert forall|place: Place| !#[trigger] occurs(view, record, field, place) by {
                    match place {
                        Place::Attribute(k) => {},
                        Place::Child(k) => {},
                    }
                }
            },
            Located::Attribute(at) => {
                let here = Place::Attribute(at as int);
                assert(occurs(view, record, field, here));
                assert forall|other: Place| #[trigger]
                    occurs(view, record, field, other) implies other == here by {
                    match other {
                        Place::Attribute(k) => {},
                        Place::Child(k) => {},
                    }
                }
                lemma_found_once(view, record, field, here);
            },
            Located::Child(at) => {
                let here = Place::Child(at as int);
                assert(occurs(view, record, field, here));
                assert forall|other: Place| #[trigger]
                    occurs(view, record, field, other) implies other == here by {
                    match other {
                        Place::Attribute(k) => {},
                        Place::Child(k) => {},
                    }
                }
                lemma_found_once(view, record, field, here);
            },
            Located::Repeated => {},
        }
    }
    located
}

/// The text that an element holds, where it holds nothing else: the one
/// run of text between its tags, or no text where nothing stands there.
pub open spec fn plain_text(element: ElementView) -> Option<Seq<char>> {
    if element.children.len() == 0 {
        Some(Seq::empty())
    } else if element.children.len() == 1 {
        match element.children[0] {
            NodeView::Text(text) => Some(text),
            NodeView::Element(_) => None,
        }
    } else {
        None
    }
}

/// The text stated at a place: an attribute's value, or the text that a
/// child element holds where it holds nothing else.
pub open spec fn text_at(element: ElementView, place: Place) -> Option<Seq<char>> {
    match place {
        Place::Attribute(i) => Some(element.attributes[i].value),
        Place::Child(i) => match element.children[i] {
            NodeView::Element(child) => plain_text(child),
            NodeView::Text(_) => None,
        },
    }
}

/// The element stated at a place, where the place is a child element.
pub open spec fn element_at(element: ElementView, place: Place) -> Option<ElementView> {
    match place {
        Place::Attribute(i) => None,
        Place::Child(i) => match element.children[i] {
            NodeView::Element(child) => Some(child),
            NodeView::Text(_) => None,
        },
    }
}

/// The value of a text field: empty where the element does not state it.
/// Stating it twice, or with anything but text, is an error.
pub open spec fn text_field(element: ElementView, record: Record, field: Field) -> Result<
    Seq<char>,
    Seq<char>,
> {
    match found(element, record, field) {
        Found::Missing => Ok(Seq::empty()),
        Found::Repeated => Err(duplicate_field(record, field)),
        Found::Once(place) => match text_at(element, place) {
            Some(text) => Ok(text),
            None => Err(invalid_field(record, field)),
        },
    }
}

/// The value of a number field: the default where the element does not
/// state it, which is an error for a field without default. Stating it
/// twice, or with anything but a decimal literal that fits, is an error.
pub open spec fn number_field(
    element: ElementView,
    record: Record,
    field: Field,
    default: Option<i32>,
) -> Result<i32, Seq<char>> {
    match found(element, record, field) {
        Found::Missing => match default {
            Some(value) => Ok(value),
            None => Err(missing_field(record, field)),
        },
        Found::Repeated => Err(duplicate_field(record, field)),
        Found::Once(place) => match text_at(element, place) {
            Some(text) => match decimal_i32(text) {
                Some(value) => Ok(value),
                None => Err(invalid_field(record, field)),
            },
            None => Err(invalid_field(record, field)),
        },
    }
}

/// The element that states a record-valued field, if the field is stated.
/// Stating it twice, or as an attribute, is an error.
pub open spec fn nested_field(element: ElementView, record: Record, field: Field) -> Result<
    Option<ElementView>,
    Seq<char>,
> {
    match found(element, record, field) {
        Found::Missing => Ok(None),
        Found::Repeated => Err(duplicate_field(record, field)),
        Found::Once(place) => match element_at(element, place) {
            Some(child) => Ok(Some(child)),
            None => Err(invalid_field(record, field)),
        },
    }
}

/// The failure for a field that must be stated and is not.
pub fn missing(record: Record, field: Field) -> (error: CLIError)
    ensures
        error@ == CLIErrorView::InvalidCBL(missing_field(record, field)),
{
    field_failure("missing field `", record, field)
}

/// The text that an element holds, where it holds nothing else.
fn element_text(element: &Element) -> (text: Option<String>)
    ensures
        text.deep_view() == plain_text(element@),
{
    if element.children.len() == 0 {
        Some(String::new())
    } else if element.children.len() == 1 {
        assert(element@.children[0] == element.children@[0]@);
        match &element.children[0] {
            Node::Text(text) => Some(text.clone()),
            Node::Element(_) => None,
        }
    } else {
        None
    }
}

/// The text stated at a place.
fn located_text(element: &Element, located: Located) -> (text: Option<String>)
    requires
        match located {
            Located::Attribute(i) => i < element.attributes@.len(),
            Located::Child(i) => i < element.children@.len(),
            _ => false,
        },
    ensures
        located@ matches Found::Once(place) && text.deep_view() == text_at(element@, place),
{
    match located {
        Located::Attribute(i) => {
            assert(element@.attributes[i as int].value == element.attributes@[i as int].value@);
            Some(element.attributes[i].value.clone())
        },
        Located::Child(i) => {
            assert(element@.children[i as int] == element.children@[i as int]@);
            match &element.children[i] {
                Node::Element(child) => element_text(child),
                Node::Text(_) => None,
            }
        },
        _ => None,
    }
}

/// A field found once is stated at a place inside the element.
proof fn lemma_found_place(element: ElementView, record: Record, field: Field)
    ensures
        found(element, record, field) matches Found::Once(place) ==> sole(
            element,
            record,
            field,
            place,
        ),
{
}

/// Reads a text field of a record from the element that states the record.
pub fn read_text(element: &Element, record: Record, field: Field) -> (outcome: Result<
    String,
    CLIError,
>)
    ensures
        fulfils(outcome, text_field(element@, record, field)),
{
    let located = locate(element, record, field);
    proof {
        lemma_found_place(element@, record, field);
    }
    match located {
        Located::Missing => Ok(String::new()),
        Located::Repeated => Err(field_failure("duplicate field `", record, field)),
        _ => match located_text(element, located) {
            Some(text) => Ok(text),
            None => Err(field_failure("invalid value for field `", record, field)),
        },
    }
}

/// Reads a number field of a record from the element that states the
/// record. A field without default must be stated.
pub fn read_number(
    element: &Element,
    record: Record,
    field: Field,
    default: Option<i32>,
) -> (outcome: Result<i32, CLIError>)
    ensures
        fulfils(outcome, number_field(element@, record, field, default)),
{
    let located = locate(element, record, field);
    proof {
        lemma_found_place(element@, record, field);
    }
    match located {
        Located::Missing => match default {
            Some(value) => Ok(value),
            None => Err(missing(record, field)),
        },
        Located::Repeated => Err(field_failure("duplicate field `", record, field)),
        _ => match located_text(element, located) {
            Some(text) => match parse_i32(text.as_str()) {
                Some(value) => Ok(value),
                None => Err(field_failure("invalid value for field `", record, field)),
            },
            None => Err(field_failure("invalid value for field `", record, field)),
        },
    }
}

/// Finds the element that states a record-valued field of a record.
pub fn read_nested<'a>(element: &'a Element, record: Record, field: Field) -> (outcome: Result<
    Option<&'a Element>,
    CLIError,
>)
    ensures
        fulfils(outcome, nested_field(element@, record, field)),
{
    let located = locate(element, record, field);
    proof {
        lemma_found_place(element@, record, field);
    }
    match located {
        Located::Missing => Ok(None),
        Located::Repeated => Err(field_failure("duplicate field `", record, field)),
        Located::Attribute(_) => Err(field_failure("invalid value for field `", record, field)),
        Located::Child(i) => {
            assert(element@.children[i as int] == element.children@[i as int]@);
            match &element.children[i] {
                Node::Element(child) => Ok(Some(child)),
                Node::Text(_) => Err(field_failure("invalid value for field `", record, field)),
            }
        },
    }
}

} // verus!
