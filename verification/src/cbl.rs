//! The legacy reading list: the record a CBL document decodes into, and
//! the decoding.
//!
//! A document states a record with an element. The element's attributes
//! and child elements state the record's fields, each under one of the
//! field's accepted keys; attributes and children under other keys, and
//! text between the children, are passed over. A field may be stated once.
//!
//! * A text field that is left out is empty.
//! * `volume` and `year` are -1 where they are left out, which keeps "not
//!   stated" apart from a stated 0.
//! * An issue has no database reference where none is stated.
//! * The issue count and the issue list of a reading list must be stated.
//! * Each element inside the issue list states one issue, whatever its
//!   tag, and the issues keep the order of the document.
//!
//! What breaks these rules is rejected as a whole, with a diagnostic that
//! names the first field at fault.

use crate::document::{
    document_read, read_document, xml_tokens, Element, ElementView, Node, NodeView, TokenView,
};
use crate::error::{fulfils, CLIError, CLIErrorView};
use crate::common::{lemma_zero_is_written, written_with_zeros, ABSENT};
use crate::schema::{
    found, missing, missing_field, nested_field, number_field, read_nested, read_number,
    read_text, text_at, text_field, Field, Found, Record,
};
use vstd::prelude::*;

verus! {

/// A legacy reading list: its display name, the number of issues it claims
/// to hold, and the issues themselves in reading order.
#[derive(Debug, PartialEq, Eq)]
pub struct CBL {
    pub name: String,
    pub num_issues: i32,
    pub items: ComicReadingListItems,
}

/// The issues of a legacy reading list, in reading order.
#[derive(Debug, PartialEq, Eq)]
pub struct ComicReadingListItems {
    pub books: Vec<ComicReadingListItemBook>,
}

/// One issue of a legacy reading list.
///
/// `number` is free text, since some issue numbers are alphanumeric.
/// `volume` and `year` hold -1 where the source did not state them.
#[derive(Debug, PartialEq, Eq)]
pub struct ComicReadingListItemBook {
    pub id: String,
    pub file_name: String,
    pub series: String,
    pub number: String,
    pub volume: i32,
    pub year: i32,
    pub format: String,
    pub database: Option<ComicReadingListItemBookDatabase>,
}

/// Where an issue can be found in an outside comic database. Both
/// identifiers are free text.
#[derive(Debug, PartialEq, Eq)]
pub struct ComicReadingListItemBookDatabase {
    pub name: String,
    pub series: String,
    pub issue: String,
}

/// The mathematical value of a [`CBL`].
pub struct CBLView {
    pub name: Seq<char>,
    pub num_issues: int,
    pub items: ComicReadingListItemsView,
}

/// The mathematical value of a [`ComicReadingListItems`].
pub struct ComicReadingListItemsView {
    pub books: Seq<ComicReadingListItemBookView>,
}

/// The mathematical value of a [`ComicReadingListItemBook`].
pub struct ComicReadingListItemBookView {
    pub id: Seq<char>,
    pub file_name: Seq<char>,
    pub series: Seq<char>,
    pub number: Seq<char>,
    pub volume: int,
    pub year: int,
    pub format: Seq<char>,
    pub database: Option<ComicReadingListItemBookDatabaseView>,
}

/// The mathematical value of a [`ComicReadingListItemBookDatabase`].
pub struct ComicReadingListItemBookDatabaseView {
    pub name: Seq<char>,
    pub series: Seq<char>,
    pub issue: Seq<char>,
}

impl DeepView for ComicReadingListItemBookDatabase {
    type V = ComicReadingListItemBookDatabaseView;

    open spec fn deep_view(&self) -> ComicReadingListItemBookDatabaseView {
        ComicReadingListItemBookDatabaseView {
            name: self.name@,
            series: self.series@,
            issue: self.issue@,
        }
    }
}

impl View for ComicReadingListItemBookDatabase {
    type V = ComicReadingListItemBookDatabaseView;

    open spec fn view(&self) -> ComicReadingListItemBookDatabaseView {
        self.deep_view()
    }
}

impl DeepView for ComicReadingListItemBook {
    type V = ComicReadingListItemBookView;

    open spec fn deep_view(&self) -> ComicReadingListItemBookView {
        ComicReadingListItemBookView {
            id: self.id@,
            file_name: self.file_name@,
            series: self.series@,
            number: self.number@,
            volume: self.volume as int,
            year: self.year as int,
            format: self.format@,
            database: self.database.deep_view(),
        }
    }
}

impl View for ComicReadingListItemBook {
    type V = ComicReadingListItemBookView;

    open spec fn view(&self) -> ComicReadingListItemBookView {
        self.deep_view()
    }
}

impl DeepView for ComicReadingListItems {
    type V = ComicReadingListItemsView;

    open spec fn deep_view(&self) -> ComicReadingListItemsView {
        ComicReadingListItemsView { books: self.books.deep_view() }
    }
}

impl View for ComicReadingListItems {
    type V = ComicReadingListItemsView;

    open spec fn view(&self) -> ComicReadingListItemsView {
        self.deep_view()
    }
}

impl DeepView for CBL {
    type V = CBLView;

    open spec fn deep_view(&self) -> CBLView {
        CBLView {
            name: self.name@,
            num_issues: self.num_issues as int,
            items: self.items.deep_view(),
        }
    }
}

impl View for CBL {
    type V = CBLView;

    open spec fn view(&self) -> CBLView {
        self.deep_view()
    }
}

impl CBLView {
    /// The declared issue count is the number of issues held.
    pub open spec fn count_matches(self) -> bool {
        self.num_issues == self.items.books.len()
    }

    /// The year of each issue, in reading order.
    pub open spec fn years(self) -> Seq<int> {
        Seq::new(self.items.books.len(), |i: int| self.items.books[i].year)
    }
}

/// The diagnostic for text that stands where an issue is expected.
pub const TEXT_AMONG_ISSUES: &'static str = "text found where an issue is expected";

/// The database reference that an element states.
pub open spec fn decoded_database(element: ElementView) -> Result<
    ComicReadingListItemBookDatabaseView,
    Seq<char>,
> {
    let name = text_field(element, Record::Database, Field::Name);
    let series = text_field(element, Record::Database, Field::Series);
    let issue = text_field(element, Record::Database, Field::Issue);
    if name is Err {
        Err(name->Err_0)
    } else if series is Err {
        Err(series->Err_0)
    } else if issue is Err {
        Err(issue->Err_0)
    } else {
        Ok(
            ComicReadingListItemBookDatabaseView {
                name: name->Ok_0,
                series: series->Ok_0,
                issue: issue->Ok_0,
            },
        )
    }
}

/// The database reference of an issue: none where the issue's element
/// states none.
pub open spec fn database_field(element: ElementView) -> Result<
    Option<ComicReadingListItemBookDatabaseView>,
    Seq<char>,
> {
    match nested_field(element, Record::Book, Field::Database) {
        Ok(Some(child)) => match decoded_database(child) {
            Ok(database) => Ok(Some(database)),
            Err(message) => Err(message),
        },
        Ok(None) => Ok(None),
        Err(message) => Err(message),
    }
}

/// The issue that an element states. Text fields that the element leaves
/// out are empty, `volume` and `year` are -1 where it leaves them out, and
/// there is no database reference where it states none.
pub open spec fn decoded_book(element: ElementView) -> Result<
    ComicReadingListItemBookView,
    Seq<char>,
> {
    let id = text_field(element, Record::Book, Field::Id);
    let file_name = text_field(element, Record::Book, Field::FileName);
    let series = text_field(element, Record::Book, Field::Series);
    let number = text_field(element, Record::Book, Field::Number);
    let volume = number_field(element, Record::Book, Field::Volume, Some(ABSENT));
    let year = number_field(element, Record::Book, Field::Year, Some(ABSENT));
    let format = text_field(element, Record::Book, Field::Format);
    let database = database_field(element);
    if id is Err {
        Err(id->Err_0)
    } else if file_name is Err {
        Err(file_name->Err_0)
    } else if series is Err {
        Err(series->Err_0)
    } else if number is Err {
        Err(number->Err_0)
    } else if volume is Err {
        Err(volume->Err_0)
    } else if year is Err {
        Err(year->Err_0)
    } else if format is Err {
        Err(format->Err_0)
    } else if database is Err {
        Err(database->Err_0)
    } else {
        Ok(
            ComicReadingListItemBookView {
                id: id->Ok_0,
                file_name: file_name->Ok_0,
                series: series->Ok_0,
                number: number->Ok_0,
                volume: volume->Ok_0 as int,
                year: year->Ok_0 as int,
                format: format->Ok_0,
                database: database->Ok_0,
            },
        )
    }
}

/// The issue that a node of the issue list states. Every element there
/// states an issue, whatever its tag; text states none.
pub open spec fn decoded_entry(node: NodeView) -> Result<ComicReadingListItemBookView, Seq<char>> {
    match node {
        NodeView::Element(element) => decoded_book(element),
        NodeView::Text(_) => Err(TEXT_AMONG_ISSUES@),
    }
}

/// The issues that a run of nodes states, in the order of the nodes. The
/// first node that states no issue decides the diagnostic.
pub open spec fn decoded_books(nodes: Seq<NodeView>) -> Result<
    Seq<ComicReadingListItemBookView>,
    Seq<char>,
>
    decreases nodes.len(),
{
    if nodes.len() == 0 {
        Ok(Seq::empty())
    } else {
        match decoded_books(nodes.drop_last()) {
            Ok(books) => match decoded_entry(nodes.last()) {
                Ok(book) => Ok(books.push(book)),
                Err(message) => Err(message),
            },
            Err(message) => Err(message),
        }
    }
}

/// The issue list of a reading list. The list must state it.
pub open spec fn items_field(element: ElementView) -> Result<ComicReadingListItemsView, Seq<char>> {
    match nested_field(element, Record::List, Field::Books) {
        Ok(Some(child)) => match decoded_books(child.children) {
            Ok(books) => Ok(ComicReadingListItemsView { books }),
            Err(message) => Err(message),
        },
        Ok(None) => Err(missing_field(Record::List, Field::Books)),
        Err(message) => Err(message),
    }
}

/// The reading list that a document states. The name is empty where the
/// document leaves it out; the issue count and the issue list must be
/// stated.
pub open spec fn decoded_list(document: ElementView) -> Result<CBLView, Seq<char>> {
    let name = text_field(document, Record::List, Field::Name);
    let num_issues = number_field(document, Record::List, Field::NumIssues, None);
    let items = items_field(document);
    if name is Err {
        Err(name->Err_0)
    } else if num_issues is Err {
        Err(num_issues->Err_0)
    } else if items is Err {
        Err(items->Err_0)
    } else {
        Ok(CBLView { name: name->Ok_0, num_issues: num_issues->Ok_0 as int, items: items->Ok_0 })
    }
}

/// The reading list, or the diagnostic, that the outcome of reading a byte
/// string stands for.
pub open spec fn list_read(read: Result<Seq<TokenView>, Seq<char>>) -> Result<CBLView, Seq<char>> {
    match document_read(read) {
        Ok(document) => decoded_list(document),
        Err(message) => Err(message),
    }
}

/// The issues that a run of nodes states are as many as the nodes and stand
/// in the order of the nodes: each node states the issue at its position.
pub proof fn lemma_issues_in_source_order(nodes: Seq<NodeView>)
    requires
        decoded_books(nodes) is Ok,
    ensures
        decoded_books(nodes)->Ok_0.len() == nodes.len(),
        forall|i: int|
            0 <= i < nodes.len() ==> decoded_entry(#[trigger] nodes[i]) == Ok::<
                ComicReadingListItemBookView,
                Seq<char>,
            >(decoded_books(nodes)->Ok_0[i]),
    decreases nodes.len(),
{
    if nodes.len() > 0 {
        lemma_issues_in_source_order(nodes.drop_last());
        let books = decoded_books(nodes)->Ok_0;
        let before = decoded_books(nodes.drop_last())->Ok_0;
        assert forall|i: int| 0 <= i < nodes.len() implies decoded_entry(#[trigger] nodes[i])
            == Ok::<ComicReadingListItemBookView, Seq<char>>(books[i]) by {
            if i < nodes.len() - 1 {
                assert(nodes.drop_last()[i] == nodes[i]);
                assert(books[i] == before[i]);
            }
        }
    }
}

/// A decoded reading list holds one issue for each node of the issue list
/// that its document states, in the order of the document.
pub proof fn lemma_list_keeps_source_order(document: ElementView)
    requires
        decoded_list(document) is Ok,
    ensures
        nested_field(document, Record::List, Field::Books) matches Ok(Some(container)) && {
            let books = decoded_list(document)->Ok_0.items.books;
            &&& books.len() == container.children.len()
            &&& forall|i: int|
                0 <= i < books.len() ==> decoded_entry(#[trigger] container.children[i]) == Ok::<
                    ComicReadingListItemBookView,
                    Seq<char>,
                >(books[i])
        },
{
    let container = nested_field(document, Record::List, Field::Books)->Ok_0->Some_0;
    lemma_issues_in_source_order(container.children);
}

/// The element states the field at one place, as a literal for zero.
pub open spec fn states_zero(element: ElementView, record: Record, field: Field) -> bool {
    match found(element, record, field) {
        Found::Once(place) => match text_at(element, place) {
            Some(text) => written_with_zeros(text),
            None => false,
        },
        _ => false,
    }
}

/// The number fields of an issue are -1 where the issue's element leaves
/// them out, and are 0 only where the element states them with a literal
/// for zero.
pub proof fn lemma_absent_numbers_are_minus_one(element: ElementView)
    requires
        decoded_book(element) is Ok,
    ensures
        found(element, Record::Book, Field::Volume) is Missing ==> decoded_book(
            element,
        )->Ok_0.volume == -1,
        found(element, Record::Book, Field::Year) is Missing ==> decoded_book(element)->Ok_0.year
            == -1,
        decoded_book(element)->Ok_0.volume == 0 ==> states_zero(
            element,
            Record::Book,
            Field::Volume,
        ),
        decoded_book(element)->Ok_0.year == 0 ==> states_zero(element, Record::Book, Field::Year),
{
    let book = decoded_book(element)->Ok_0;
    if book.volume == 0 {
        let place = found(element, Record::Book, Field::Volume)->Once_0;
        lemma_zero_is_written(text_at(element, place)->Some_0);
    }
    if book.year == 0 {
        let place = found(element, Record::Book, Field::Year)->Once_0;
        lemma_zero_is_written(text_at(element, place)->Some_0);
    }
}

/// Decodes the database reference that an element states.
fn decode_database(element: &Element) -> (outcome: Result<
    ComicReadingListItemBookDatabase,
    CLIError,
>)
    ensures
        fulfils(outcome, decoded_database(element@)),
{
    let name = match read_text(element, Record::Database, Field::Name) {
        Ok(text) => text,
        Err(error) => {
            return Err(error);
        },
    };
    let series = match read_text(element, Record::Database, Field::Series) {
        Ok(text) => text,
        Err(error) => {
            return Err(error);
        },
    };
    let issue = match read_text(element, Record::Database, Field::Issue) {
        Ok(text) => text,
        Err(error) => {
            return Err(error);
        },
    };
    Ok(ComicReadingListItemBookDatabase { name, series, issue })
}

/// Decodes the database reference of an issue.
fn decode_database_field(element: &Element) -> (outcome: Result<
    Option<ComicReadingListItemBookDatabase>,
    CLIError,
>)
    ensures
        fulfils(outcome, database_field(element@)),
{
    match read_nested(element, Record::Book, Field::Database) {
        Ok(Some(child)) => match decode_database(child) {
            Ok(database) => Ok(Some(database)),
            Err(error) => Err(error),
        },
        Ok(None) => Ok(None),
        Err(error) => Err(error),
    }
}

/// Decodes the issue that an element states.
fn decode_book(element: &Element) -> (outcome: Result<ComicReadingListItemBook, CLIError>)
    ensures
        fulfils(outcome, decoded_book(element@)),
{
    let id = match read_text(element, Record::Book, Field::Id) {
        Ok(text) => text,
        Err(error) => {
            return Err(error);
        },
    };
    let file_name = match read_text(element, Record::Book, Field::FileName) {
        Ok(text) => text,
        Err(error) => {
            return Err(error);
        },
    };
    let series = match read_text(element, Record::Book, Field::Series) {
        Ok(text) => text,
        Err(error) => {
            return Err(error);
        },
    };
    let number = match read_text(element, Record::Book, Field::Number) {
        Ok(text) => text,
        Err(error) => {
            return Err(error);
        },
    };
    let volume = match read_number(element, Record::Book, Field::Volume, Some(ABSENT)) {
        Ok(value) => value,
        Err(error) => {
            return Err(error);
        },
    };
    let year = match read_number(element, Record::Book, Field::Year, Some(ABSENT)) {
        Ok(value) => value,
        Err(error) => {
            return Err(error);
        },
    };
    let format = match read_text(element, Record::Book, Field::Format) {
        Ok(text) => text,
        Err(error) => {
            return Err(error);
        },
    };
    let database = match decode_database_field(element) {
        Ok(found) => found,
        Err(error) => {
            return Err(error);
        },
    };
    Ok(ComicReadingListItemBook { id, file_name, series, number, volume, year, format, database })
}

/// Once a node states no issue, no longer run of nodes states issues.
proof fn lemma_books_error_stays(nodes: Seq<NodeView>, seen: int)
    requires
        0 <= seen <= nodes.len(),
        decoded_books(nodes.take(seen)) is Err,
    ensures
        decoded_books(nodes) == decoded_books(nodes.take(seen)),
    decreases nodes.len() - seen,
{
    if seen == nodes.len() {
        assert(nodes.take(seen) =~= nodes);
    } else {
        assert(nodes.take(seen + 1).drop_last() =~= nodes.take(seen));
        lemma_books_error_stays(nodes, seen + 1);
    }
}

/// Decodes the issues that the children of an element state.
fn decode_books(container: &Element) -> (outcome: Result<Vec<ComicReadingListItemBook>, CLIError>)
    ensures
        fulfils(outcome, decoded_books(container@.children)),
{
    let ghost nodes = container@.children;
    let mut books: Vec<ComicReadingListItemBook> = Vec::new();
    let mut i: usize = 0;
    assert(nodes.take(0) =~= Seq::<NodeView>::empty());
    assert(books.deep_view() =~= Seq::<ComicReadingListItemBookView>::empty());
    while i < container.children.len()
        invariant
            i <= container.children.len(),
            nodes == container@.children,
            decoded_books(nodes.take(i as int)) == Ok::<
                Seq<ComicReadingListItemBookView>,
                Seq<char>,
            >(books.deep_view()),
        decreases container.children.len() - i,
    {
        let ghost before = books.deep_view();
        proof {
            assert(nodes[i as int] == container.children@[i as int]@);
            assert(nodes.take(i + 1).drop_last() =~= nodes.take(i as int));
            assert(nodes.take(i + 1).last() == nodes[i as int]);
        }
        let decoded = match &container.children[i] {
            Node::Element(element) => decode_book(element),
            Node::Text(_) => Err(CLIError::InvalidCBL(String::from_str(TEXT_AMONG_ISSUES))),
        };
        match decoded {
            Ok(book) => {
                books.push(book);
                assert(books.deep_view() =~= before.push(book@));
            },
            Err(error) => {
                proof {
                    lemma_books_error_stays(nodes, i + 1);
                }
                return Err(error);
            },
        }
        i += 1;
    }
    assert(nodes.take(i as int) =~= nodes);
    Ok(books)
}

/// Decodes the issue list of a reading list.
fn decode_items(document: &Element) -> (outcome: Result<ComicReadingListItems, CLIError>)
    ensures
        fulfils(outcome, items_field(document@)),
{
    match read_nested(document, Record::List, Field::Books) {
        Ok(Some(child)) => match decode_books(child) {
            Ok(books) => Ok(ComicReadingListItems { books }),
            Err(error) => Err(error),
        },
        Ok(None) => Err(missing(Record::List, Field::Books)),
        Err(error) => Err(error),
    }
}

impl CBL {
    /// Decodes the reading list that a document states.
    ///
    /// The outermost element stands for the list, whatever its tag. Its
    /// attributes and child elements state the fields, each under any of
    /// its accepted keys; what is keyed otherwise is passed over. Each
    /// element inside the issue list states one issue, and the issues keep
    /// the order of the document.
    pub fn from_document(document: &Element) -> (outcome: Result<CBL, CLIError>)
        ensures
            fulfils(outcome, decoded_list(document@)),
    {
        let name = match read_text(document, Record::List, Field::Name) {
            Ok(text) => text,
            Err(error) => {
                return Err(error);
            },
        };
        let num_issues = match read_number(document, Record::List, Field::NumIssues, None) {
            Ok(value) => value,
            Err(error) => {
                return Err(error);
            },
        };
        let items = match decode_items(document) {
            Ok(items) => items,
            Err(error) => {
                return Err(error);
            },
        };
        Ok(CBL { name, num_issues, items })
    }

    /// Parses a legacy reading list from the bytes of a CBL file.
    ///
    /// Bytes that are not XML, and XML that does not state a reading list,
    /// are rejected with a diagnostic; nothing is returned for them.
    pub fn from_bytes(data: &[u8]) -> (outcome: Result<CBL, CLIError>)
        ensures
            fulfils(outcome, list_read(xml_tokens(data@))),
            xml_tokens(data@) matches Err(complaint) ==> outcome matches Err(error) && error@
                == CLIErrorView::InvalidCBL(complaint),
    {
        match read_document(data) {
            Ok(document) => CBL::from_document(&document),
            Err(error) => Err(error),
        }
    }

    /// Whether the declared issue count is the number of issues held. A
    /// mismatch is a sign of poor data, not a failure.
    pub fn count_matches(&self) -> (matches: bool)
        ensures
            matches == self@.count_matches(),
    {
        self.num_issues >= 0 && self.num_issues as usize == self.items.books.len()
    }
}

} // verus!
