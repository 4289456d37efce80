//! The "1.0-draft" reading-list schema and the conversion of a legacy
//! reading list into it.

use crate::cbl::{
    CBLView, ComicReadingListItemBook, ComicReadingListItemBookDatabaseView,
    ComicReadingListItemBookView, CBL,
};
use crate::common::ABSENT;
use vstd::prelude::*;

verus! {

/// The version string of this schema.
pub const VERSION: &'static str = "1.0-draft";

/// A reading list in the "1.0-draft" schema.
#[derive(Debug, PartialEq, Eq)]
pub struct DraftSpec {
    /// The schema version and the list's unique identifier.
    pub file_details: FileDetails,
    /// The list's name, publisher and other metadata.
    pub list_details: ListDetails,
    /// The issues of the list, in reading order.
    pub issues: Vec<ListIssue>,
}

/// The schema version of a file and the unique identifier of its list.
#[derive(Debug, PartialEq, Eq)]
pub struct FileDetails {
    pub version: String,
    pub unique_id: String,
}

/// The metadata of a reading list.
#[derive(Debug, PartialEq, Eq)]
pub struct ListDetails {
    /// The name of the reading list.
    pub name: String,
    /// The description of the reading list, if any.
    pub description: Option<String>,
    /// The publishers of the list, joined by commas.
    pub publisher: String,
    pub imprint: String,
    /// The year in which the list chronologically begins; -1 if unknown.
    pub start_year: i32,
    /// The year in which the list chronologically ends; -1 if unknown.
    pub end_year: i32,
    /// The kind of list, such as "Chronological" or "Event"; several kinds
    /// are joined by commas.
    pub list_type: String,
    /// The characters and teams the list is about, if stated.
    pub associated: Option<ListAssociations>,
    /// URLs of cover images for the list.
    pub cover_image_urls: Vec<String>,
    /// The lists that come before and after this one, if stated.
    pub relationships: Option<ListRelationships>,
}

/// The characters and teams a reading list is about.
#[derive(Debug, PartialEq, Eq)]
pub struct ListAssociations {
    pub characters: Vec<String>,
    pub teams: Vec<String>,
}

/// The neighbours of a reading list in a sequence of lists.
#[derive(Debug, PartialEq, Eq)]
pub struct ListRelationships {
    pub previous: Option<ListRelationship>,
    pub next: Option<ListRelationship>,
}

/// A related reading list: its name and its unique identifier.
#[derive(Debug, PartialEq, Eq)]
pub struct ListRelationship {
    pub name: String,
    pub id: String,
}

/// One issue of a reading list.
#[derive(Debug, PartialEq, Eq)]
pub struct ListIssue {
    /// The series the issue belongs to.
    pub series_name: String,
    /// The year in which the series began; -1 if unknown.
    pub series_start_year: i32,
    /// The issue's number within the series; free text, since some numbers
    /// are alphanumeric.
    pub issue_num: String,
    /// The kind of issue, such as "Event" or "Ongoing Series".
    pub issue_type: String,
    /// Remarks on the issue or on its place in the list.
    pub notes: Option<String>,
    /// The cover date of the issue.
    pub cover_date: String,
    /// The databases in which the issue can be found.
    pub databases: Vec<Database>,
}

/// A database in which an issue can be found. Both identifiers are free
/// text.
#[derive(Debug, PartialEq, Eq)]
pub struct Database {
    pub name: String,
    pub series_id: String,
    pub issue_id: String,
}

/// The mathematical value of a [`DraftSpec`].
pub struct DraftSpecView {
    pub file_details: FileDetailsView,
    pub list_details: ListDetailsView,
    pub issues: Seq<ListIssueView>,
}

/// The mathematical value of a [`FileDetails`].
pub struct FileDetailsView {
    pub version: Seq<char>,
    pub unique_id: Seq<char>,
}

/// The mathematical value of a [`ListDetails`].
pub struct ListDetailsView {
    pub name: Seq<char>,
    pub description: Option<Seq<char>>,
    pub publisher: Seq<char>,
    pub imprint: Seq<char>,
    pub start_year: int,
    pub end_year: int,
    pub list_type: Seq<char>,
    pub associated: Option<ListAssociationsView>,
    pub cover_image_urls: Seq<Seq<char>>,
    pub relationships: Option<ListRelationshipsView>,
}

/// The mathematical value of a [`ListAssociations`].
pub struct ListAssociationsView {
    pub characters: Seq<Seq<char>>,
    pub teams: Seq<Seq<char>>,
}

/// The mathematical value of a [`ListRelationships`].
pub struct ListRelationshipsView {
    pub previous: Option<ListRelationshipView>,
    pub next: Option<ListRelationshipView>,
}

/// The mathematical value of a [`ListRelationship`].
pub struct ListRelationshipView {
    pub name: Seq<char>,
    pub id: Seq<char>,
}

/// The mathematical value of a [`ListIssue`].
pub struct ListIssueView {
    pub series_name: Seq<char>,
    pub series_start_year: int,
    pub issue_num: Seq<char>,
    pub issue_type: Seq<char>,
    pub notes: Option<Seq<char>>,
    pub cover_date: Seq<char>,
    pub databases: Seq<DatabaseView>,
}

/// The mathematical value of a [`Database`].
pub struct DatabaseView {
    pub name: Seq<char>,
    pub series_id: Seq<char>,
    pub issue_id: Seq<char>,
}

impl DeepView for Database {
    type V = DatabaseView;

    open spec fn deep_view(&self) -> DatabaseView {
        DatabaseView { name: self.name@, series_id: self.series_id@, issue_id: self.issue_id@ }
    }
}

impl View for Database {
    type V = DatabaseView;

    open spec fn view(&self) -> DatabaseView {
        self.deep_view()
    }
}

impl DeepView for ListIssue {
    type V = ListIssueView;

    open spec fn deep_view(&self) -> ListIssueView {
        ListIssueView {
            series_name: self.series_name@,
            series_start_year: self.series_start_year as int,
            issue_num: self.issue_num@,
            issue_type: self.issue_type@,
            notes: self.notes.deep_view(),
            cover_date: self.cover_date@,
            databases: self.databases.deep_view(),
        }
    }
}

impl View for ListIssue {
    type V = ListIssueView;

    open spec fn view(&self) -> ListIssueView {
        self.deep_view()
    }
}

impl DeepView for ListRelationship {
    type V = ListRelationshipView;

    open spec fn deep_view(&self) -> ListRelationshipView {
        ListRelationshipView { name: self.name@, id: self.id@ }
    }
}

impl View for ListRelationship {
    type V = ListRelationshipView;

    open spec fn view(&self) -> ListRelationshipView {
        self.deep_view()
    }
}

impl DeepView for ListRelationships {
    type V = ListRelationshipsView;

    open spec fn deep_view(&self) -> ListRelationshipsView {
        ListRelationshipsView {
            previous: self.previous.deep_view(),
            next: self.next.deep_view(),
        }
    }
}

impl View for ListRelationships {
    type V = ListRelationshipsView;

    open spec fn view(&self) -> ListRelationshipsView {
        self.deep_view()
    }
}

impl DeepView for ListAssociations {
    type V = ListAssociationsView;

    open spec fn deep_view(&self) -> ListAssociationsView {
        ListAssociationsView {
            characters: self.characters.deep_view(),
            teams: self.teams.deep_view(),
        }
    }
}

impl View for ListAssociations {
    type V = ListAssociationsView;

    open spec fn view(&self) -> ListAssociationsView {
        self.deep_view()
    }
}

impl DeepView for ListDetails {
    type V = ListDetailsView;

    open spec fn deep_view(&self) -> ListDetailsView {
        ListDetailsView {
            name: self.name@,
            description: self.description.deep_view(),
            publisher: self.publisher@,
            imprint: self.imprint@,
            start_year: self.start_year as int,
            end_year: self.end_year as int,
            list_type: self.list_type@,
            associated: self.associated.deep_view(),
            cover_image_urls: self.cover_image_urls.deep_view(),
            relationships: self.relationships.deep_view(),
        }
    }
}

impl View for ListDetails {
    type V = ListDetailsView;

    open spec fn view(&self) -> ListDetailsView {
        self.deep_view()
    }
}

impl DeepView for FileDetails {
    type V = FileDetailsView;

    open spec fn deep_view(&self) -> FileDetailsView {
        FileDetailsView { version: self.version@, unique_id: self.unique_id@ }
    }
}

impl View for FileDetails {
    type V = FileDetailsView;

    open spec fn view(&self) -> FileDetailsView {
        self.deep_view()
    }
}

impl DeepView for DraftSpec {
    type V = DraftSpecView;

    open spec fn deep_view(&self) -> DraftSpecView {
        DraftSpecView {
            file_details: self.file_details.deep_view(),
            list_details: self.list_details.deep_view(),
            issues: self.issues.deep_view(),
        }
    }
}

impl View for DraftSpec {
    type V = DraftSpecView;

    open spec fn view(&self) -> DraftSpecView {
        self.deep_view()
    }
}

/// The year a list begins in: the least year among its issues, or -1 for a
/// list without issues.
pub open spec fn start_year_of(years: Seq<int>) -> int {
    if years.len() == 0 {
        ABSENT as int
    } else {
        years.min()
    }
}

/// The year a list ends in: the greatest year among its issues, or -1 for a
/// list without issues.
pub open spec fn end_year_of(years: Seq<int>) -> int {
    if years.len() == 0 {
        ABSENT as int
    } else {
        years.max()
    }
}

/// A list without issues begins and ends in the year -1. A list with issues
/// begins in the least of their years and ends in the greatest: both are
/// years of issues, and every issue's year lies between them.
pub proof fn lemma_year_range(years: Seq<int>)
    ensures
        years.len() == 0 ==> start_year_of(years) == -1 && end_year_of(years) == -1,
        years.len() > 0 ==> years.contains(start_year_of(years)) && years.contains(
            end_year_of(years),
        ),
        forall|i: int|
            0 <= i < years.len() ==> start_year_of(years) <= #[trigger] years[i] <= end_year_of(
                years,
            ),
{
    years.min_ensures();
    years.max_ensures();
}

/// The database references of a converted issue: the legacy issue's one
/// reference, if it has one.
pub open spec fn databases_of(
    database: Option<ComicReadingListItemBookDatabaseView>,
) -> Seq<DatabaseView> {
    match database {
        Some(found) => seq![
            DatabaseView { name: found.name, series_id: found.series, issue_id: found.issue },
        ],
        None => Seq::empty(),
    }
}

/// The converted form of one legacy issue. Series, number and database
/// reference are carried over; the series' first year is taken to be the
/// issue's year; what the legacy format does not hold is left empty.
pub open spec fn issue_of(book: ComicReadingListItemBookView) -> ListIssueView {
    ListIssueView {
        series_name: book.series,
        series_start_year: book.year,
        issue_num: book.number,
        issue_type: Seq::empty(),
        notes: None,
        cover_date: Seq::empty(),
        databases: databases_of(book.database),
    }
}

/// The "1.0-draft" form of a legacy reading list under a given unique
/// identifier.
pub open spec fn draft_of(cbl: CBLView, unique_id: Seq<char>) -> DraftSpecView {
    DraftSpecView {
        file_details: FileDetailsView { version: VERSION@, unique_id },
        list_details: ListDetailsView {
            name: cbl.name,
            description: None,
            publisher: Seq::empty(),
            imprint: Seq::empty(),
            start_year: start_year_of(cbl.years()),
            end_year: end_year_of(cbl.years()),
            list_type: Seq::empty(),
            associated: None,
            cover_image_urls: Seq::empty(),
            relationships: None,
        },
        issues: Seq::new(cbl.items.books.len(), |i: int| issue_of(cbl.items.books[i])),
    }
}

/// A converted list carries the identifier it was given, has one issue for
/// each issue of the legacy list, in the same order, and begins and ends in
/// the least and greatest year of those issues, or in -1 where there are
/// none.
pub proof fn lemma_conversion(cbl: CBLView, unique_id: Seq<char>)
    ensures
        ({
            let draft = draft_of(cbl, unique_id);
            let books = cbl.items.books;
            &&& draft.file_details.unique_id == unique_id
            &&& draft.file_details.version == VERSION@
            &&& draft.issues.len() == books.len()
            &&& forall|i: int|
                0 <= i < books.len() ==> #[trigger] draft.issues[i] == issue_of(books[i])
            &&& books.len() == 0 ==> draft.list_details.start_year == -1
                && draft.list_details.end_year == -1
            &&& forall|i: int|
                0 <= i < books.len() ==> draft.list_details.start_year <= (#[trigger] books[i]).year
                    <= draft.list_details.end_year
            &&& books.len() > 0 ==> (exists|i: int|
                0 <= i < books.len() && (#[trigger] books[i]).year
                    == draft.list_details.start_year) && (exists|i: int|
                0 <= i < books.len() && (#[trigger] books[i]).year == draft.list_details.end_year)
        }),
{
    let years = cbl.years();
    let books = cbl.items.books;
    lemma_year_range(years);
    assert forall|i: int| 0 <= i < books.len() implies start_year_of(years) <= (
    #[trigger] books[i]).year <= end_year_of(years) by {
        assert(years[i] == books[i].year);
    }
    if books.len() > 0 {
        let first = choose|i: int| 0 <= i < years.len() && years[i] == start_year_of(years);
        let last = choose|i: int| 0 <= i < years.len() && years[i] == end_year_of(years);
        assert(books[first].year == start_year_of(years));
        assert(books[last].year == end_year_of(years));
    }
}

/// The least and the greatest year among the issues, each -1 when there is
/// no issue.
fn year_range(books: &Vec<ComicReadingListItemBook>) -> (range: (i32, i32))
    ensures
        range.0 == start_year_of(Seq::new(books@.len(), |i: int| books@[i].year as int)),
        range.1 == end_year_of(Seq::new(books@.len(), |i: int| books@[i].year as int)),
{
    let ghost years = Seq::new(books@.len(), |i: int| books@[i].year as int);
    if books.len() == 0 {
        return (ABSENT, ABSENT);
    }
    let mut least: i32 = books[0].year;
    let mut greatest: i32 = books[0].year;
    let ghost mut at_least: int = 0;
    let ghost mut at_greatest: int = 0;
    let mut i: usize = 1;
    while i < books.len()
        invariant
            1 <= i <= books.len(),
            years == Seq::new(books@.len(), |i: int| books@[i].year as int),
            0 <= at_least < i && years[at_least] == least,
            0 <= at_greatest < i && years[at_greatest] == greatest,
            forall|j: int| 0 <= j < i ==> least <= #[trigger] years[j] && years[j] <= greatest,
        decreases books.len() - i,
    {
        let year = books[i].year;
        assert(years[i as int] == year);
        if year < least {
            least = year;
            proof {
                at_least = i as int;
            }
        }
        if year > greatest {
            greatest = year;
            proof {
                at_greatest = i as int;
            }
        }
        i += 1;
    }
    proof {
        years.min_ensures();
        years.max_ensures();
        let least_at = choose|j: int| 0 <= j < years.len() && years[j] == years.min();
        let greatest_at = choose|j: int| 0 <= j < years.len() && years[j] == years.max();
        assert(least <= years[least_at]);
        assert(years.min() <= years[at_least]);
        assert(years[greatest_at] <= greatest);
        assert(years[at_greatest] <= years.max());
    }
    (least, greatest)
}

/// The text of a version-4 UUID in hyphenated lower-case form: 36
/// characters, hyphens after the 8th, 12th, 16th and 20th hexadecimal digit,
/// `4` as the version digit, and one of `8`, `9`, `a`, `b` as the variant
/// digit.
pub open spec fn is_random_uuid(text: Seq<char>) -> bool {
    &&& text.len() == 36
    &&& forall|i: int|
        0 <= i < 36 ==> if i == 8 || i == 13 || i == 18 || i == 23 {
            #[trigger] text[i] == '-'
        } else {
            '0' <= text[i] <= '9' || 'a' <= text[i] <= 'f'
        }
    &&& text[14] == '4'
    &&& text[19] == '8' || text[19] == '9' || text[19] == 'a' || text[19] == 'b'
}

/// Mints a fresh unique identifier.
///
/// Calls `uuid::Uuid::new_v4`, which draws on the operating system's
/// random source, and renders the result with the `Display` of `Uuid`.
/// What is claimed without proof: the text is the hyphenated lower-case
/// form of a version-4 UUID. Nothing is claimed about which identifier
/// comes back; two calls may give any two such texts.
#[verifier::external_body]
fn mint_unique_id() -> (unique_id: String)
    ensures
        is_random_uuid(unique_id@),
{
    uuid::Uuid::new_v4().to_string()
}

/// Converts one legacy issue.
fn convert_issue(book: &ComicReadingListItemBook) -> (issue: ListIssue)
    ensures
        issue@ == issue_of(book@),
{
    let mut databases: Vec<Database> = Vec::new();
    match &book.database {
        Some(found) => {
            databases.push(
                Database {
                    name: found.name.clone(),
                    series_id: found.series.clone(),
                    issue_id: found.issue.clone(),
                },
            );
        },
        None => {},
    }
    let issue = ListIssue {
        series_name: book.series.clone(),
        series_start_year: book.year,
        issue_num: book.number.clone(),
        issue_type: String::new(),
        notes: None,
        cover_date: String::new(),
        databases,
    };
    assert(issue@.databases =~= databases_of(book@.database));
    issue
}

impl DraftSpec {
    /// Converts a legacy reading list under the unique identifier given.
    ///
    /// The identifier is taken as it is and never derived from the list.
    /// The issues keep their order. The list begins in the least and ends
    /// in the greatest year among its issues, and both years are -1 for a
    /// list without issues.
    pub fn from_legacy(value: CBL, unique_id: String) -> (draft: DraftSpec)
        ensures
            draft@ == draft_of(value@, unique_id@),
    {
        let (start_year, end_year) = year_range(&value.items.books);
        assert(value@.years() =~= Seq::new(
            value.items.books@.len(),
            |i: int| value.items.books@[i].year as int,
        ));
        let mut issues: Vec<ListIssue> = Vec::new();
        let mut i: usize = 0;
        while i < value.items.books.len()
            invariant
                i <= value.items.books.len(),
                issues@.len() == i,
                forall|j: int| 0 <= j < i ==> (#[trigger] issues@[j])@ == issue_of(
                    value.items.books@[j]@,
                ),
            decreases value.items.books.len() - i,
        {
            issues.push(convert_issue(&value.items.books[i]));
            i += 1;
        }
        let draft = DraftSpec {
            file_details: FileDetails { version: String::from_str(VERSION), unique_id },
            list_details: ListDetails {
                name: value.name,
                description: None,
                publisher: String::new(),
                imprint: String::new(),
                start_year,
                end_year,
                list_type: String::new(),
                associated: None,
                cover_image_urls: Vec::new(),
                relationships: None,
            },
            issues,
        };
        assert(draft@.issues =~= draft_of(value@, unique_id@).issues);
        assert(draft@.list_details.cover_image_urls =~= Seq::<Seq<char>>::empty());
        draft
    }
}

impl vstd::std_specs::convert::FromSpecImpl<CBL> for DraftSpec {
    /// The conversion mints an identifier, so it is no function of the
    /// list it is given.
    open spec fn obeys_from_spec() -> bool {
        false
    }

    open spec fn from_spec(value: CBL) -> DraftSpec {
        arbitrary()
    }
}

impl From<CBL> for DraftSpec {
    /// Converts a legacy reading list, minting a fresh unique identifier
    /// for it.
    ///
    /// A legacy list has no identity of its own, so each conversion mints
    /// one, exactly once. All else is as [`DraftSpec::from_legacy`] has it.
    fn from(value: CBL) -> (draft: DraftSpec)
        ensures
            is_random_uuid(draft@.file_details.unique_id),
            draft@ == draft_of(value@, draft@.file_details.unique_id),
    {
        DraftSpec::from_legacy(value, mint_unique_id())
    }
}

} // verus!
