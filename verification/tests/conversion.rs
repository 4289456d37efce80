use cblrs::{
    convert, convert_with_id, ComicReadingListItemBook, ComicReadingListItemBookDatabase, ComicReadingListItems,
    Database, DraftSpec, SpecVersion, CBL,
};

fn book(series: &str, number: &str, year: i32) -> ComicReadingListItemBook {
    ComicReadingListItemBook {
        id: String::new(),
        file_name: String::new(),
        series: series.to_string(),
        number: number.to_string(),
        volume: -1,
        year,
        format: String::new(),
        database: None,
    }
}

fn chronology() -> CBL {
    let first = book("The Amazing Spider-Man", "1", 1963);
    let mut second = book("The Amazing Spider-Man", "25", 1965);
    second.database = Some(ComicReadingListItemBookDatabase {
        name: "Comicvine".to_string(),
        series: "2".to_string(),
        issue: "100".to_string(),
    });
    CBL {
        name: "Spider-Man Chronology".to_string(),
        num_issues: 2,
        items: ComicReadingListItems { books: vec![first, second] },
    }
}

#[test]
fn spider_man_chronology_converts_to_draft() {
    let draft = convert(chronology(), SpecVersion::Draft);
    assert_eq!(draft.list_details.start_year, 1963);
    assert_eq!(draft.list_details.end_year, 1965);
    assert_eq!(draft.issues.len(), 2);
    assert!(draft.issues[0].databases.is_empty());
    assert_eq!(
        draft.issues[1].databases,
        vec![Database {
            name: "Comicvine".to_string(),
            series_id: "2".to_string(),
            issue_id: "100".to_string(),
        }]
    );
    assert_eq!(draft.file_details.version, "1.0-draft");
    assert_eq!(draft.list_details.name, "Spider-Man Chronology");
}

#[test]
fn list_without_issues_has_unknown_years() {
    let empty = CBL {
        name: "Empty".to_string(),
        num_issues: 0,
        items: ComicReadingListItems { books: Vec::new() },
    };
    let draft = DraftSpec::from_legacy(empty, "fixed".to_string());
    assert_eq!(draft.list_details.start_year, -1);
    assert_eq!(draft.list_details.end_year, -1);
    assert!(draft.issues.is_empty());
    assert_eq!(draft.file_details.unique_id, "fixed");
}

#[test]
fn the_version_asked_for_decides_the_schema() {
    let list = convert_with_id(chronology(), SpecVersion::Draft, "given".to_string());
    assert_eq!(list, DraftSpec::from_legacy(chronology(), "given".to_string()));
    assert_eq!(list.file_details.version, SpecVersion::Draft.to_string());
    assert_eq!(list.file_details.unique_id, "given");
}

#[test]
fn a_conversion_by_the_trait_is_the_same_but_for_the_identifier() {
    let minted = DraftSpec::from(chronology());
    let given = DraftSpec::from_legacy(chronology(), minted.file_details.unique_id.clone());
    assert_eq!(minted, given);
    let other: DraftSpec = chronology().into();
    assert_eq!(other.list_details, given.list_details);
    assert_eq!(other.issues, given.issues);
    assert_ne!(other.file_details.unique_id, given.file_details.unique_id);
}
