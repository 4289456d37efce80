use cblrs::{
    convert, key_names, keys_of, locate, negative_default_i32, parse_i32, read_nested,
    read_number, read_text, text_eq, Attribute, CLIError, ComicReadingListItemBook,
    ComicReadingListItems, DraftSpec, Element, Field, Located, Node, Record, SpecVersion, CBL,
    CURRENT_SPEC_VERSION,
};

fn attribute(name: &str, value: &str) -> Attribute {
    Attribute { name: name.to_string(), value: value.to_string() }
}

fn leaf(name: &str, text: &str) -> Node {
    Node::Element(Element {
        name: name.to_string(),
        attributes: Vec::new(),
        children: vec![Node::Text(text.to_string())],
    })
}

fn one_issue_list() -> CBL {
    CBL {
        name: "One".to_string(),
        num_issues: 1,
        items: ComicReadingListItems {
            books: vec![ComicReadingListItemBook {
                id: "i".to_string(),
                file_name: "f".to_string(),
                series: "s".to_string(),
                number: "1".to_string(),
                volume: 2,
                year: 2001,
                format: "x".to_string(),
                database: None,
            }],
        },
    }
}

#[test]
fn the_sentinel_for_an_absent_integer_is_minus_one() {
    assert_eq!(negative_default_i32(), -1);
}

#[test]
fn decimal_literals_are_read_exactly() {
    assert_eq!(parse_i32("0"), Some(0));
    assert_eq!(parse_i32("-0"), Some(0));
    assert_eq!(parse_i32("+7"), Some(7));
    assert_eq!(parse_i32("007"), Some(7));
    assert_eq!(parse_i32("1963"), Some(1963));
    assert_eq!(parse_i32("-1"), Some(-1));
    assert_eq!(parse_i32("2147483647"), Some(i32::MAX));
    assert_eq!(parse_i32("-2147483648"), Some(i32::MIN));
    assert_eq!(parse_i32("00000000000002147483647"), Some(i32::MAX));
}

#[test]
fn what_is_no_decimal_literal_is_not_read() {
    for text in [
        "", "+", "-", "1.HU", " 1", "1 ", "1_000", "--1", "+-1", "0x10", "١٢", "2147483648",
        "-2147483649", "99999999999999999999", "12a", "a12",
    ] {
        assert_eq!(parse_i32(text), None, "{:?}", text);
        assert_eq!(parse_i32(text), text.parse::<i32>().ok(), "{:?}", text);
    }
}

#[test]
fn texts_are_compared_character_by_character() {
    assert!(text_eq("", ""));
    assert!(text_eq("Series", "Series"));
    assert!(!text_eq("Series", "series"));
    assert!(!text_eq("Series", "Serie"));
    assert!(!text_eq("", "x"));
    assert!(text_eq("héros", "héros"));
    assert!(!text_eq("héros", "heros"));
}

#[test]
fn each_failure_has_its_sentence() {
    assert_eq!(
        CLIError::FileNotFound.message(),
        "The provided file could not be found on disk"
    );
    assert_eq!(
        CLIError::InvalidCBL("missing field `num_issues`".to_string()).message(),
        "The provided file is not a valid CBL file, or is malformed: missing field `num_issues`"
    );
    assert_eq!(
        CLIError::FileWriteError("disk full".to_string()).message(),
        "Failed to write to the provided file path"
    );
}

#[test]
fn the_draft_version_is_the_current_one() {
    assert_eq!(CURRENT_SPEC_VERSION, "1.0-draft");
    assert_eq!(SpecVersion::Draft.to_string(), "1.0-draft");
    assert_eq!(SpecVersion::default(), SpecVersion::Draft);
}

#[test]
fn a_conversion_mints_a_fresh_identifier_each_time() {
    let first = convert(one_issue_list(), SpecVersion::Draft);
    let second = convert(one_issue_list(), SpecVersion::Draft);
    assert_ne!(first.file_details.unique_id, second.file_details.unique_id);
    for id in [&first.file_details.unique_id, &second.file_details.unique_id] {
        assert_eq!(id.len(), 36);
        for (at, c) in id.chars().enumerate() {
            if at == 8 || at == 13 || at == 18 || at == 23 {
                assert_eq!(c, '-');
            } else {
                assert!(c.is_ascii_digit() || ('a'..='f').contains(&c));
            }
        }
        assert_eq!(id.chars().nth(14), Some('4'));
        assert!(matches!(id.chars().nth(19), Some('8' | '9' | 'a' | 'b')));
    }
    assert_eq!(first.list_details, second.list_details);
    assert_eq!(first.issues, second.issues);
}

#[test]
fn a_given_identifier_is_carried_as_it_is() {
    let draft = DraftSpec::from_legacy(one_issue_list(), "list-1".to_string());
    assert_eq!(draft.file_details.unique_id, "list-1");
    assert_eq!(draft.file_details.version, "1.0-draft");
    let again = DraftSpec::from_legacy(one_issue_list(), "list-1".to_string());
    assert_eq!(draft, again);
}

#[test]
fn fields_without_a_legacy_source_are_left_empty() {
    let draft = DraftSpec::from_legacy(one_issue_list(), String::new());
    let details = &draft.list_details;
    assert_eq!(details.name, "One");
    assert_eq!(details.description, None);
    assert_eq!(details.publisher, "");
    assert_eq!(details.imprint, "");
    assert_eq!(details.list_type, "");
    assert_eq!(details.associated, None);
    assert!(details.cover_image_urls.is_empty());
    assert_eq!(details.relationships, None);
    let issue = &draft.issues[0];
    assert_eq!(issue.series_name, "s");
    assert_eq!(issue.series_start_year, 2001);
    assert_eq!(issue.issue_num, "1");
    assert_eq!(issue.issue_type, "");
    assert_eq!(issue.notes, None);
    assert_eq!(issue.cover_date, "");
    assert!(issue.databases.is_empty());
}

#[test]
fn the_years_of_a_list_span_the_years_of_its_issues() {
    let mut list = one_issue_list();
    for year in [1999, -1, 2010, 1980, 2010] {
        let mut book = one_issue_list().items.books.remove(0);
        book.year = year;
        list.items.books.push(book);
    }
    let draft = DraftSpec::from_legacy(list, String::new());
    assert_eq!(draft.list_details.start_year, -1);
    assert_eq!(draft.list_details.end_year, 2010);
    let years: Vec<i32> = draft.issues.iter().map(|issue| issue.series_start_year).collect();
    assert_eq!(years, vec![2001, 1999, -1, 2010, 1980, 2010]);
}

#[test]
fn the_declared_count_is_held_against_the_issues() {
    let mut list = one_issue_list();
    assert!(list.count_matches());
    list.num_issues = 2;
    assert!(!list.count_matches());
    list.num_issues = -1;
    assert!(!list.count_matches());
}

#[test]
fn each_field_has_a_plain_key_and_a_tag() {
    assert_eq!(keys_of(Record::List, Field::Books), Some(("items", "Books")));
    assert_eq!(keys_of(Record::List, Field::NumIssues), Some(("num_issues", "NumIssues")));
    assert_eq!(keys_of(Record::Book, Field::FileName), Some(("file_name", "FileName")));
    assert_eq!(keys_of(Record::Database, Field::Issue), Some(("issue", "Issue")));
    assert_eq!(keys_of(Record::Database, Field::Year), None);
    assert_eq!(keys_of(Record::List, Field::Series), None);
    assert!(key_names("Year", Record::Book, Field::Year));
    assert!(key_names("year", Record::Book, Field::Year));
    assert!(!key_names("YEAR", Record::Book, Field::Year));
    assert!(!key_names("Year", Record::Book, Field::Volume));
    assert!(!key_names("Year", Record::List, Field::Year));
}

#[test]
fn a_field_is_found_among_attributes_and_children() {
    let element = Element {
        name: "Book".to_string(),
        attributes: vec![attribute("Series", "s"), attribute("Year", "1999"), attribute("year", "2000")],
        children: vec![Node::Text("loose".to_string()), leaf("Volume", "3"), leaf("Number", "7")],
    };
    assert_eq!(locate(&element, Record::Book, Field::Series), Located::Attribute(0));
    assert_eq!(locate(&element, Record::Book, Field::Volume), Located::Child(1));
    assert_eq!(locate(&element, Record::Book, Field::Number), Located::Child(2));
    assert_eq!(locate(&element, Record::Book, Field::Year), Located::Repeated);
    assert_eq!(locate(&element, Record::Book, Field::Id), Located::Missing);
    assert_eq!(read_text(&element, Record::Book, Field::Series), Ok("s".to_string()));
    assert_eq!(read_text(&element, Record::Book, Field::Number), Ok("7".to_string()));
    assert_eq!(read_text(&element, Record::Book, Field::Id), Ok(String::new()));
    assert_eq!(read_number(&element, Record::Book, Field::Volume, Some(-1)), Ok(3));
    assert_eq!(read_number(&element, Record::Book, Field::Id, Some(-1)), Ok(-1));
    assert_eq!(
        read_number(&element, Record::Book, Field::Id, None),
        Err(CLIError::InvalidCBL("missing field `id`".to_string()))
    );
    assert_eq!(
        read_number(&element, Record::Book, Field::Year, Some(-1)),
        Err(CLIError::InvalidCBL("duplicate field `year`".to_string()))
    );
    assert_eq!(
        read_number(&element, Record::Book, Field::Series, Some(-1)),
        Err(CLIError::InvalidCBL("invalid value for field `series`".to_string()))
    );
    assert_eq!(read_nested(&element, Record::Book, Field::Database), Ok(None));
    assert_eq!(
        read_nested(&element, Record::Book, Field::Series),
        Err(CLIError::InvalidCBL("invalid value for field `series`".to_string()))
    );
    assert_eq!(
        read_nested(&element, Record::Book, Field::Volume).map(|found| found.map(|e| e.name.clone())),
        Ok(Some("Volume".to_string()))
    );
}
