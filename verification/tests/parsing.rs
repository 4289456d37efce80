use cblrs::{
    convert, CLIError, ComicReadingListItemBook, ComicReadingListItemBookDatabase, Database,
    SpecVersion, CBL,
};

const BASIC: &str = r#"<?xml version="1.0"?>
<ReadingList xmlns:xsd="http://www.w3.org/2001/XMLSchema" xmlns:xsi="http://www.w3.org/2001/XMLSchema-instance">
  <Name>[Spider-Man] 00 - Complete 616 Chronology</Name>
  <NumIssues>3</NumIssues>
  <Books>
    <Book Series="Amazing Fantasy" Number="15" Volume="1962" Year="1962">
      <Id>5dd9d7c1-b0b2-4a1b-a1f5-1b1e39f0c7d6</Id>
    </Book>
    <Book Series="The Amazing Spider-Man" Number="1" Volume="1963" Year="1963" Format="Annual">
      <Id>0b0f1f0e-5e0d-4d9e-8f3b-6c1c2a7b9e11</Id>
      <FileName>asm-001.cbz</FileName>
      <Database Name="cv" Series="2127" Issue="6422" />
    </Book>
    <Book Series="Hulk" Number="1.HU" />
  </Books>
  <Matchers />
</ReadingList>
"#;

fn invalid(detail: &str) -> CLIError {
    CLIError::InvalidCBL(detail.to_string())
}

fn bare_book() -> ComicReadingListItemBook {
    ComicReadingListItemBook {
        id: String::new(),
        file_name: String::new(),
        series: String::new(),
        number: String::new(),
        volume: -1,
        year: -1,
        format: String::new(),
        database: None,
    }
}

#[test]
fn load_basic_cbl() {
    let cbl = CBL::from_bytes(BASIC.as_bytes()).unwrap();

    assert_eq!(cbl.name, "[Spider-Man] 00 - Complete 616 Chronology");
    assert_eq!(cbl.items.books.len(), cbl.num_issues as usize);
    assert!(cbl.count_matches());

    println!("{:?}", cbl);
}

#[test]
fn issues_keep_the_order_and_the_fields_of_the_source() {
    let cbl = CBL::from_bytes(BASIC.as_bytes()).unwrap();
    let books = &cbl.items.books;
    assert_eq!(books.len(), 3);
    assert_eq!(
        books[0],
        ComicReadingListItemBook {
            id: "5dd9d7c1-b0b2-4a1b-a1f5-1b1e39f0c7d6".to_string(),
            series: "Amazing Fantasy".to_string(),
            number: "15".to_string(),
            volume: 1962,
            year: 1962,
            ..bare_book()
        }
    );
    assert_eq!(
        books[1],
        ComicReadingListItemBook {
            id: "0b0f1f0e-5e0d-4d9e-8f3b-6c1c2a7b9e11".to_string(),
            file_name: "asm-001.cbz".to_string(),
            series: "The Amazing Spider-Man".to_string(),
            number: "1".to_string(),
            volume: 1963,
            year: 1963,
            format: "Annual".to_string(),
            database: Some(ComicReadingListItemBookDatabase {
                name: "cv".to_string(),
                series: "2127".to_string(),
                issue: "6422".to_string(),
            }),
        }
    );
    assert_eq!(
        books[2],
        ComicReadingListItemBook {
            series: "Hulk".to_string(),
            number: "1.HU".to_string(),
            ..bare_book()
        }
    );
}

#[test]
fn absent_fields_take_their_defaults() {
    let cbl = CBL::from_bytes(b"<ReadingList><NumIssues>1</NumIssues><Books><Book/></Books></ReadingList>")
        .unwrap();
    assert_eq!(cbl.name, "");
    assert_eq!(cbl.num_issues, 1);
    assert_eq!(cbl.items.books, vec![bare_book()]);
}

#[test]
fn zero_is_kept_apart_from_absent() {
    let cbl = CBL::from_bytes(
        b"<L><NumIssues>0</NumIssues><Books><Book Year=\"0\"/><Book><Volume>0</Volume></Book></Books></L>",
    )
    .unwrap();
    assert_eq!(cbl.num_issues, 0);
    assert_eq!(cbl.items.books[0].year, 0);
    assert_eq!(cbl.items.books[0].volume, -1);
    assert_eq!(cbl.items.books[1].year, -1);
    assert_eq!(cbl.items.books[1].volume, 0);
    assert!(!cbl.count_matches());
}

#[test]
fn aliases_of_a_field_are_read_alike() {
    let tagged = CBL::from_bytes(
        b"<ReadingList><Name>N</Name><NumIssues>1</NumIssues><Books>\
          <Book Id=\"i\" FileName=\"f\" Series=\"s\" Number=\"n\" Volume=\"1\" Year=\"2\" Format=\"x\">\
          <Database Name=\"d\" Series=\"3\" Issue=\"4\"/></Book></Books></ReadingList>",
    )
    .unwrap();
    let plain = CBL::from_bytes(
        b"<ReadingList><name>N</name><num_issues>1</num_issues><items>\
          <Book id=\"i\" file_name=\"f\" series=\"s\" number=\"n\" volume=\"1\" year=\"2\" format=\"x\">\
          <database name=\"d\" series=\"3\" issue=\"4\"/></Book></items></ReadingList>",
    )
    .unwrap();
    assert_eq!(tagged, plain);
    assert_eq!(tagged.items.books[0].database.as_ref().unwrap().issue, "4");
    assert_eq!(tagged.items.books[0].file_name, "f");
    assert_eq!(tagged.items.books[0].format, "x");
}

#[test]
fn fields_are_read_from_attributes_and_from_child_elements_alike() {
    let as_attributes = CBL::from_bytes(
        b"<L Name=\"N\" NumIssues=\"1\"><Books><Book Series=\"s\" Year=\"1999\"/></Books></L>",
    )
    .unwrap();
    let as_children = CBL::from_bytes(
        b"<L><Name>N</Name><NumIssues>1</NumIssues><Books><Book><Series>s</Series><Year>1999</Year></Book></Books></L>",
    )
    .unwrap();
    assert_eq!(as_attributes, as_children);
    assert_eq!(as_children.items.books[0].year, 1999);
}

#[test]
fn an_empty_issue_list_holds_no_issue() {
    let cbl = CBL::from_bytes(b"<L><Name>N</Name><NumIssues>0</NumIssues><Books/></L>").unwrap();
    assert!(cbl.items.books.is_empty());
    assert!(cbl.count_matches());
}

#[test]
fn every_element_of_the_issue_list_is_an_issue() {
    let cbl = CBL::from_bytes(
        b"<L><NumIssues>2</NumIssues><Books><Book Number=\"1\"/><Comic Number=\"2\"/></Books></L>",
    )
    .unwrap();
    assert_eq!(cbl.items.books.len(), 2);
    assert_eq!(cbl.items.books[1].number, "2");
}

#[test]
fn bytes_that_are_not_xml_give_no_record() {
    assert!(matches!(CBL::from_bytes(b"\xff\xfe\x00garbage"), Err(CLIError::InvalidCBL(_))));
    assert!(matches!(CBL::from_bytes(b"{\"Name\": 1}"), Err(CLIError::InvalidCBL(_))));
    assert!(matches!(
        CBL::from_bytes(b"<L><NumIssues>1</NumIssues><Books><Book></Books></L>"),
        Err(CLIError::InvalidCBL(_))
    ));
}

#[test]
fn a_missing_issue_count_is_reported() {
    assert_eq!(
        CBL::from_bytes(b"<L><Name>N</Name><Books/></L>"),
        Err(invalid("missing field `num_issues`"))
    );
}

#[test]
fn a_missing_issue_list_is_reported() {
    assert_eq!(
        CBL::from_bytes(b"<L><Name>N</Name><NumIssues>0</NumIssues></L>"),
        Err(invalid("missing field `items`"))
    );
}

#[test]
fn a_field_stated_twice_is_reported() {
    assert_eq!(
        CBL::from_bytes(b"<L><Name>a</Name><name>b</name><NumIssues>0</NumIssues><Books/></L>"),
        Err(invalid("duplicate field `name`"))
    );
    assert_eq!(
        CBL::from_bytes(
            b"<L><NumIssues>1</NumIssues><Books><Book Series=\"a\"><Series>b</Series></Book></Books></L>"
        ),
        Err(invalid("duplicate field `series`"))
    );
    assert_eq!(
        CBL::from_bytes(b"<L><NumIssues>0</NumIssues><Books/><items/></L>"),
        Err(invalid("duplicate field `items`"))
    );
}

#[test]
fn a_number_that_is_no_number_is_reported() {
    assert_eq!(
        CBL::from_bytes(b"<L><NumIssues>two</NumIssues><Books/></L>"),
        Err(invalid("invalid value for field `num_issues`"))
    );
    assert_eq!(
        CBL::from_bytes(b"<L><NumIssues>1</NumIssues><Books><Book Year=\"19x3\"/></Books></L>"),
        Err(invalid("invalid value for field `year`"))
    );
    assert_eq!(
        CBL::from_bytes(b"<L><NumIssues>1</NumIssues><Books><Book><Volume/></Book></Books></L>"),
        Err(invalid("invalid value for field `volume`"))
    );
    assert_eq!(
        CBL::from_bytes(b"<L><NumIssues>1</NumIssues><Books><Book Year=\"2147483648\"/></Books></L>"),
        Err(invalid("invalid value for field `year`"))
    );
}

#[test]
fn a_field_of_the_wrong_shape_is_reported() {
    assert_eq!(
        CBL::from_bytes(b"<L><Name><b>x</b></Name><NumIssues>0</NumIssues><Books/></L>"),
        Err(invalid("invalid value for field `name`"))
    );
    assert_eq!(
        CBL::from_bytes(b"<L Books=\"x\"><NumIssues>0</NumIssues></L>"),
        Err(invalid("invalid value for field `items`"))
    );
    assert_eq!(
        CBL::from_bytes(b"<L><NumIssues>1</NumIssues><Books><Book Database=\"cv\"/></Books></L>"),
        Err(invalid("invalid value for field `database`"))
    );
}

#[test]
fn text_among_the_issues_is_reported() {
    assert_eq!(
        CBL::from_bytes(b"<L><NumIssues>1</NumIssues><Books><Book/>stray</Books></L>"),
        Err(invalid("text found where an issue is expected"))
    );
}

#[test]
fn the_first_fault_in_reading_order_is_the_one_reported() {
    assert_eq!(
        CBL::from_bytes(
            b"<L><NumIssues>2</NumIssues><Books><Book Year=\"x\" Volume=\"y\"/><Book Series=\"a\" series=\"b\"/></Books></L>"
        ),
        Err(invalid("invalid value for field `volume`"))
    );
}

#[test]
fn unknown_keys_are_passed_over() {
    let cbl = CBL::from_bytes(
        b"<L extra=\"1\">loose<Matchers><Name>inner</Name></Matchers><Name>N</Name><NumIssues>1</NumIssues>\
          <Books count=\"1\"><Book Series=\"s\" Colour=\"red\"><Pages>20</Pages>words</Book></Books></L>",
    )
    .unwrap();
    assert_eq!(cbl.name, "N");
    assert_eq!(cbl.items.books.len(), 1);
    assert_eq!(cbl.items.books[0], ComicReadingListItemBook { series: "s".to_string(), ..bare_book() });
}

#[test]
fn a_parsed_chronology_converts_to_draft() {
    let cbl = CBL::from_bytes(
        b"<ReadingList><Name>Spider-Man Chronology</Name><NumIssues>2</NumIssues><Books>\
          <Book Series=\"The Amazing Spider-Man\" Number=\"1\" Year=\"1963\"/>\
          <Book Series=\"The Amazing Spider-Man\" Number=\"25\" Year=\"1965\">\
          <Database Name=\"Comicvine\" Series=\"2\" Issue=\"100\"/></Book>\
          </Books></ReadingList>",
    )
    .unwrap();
    assert_eq!(cbl.name, "Spider-Man Chronology");
    assert_eq!(cbl.num_issues, 2);
    let draft = convert(cbl, SpecVersion::Draft);
    assert_eq!(draft.list_details.start_year, 1963);
    assert_eq!(draft.list_details.end_year, 1965);
    assert!(draft.issues[0].databases.is_empty());
    assert_eq!(
        draft.issues[1].databases,
        vec![Database {
            name: "Comicvine".to_string(),
            series_id: "2".to_string(),
            issue_id: "100".to_string(),
        }]
    );
    assert_eq!(draft.file_details.version, "1.0-draft");
}
