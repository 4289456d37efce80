use cblrs::{
    build_document, document_from, read_document, Attribute, CLIError, Element, Node, Token, CBL,
};

fn text(value: &str) -> Node {
    Node::Text(value.to_string())
}

fn attribute(name: &str, value: &str) -> Attribute {
    Attribute { name: name.to_string(), value: value.to_string() }
}

fn element(name: &str, attributes: Vec<Attribute>, children: Vec<Node>) -> Element {
    Element { name: name.to_string(), attributes, children }
}

fn open(name: &str) -> Token {
    Token::Open { name: name.to_string(), attributes: Vec::new() }
}

#[test]
fn reads_nested_elements_in_document_order() {
    let source =
        b"<?xml version=\"1.0\"?>\n<a x=\"1\" y=\"two\">\n  <b>hello</b>\n  <c/>\n  <b> again </b>\n</a>\n";
    let document = read_document(source).unwrap();
    let expected = element(
        "a",
        vec![attribute("x", "1"), attribute("y", "two")],
        vec![
            Node::Element(element("b", vec![], vec![text("hello")])),
            Node::Element(element("c", vec![], vec![])),
            Node::Element(element("b", vec![], vec![text("again")])),
        ],
    );
    assert_eq!(document, expected);
}

#[test]
fn reads_escaped_text_and_cdata_as_text() {
    let document = read_document(b"<a>1 &lt; 2<![CDATA[ & 3]]></a>").unwrap();
    assert_eq!(document, element("a", vec![], vec![text("1 < 2 & 3")]));
}

#[test]
fn leaves_comments_and_instructions_out() {
    let document = read_document(b"<a><!-- note --><?keep out?><b/></a>").unwrap();
    assert_eq!(
        document,
        element("a", vec![], vec![Node::Element(element("b", vec![], vec![]))])
    );
}

#[test]
fn rejects_bytes_that_are_not_xml() {
    assert!(matches!(read_document(b"\x00\x01\x02 not xml"), Err(CLIError::InvalidCBL(_))));
    assert!(matches!(read_document(b"plain words"), Err(CLIError::InvalidCBL(_))));
    assert!(matches!(read_document(b""), Err(CLIError::InvalidCBL(_))));
}

#[test]
fn rejects_tags_that_do_not_match() {
    assert!(matches!(read_document(b"<a><b></a></b>"), Err(CLIError::InvalidCBL(_))));
    assert!(matches!(read_document(b"<a>"), Err(CLIError::InvalidCBL(_))));
    assert!(matches!(read_document(b"<a/><b/>"), Err(CLIError::InvalidCBL(_))));
}

#[test]
fn builds_the_document_that_tokens_spell() {
    let tokens = vec![
        Token::Other,
        open("a"),
        Token::Text("x".to_string()),
        open("b"),
        Token::Close,
        Token::Other,
        Token::Close,
        Token::Other,
    ];
    let document = build_document(tokens).unwrap();
    assert_eq!(
        document,
        element("a", vec![], vec![text("x"), Node::Element(element("b", vec![], vec![]))])
    );
}

#[test]
fn refuses_tokens_that_spell_no_document() {
    let refusal = CLIError::InvalidCBL(
        "the markup is not a single element with matching tags".to_string(),
    );
    assert_eq!(build_document(vec![]), Err(CLIError::InvalidCBL(refusal_text())));
    assert_eq!(build_document(vec![Token::Other]).unwrap_err(), refusal);
    assert_eq!(build_document(vec![Token::Close]).unwrap_err(), refusal);
    assert_eq!(build_document(vec![Token::Text("x".to_string())]).unwrap_err(), refusal);
    assert_eq!(build_document(vec![open("a")]).unwrap_err(), refusal);
    assert_eq!(build_document(vec![open("a"), Token::Close, Token::Close]).unwrap_err(), refusal);
    assert_eq!(
        build_document(vec![open("a"), Token::Close, open("b"), Token::Close]).unwrap_err(),
        refusal
    );
    assert_eq!(
        build_document(vec![open("a"), Token::Close, Token::Text("x".to_string())]).unwrap_err(),
        refusal
    );
}

fn refusal_text() -> String {
    "the markup is not a single element with matching tags".to_string()
}

#[test]
fn the_complaint_of_the_reader_is_handed_on_as_it_is() {
    assert_eq!(
        document_from(Err("1:1 no root".to_string())),
        Err(CLIError::InvalidCBL("1:1 no root".to_string()))
    );
    assert_eq!(
        document_from(Ok(vec![open("a"), Token::Close])),
        Ok(element("a", vec![], vec![]))
    );
    let complaint = read_document(b"<a><b></a>").unwrap_err();
    assert_eq!(CBL::from_bytes(b"<a><b></a>"), Err(complaint));
}
