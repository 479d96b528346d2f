use lithe::document::{Attr, Document, Element};
use lithe::document_type::DocumentType;
use lithe::grammar::Rule;
use lithe::parser::{parse, LitheParser};

fn first_rule(rule: Rule, input: &str) -> Rule {
    LitheParser::parse(rule, input).unwrap()[0].rule
}

#[test]
fn test_code_comment() {
    let comments = vec![
        "/ foo bar baz qux quux",
        "/foo bar baz qux quux",
        "/  foo bar baz qux quux",
    ];
    for c in comments.iter() {
        assert_eq!(Rule::code_comment, first_rule(Rule::code_comment, c));
    }
}

#[test]
fn test_html_comment() {
    let comments = vec![
        "/! foo bar baz qux quux",
        "/!foo bar baz qux quux",
        "/!  foo bar baz qux quux",
    ];
    for c in comments.iter() {
        assert_eq!(Rule::html_comment, first_rule(Rule::html_comment, c));
    }
}

#[test]
fn test_doctype() {
    let doctypes = vec![
        "doctype xml",
        "doctype xml ISO-8859-1",
        "doctype html",
        "doctype  5",
        "doctype\n1.1",
        "doctype\n\n\n strict",
    ];
    for d in doctypes.iter() {
        assert_eq!(Rule::doctype, first_rule(Rule::doctype, d));
    }
}

#[test]
fn test_parse() {
    assert!(parse("/ Foo\n").is_ok());
    assert!(parse("/! Bar").is_ok());

    assert!(parse("doctype xml").is_ok());
    assert!(parse("doctype  xml").is_ok());
    assert!(parse("doctype xml ISO-8859-1").is_ok());

    // xhtml mode
    assert!(parse("doctype html").is_ok());
    assert!(parse("doctype 5").is_ok());
    assert!(parse("doctype 1.1").is_ok());
    assert!(parse("doctype strict").is_ok());
    assert!(parse("doctype frameset").is_ok());
    assert!(parse("doctype mobile").is_ok());
    assert!(parse("doctype basic").is_ok());
    assert!(parse("doctype transitional").is_ok());

    // html mode
    assert!(parse("doctype html").is_ok());
    assert!(parse("doctype 5").is_ok());
    assert!(parse("doctype strict").is_ok());
    assert!(parse("doctype frameset").is_ok());
    assert!(parse("doctype transitional").is_ok());

    assert!(parse("doctype unknown").is_err());
}

#[test]
fn test_parse_empty_doc() {
    let doc = parse(
        r#"doctype html
/ Comment
/! Das ist ein Test
"#,
    )
    .unwrap();

    let doctype = doc.document_type.unwrap();
    assert_eq!("html".to_string(), doctype.name);
    assert_eq!("", doctype.public_id);
    assert_eq!("", doctype.system_id);

    // Each comment leaves a placeholder, and nothing else is there.
    assert_eq!(doc.children, vec![Element::new(), Element::new()]);
    assert!(doc.children.iter().all(|e| e.name.is_empty()));
}

#[test]
fn test_parse_html_tag() {
    let doc = parse(
        r#"doctype html
html
"#,
    )
    .unwrap();

    let html = &doc.children[0];
    assert_eq!("html", html.name);

    assert!(html.children.is_empty());
    assert!(html.attributes.is_empty());
}

#[test]
fn test_parse_html_tag_with_attributes() {
    let doc = parse(
        r#"doctype html
html lang="en"
"#,
    )
    .unwrap();

    let html = &doc.children[0];
    assert_eq!("html", html.name);

    assert!(html.children.is_empty());

    let attr = &html.attributes[0];
    assert_eq!("lang", attr.name);
    assert_eq!("en", attr.value);
}

#[test]
fn test_parse_entire_doc() {
    let doc = parse(
        r#"doctype html
html
  head
    link rel="stylesheet" href="style.css"
  body
"#,
    )
    .unwrap();

    let doctype = DocumentType::new("html", "html");
    let expected = Document {
        document_type: Some(doctype),
        children: vec![Element {
            name: "html".to_string(),
            attributes: vec![],
            children: vec![
                Element {
                    name: "head".to_string(),
                    attributes: vec![],
                    children: vec![Element {
                        name: "link".to_string(),
                        attributes: vec![
                            Attr {
                                name: "rel",
                                value: "stylesheet",
                            },
                            Attr {
                                name: "href",
                                value: "style.css",
                            },
                        ],
                        children: vec![],
                    }],
                },
                Element {
                    name: "body".to_string(),
                    attributes: vec![],
                    children: vec![],
                },
            ],
        }],
    };
    assert_eq!(expected, doc);
}
