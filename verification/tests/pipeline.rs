use lithe::document::{Attr, Document, Element};
use lithe::document_type::DocumentType;
use lithe::parser::{parse, ParseError};
use lithe::renderer::render;

fn element<'a>(name: &str, attributes: Vec<Attr<'a>>, children: Vec<Element<'a>>) -> Element<'a> {
    Element {
        name: name.to_string(),
        attributes,
        children,
    }
}

fn html_of(text: &str) -> String {
    render(&parse(text).unwrap()).unwrap()
}

#[test]
fn empty_text_is_the_empty_document() {
    let doc = parse("").unwrap();
    assert!(doc.document_type.is_none());
    assert!(doc.children.is_empty());
    assert_eq!(doc, Document::new());
    assert_eq!(render(&doc).unwrap(), "");
}

#[test]
fn blank_lines_give_nothing() {
    let doc = parse("\n  \n\t\n").unwrap();
    assert_eq!(doc, Document::new());
    assert_eq!(render(&doc).unwrap(), "");
}

#[test]
fn indentation_nests_the_elements() {
    let text = "doctype html\nhtml\n  head\n    link rel=\"stylesheet\" href=\"style.css\"\n  body\n";
    let doc = parse(text).unwrap();
    assert_eq!(doc.children.len(), 1);
    let html = &doc.children[0];
    assert_eq!(html.name, "html");
    assert_eq!(html.children.len(), 2);
    let head = &html.children[0];
    assert_eq!(head.name, "head");
    assert_eq!(head.children.len(), 1);
    let link = &head.children[0];
    assert_eq!(link.name, "link");
    assert_eq!(
        link.attributes,
        vec![
            Attr { name: "rel", value: "stylesheet" },
            Attr { name: "href", value: "style.css" },
        ]
    );
    assert!(link.children.is_empty());
    let body = &html.children[1];
    assert_eq!(body.name, "body");
    assert!(body.children.is_empty());
    assert!(body.attributes.is_empty());

    // The name `html` has no identifiers, and only `5` is written without
    // any.
    assert_eq!(
        render(&doc).unwrap(),
        "<!DOCTYPE HTML PUBLIC \"\" \"\"><html><head><link rel=\"stylesheet\" href=\"style.css\" /></head><body></body></html>"
    );
}

#[test]
fn the_short_doctype_is_written_for_5() {
    let text = "doctype 5\nhtml\n  head\n    link rel=\"stylesheet\" href=\"style.css\"\n  body\n";
    assert_eq!(
        html_of(text),
        "<!DOCTYPE HTML><html><head><link rel=\"stylesheet\" href=\"style.css\" /></head><body></body></html>"
    );
}

#[test]
fn strict_is_read_as_html_and_written_in_upper_case() {
    let doc = parse("doctype strict").unwrap();
    assert_eq!(doc.document_type, Some(DocumentType::new("html", "strict")));
    let html = render(&doc).unwrap();
    assert!(html.starts_with(
        "<!DOCTYPE HTML PUBLIC \"-//W3C//DTD HTML 4.01//EN\" \"http://www.w3.org/TR/html4/strict.dtd\">"
    ));
    assert_eq!(
        html,
        "<!DOCTYPE HTML PUBLIC \"-//W3C//DTD HTML 4.01//EN\" \"http://www.w3.org/TR/html4/strict.dtd\">"
    );
}

#[test]
fn xhtml_is_written_in_lower_case() {
    let doc = Document {
        document_type: Some(DocumentType::new("xhtml", "strict")),
        children: vec![],
    };
    assert_eq!(
        render(&doc).unwrap(),
        "<!DOCTYPE html PUBLIC \"-//W3C//DTD XHTML 1.0 Strict//EN\" \"http://www.w3.org/TR/xhtml1/DTD/xhtml1-strict.dtd\">"
    );
}

#[test]
fn names_of_xhtml_only_are_read_as_xhtml() {
    let doc = parse("doctype 1.1\n").unwrap();
    assert_eq!(doc.document_type, Some(DocumentType::new("xhtml", "1.1")));
    assert_eq!(
        render(&doc).unwrap(),
        "<!DOCTYPE html PUBLIC \"-//W3C//DTD XHTML 1.1//EN\" \"http://www.w3.org/TR/xhtml11/DTD/xhtml11.dtd\">"
    );
    let doc = parse("doctype mobile").unwrap();
    assert_eq!(doc.document_type, Some(DocumentType::new("xhtml", "mobile")));
    let doc = parse("doctype basic").unwrap();
    assert_eq!(doc.document_type, Some(DocumentType::new("xhtml", "basic")));
}

#[test]
fn an_unknown_doctype_is_rejected() {
    assert_eq!(
        parse("doctype unknown"),
        Err(ParseError { position: 8, line: 0, column: 8 })
    );
    assert!(parse("doctype").is_err());
    assert!(parse("doctype \n").is_err());
    assert!(parse("doctype html5").is_err());
    assert!(parse("doctype HTML").is_err());
}

#[test]
fn a_comment_leaves_an_invisible_placeholder() {
    let doc = parse("/ a comment\n").unwrap();
    assert!(doc.document_type.is_none());
    assert_eq!(doc.children, vec![Element::new()]);
    assert_eq!(doc.children[0].name, "");
    assert_eq!(render(&doc).unwrap(), "");
}

#[test]
fn a_comment_goes_to_the_element_before_it() {
    let doc = parse("html\n  body\n/ note\n  / more\nhead\n").unwrap();
    assert_eq!(
        doc.children,
        vec![
            element(
                "html",
                vec![],
                vec![element("body", vec![], vec![Element::new(), Element::new()])]
            ),
            element("head", vec![], vec![]),
        ]
    );
    assert_eq!(render(&doc).unwrap(), "<html><body></body></html><head></head>");
}

#[test]
fn the_xml_doctype_keeps_its_name_and_writes_nothing() {
    let doc = parse("doctype xml ISO-8859-1\nhtml\n").unwrap();
    let doctype = doc.document_type.unwrap();
    assert_eq!(doctype.name, "xml");
    assert_eq!(doctype.public_id, "");
    assert_eq!(doctype.system_id, "");
    assert_eq!(doctype.as_tag(), "");
    assert_eq!(html_of("doctype xml ISO-8859-1\nhtml\n"), "<html></html>");
}

#[test]
fn the_first_doctype_wins() {
    let doc = parse("doctype strict\ndoctype 1.1\n").unwrap();
    assert_eq!(doc.document_type, Some(DocumentType::new("html", "strict")));
}

#[test]
fn a_doctype_may_follow_elements() {
    let doc = parse("html\ndoctype 5\n").unwrap();
    assert_eq!(doc.document_type, Some(DocumentType::new("html", "5")));
    assert_eq!(render(&doc).unwrap(), "<!DOCTYPE HTML><html></html>");
}

#[test]
fn elements_are_written_without_a_doctype() {
    assert_eq!(html_of("html\n  body\n"), "<html><body></body></html>");
}

#[test]
fn siblings_may_be_indented_less_and_less() {
    let doc = parse("a\n      b\n    c\n  d\n   e\ne\n").unwrap();
    assert_eq!(
        doc.children,
        vec![
            element(
                "a",
                vec![],
                vec![
                    element("b", vec![], vec![]),
                    element("c", vec![], vec![]),
                    element("d", vec![], vec![element("e", vec![], vec![])]),
                ]
            ),
            element("e", vec![], vec![]),
        ]
    );
}

#[test]
fn equal_indentation_makes_siblings() {
    assert_eq!(
        html_of("  html\n  head\n  body\n"),
        "<html></html><head></head><body></body>"
    );
    assert_eq!(
        html_of("\thtml\n\t\thead\n\tbody\n"),
        "<html><head></head></html><body></body>"
    );
}

#[test]
fn any_tag_name_is_an_element() {
    let doc = parse("div class=box id=\"main\" hidden\n  p data-x=1\n").unwrap();
    assert_eq!(
        doc.children,
        vec![element(
            "div",
            vec![
                Attr { name: "class", value: "box" },
                Attr { name: "id", value: "main" },
                Attr { name: "hidden", value: "" },
            ],
            vec![element("p", vec![Attr { name: "data-x", value: "1" }], vec![])]
        )]
    );
    assert_eq!(
        render(&doc).unwrap(),
        "<div class=\"box\" id=\"main\" hidden=\"\"><p data-x=\"1\"></p></div>"
    );
}

#[test]
fn attributes_with_one_name_are_all_kept() {
    let doc = parse("body class=a class=b\n").unwrap();
    assert_eq!(
        doc.children[0].attributes,
        vec![
            Attr { name: "class", value: "a" },
            Attr { name: "class", value: "b" },
        ]
    );
    assert_eq!(html_of("body class=a class=b\n"), "<body class=\"a\" class=\"b\"></body>");
}

#[test]
fn a_quoted_value_may_hold_blanks_and_be_empty() {
    let doc = parse("body title=\"a b  c\" lang=\"\"").unwrap();
    assert_eq!(
        doc.children[0].attributes,
        vec![
            Attr { name: "title", value: "a b  c" },
            Attr { name: "lang", value: "" },
        ]
    );
}

#[test]
fn a_link_takes_pairs_only() {
    assert!(parse("link rel=stylesheet href=\"a.css\"\n").is_ok());
    assert!(parse("link\n").is_ok());
    assert_eq!(
        parse("link rel"),
        Err(ParseError { position: 8, line: 0, column: 8 })
    );
    assert_eq!(html_of("link rel=stylesheet href=\"a.css\"\n"), "<link rel=\"stylesheet\" href=\"a.css\" />");
}

#[test]
fn the_children_of_a_void_element_are_not_written() {
    let doc = parse("html\n  link rel=a\n    body\n  head\n").unwrap();
    assert_eq!(
        doc.children,
        vec![element(
            "html",
            vec![],
            vec![
                element(
                    "link",
                    vec![Attr { name: "rel", value: "a" }],
                    vec![element("body", vec![], vec![])]
                ),
                element("head", vec![], vec![]),
            ]
        )]
    );
    assert_eq!(render(&doc).unwrap(), "<html><link rel=\"a\" /><head></head></html>");
}

#[test]
fn every_void_element_closes_itself() {
    let names = [
        "area", "base", "br", "col", "embed", "hr", "img", "input", "link", "meta", "source",
        "track", "wbr",
    ];
    for name in names.iter() {
        let e = element(name, vec![Attr { name: "a", value: "b" }], vec![element("p", vec![], vec![])]);
        assert_eq!(e.as_tag(), format!("<{} a=\"b\" />", name));
    }
    let e = element("div", vec![], vec![element("br", vec![], vec![])]);
    assert_eq!(e.as_tag(), "<div><br /></div>");
    let e = element("areas", vec![], vec![]);
    assert_eq!(e.as_tag(), "<areas></areas>");
}

#[test]
fn an_element_without_a_name_is_written_as_nothing() {
    let e = element("", vec![Attr { name: "a", value: "b" }], vec![element("p", vec![], vec![])]);
    assert_eq!(e.as_tag(), "");
    assert_eq!(Element::new().as_tag(), "");
    let doc = Document {
        document_type: None,
        children: vec![Element::new(), element("p", vec![], vec![Element::new()]), Element::new()],
    };
    assert_eq!(render(&doc).unwrap(), "<p></p>");
}

#[test]
fn errors_say_where_the_text_stops_matching() {
    assert_eq!(
        parse("html\n  body class=\"a\nhead\n"),
        Err(ParseError { position: 20, line: 1, column: 15 })
    );
    assert_eq!(
        parse("html\n  body class=\n"),
        Err(ParseError { position: 18, line: 1, column: 13 })
    );
    assert_eq!(
        parse("html\n\n  =x\n"),
        Err(ParseError { position: 8, line: 2, column: 2 })
    );
    assert_eq!(
        parse("html lang=\"en\"x\n"),
        Err(ParseError { position: 14, line: 0, column: 14 })
    );
    assert_eq!(
        parse("doctype xml a b\n"),
        Err(ParseError { position: 14, line: 0, column: 14 })
    );
    assert_eq!(
        parse("doctype html\n<html>\n"),
        Err(ParseError { position: 13, line: 1, column: 0 })
    );
    assert_eq!(
        parse("html\n  bödy\n"),
        Err(ParseError { position: 8, line: 1, column: 3 })
    );
}

#[test]
fn a_failing_parse_gives_no_document() {
    assert!(parse("html\n  head\n  body =\n").is_err());
}

#[test]
fn lines_may_end_in_carriage_return_and_line_feed() {
    assert_eq!(
        html_of("doctype 5\r\nhtml\r\n  body class=a\r\n"),
        "<!DOCTYPE HTML><html><body class=\"a\"></body></html>"
    );
}

#[test]
fn text_outside_ascii_is_kept_in_values() {
    let doc = parse("body title=\"Grüße, 世界\"\n/ Übung\n").unwrap();
    assert_eq!(doc.children[0].attributes, vec![Attr { name: "title", value: "Grüße, 世界" }]);
    assert_eq!(render(&doc).unwrap(), "<body title=\"Grüße, 世界\"></body>");
}

#[test]
fn rendering_never_fails() {
    for text in ["", "html", "doctype xml", "/ c", "a\n b\n  c\n d", "link a=b"] {
        assert!(render(&parse(text).unwrap()).is_ok());
    }
}

fn names_in_document_order(elements: &[Element], out: &mut Vec<String>) {
    for e in elements {
        out.push(e.name.clone());
        names_in_document_order(&e.children, out);
    }
}

#[test]
fn nesting_keeps_every_line_in_its_place() {
    let text = "a\n  b\n    c\n/ x\n  d\n e\nf\n      g\n/! y\n   h\ni\n";
    let doc = parse(text).unwrap();
    let mut names = Vec::new();
    names_in_document_order(&doc.children, &mut names);
    assert_eq!(names, vec!["a", "b", "c", "", "d", "e", "f", "g", "", "h", "i"]);
    assert_eq!(doc.children.len(), 3);
    assert_eq!(
        render(&doc).unwrap(),
        "<a><b><c></c></b><d></d><e></e></a><f><g></g><h></h></f><i></i>"
    );
}

#[test]
fn every_known_doctype_keeps_its_name() {
    for name in ["html", "5", "strict", "frameset", "transitional"] {
        let text = format!("doctype {}", name);
        let doc = parse(&text).unwrap();
        assert_eq!(doc.document_type, Some(DocumentType::new("html", name)));
    }
    for name in ["1.1", "mobile", "basic"] {
        let text = format!("doctype {}", name);
        let doc = parse(&text).unwrap();
        assert_eq!(doc.document_type, Some(DocumentType::new("xhtml", name)));
    }
    let doc = parse("doctype xml").unwrap();
    assert_eq!(doc.document_type, Some(DocumentType::new("xml", "xml")));
    for name in ["4", "xhtml", "Strict", "1.0", "html 5x y", ""] {
        let text = format!("doctype {}", name);
        assert!(parse(&text).is_err());
    }
}

fn indentation_of(line: &str) -> usize {
    line.chars().take_while(|c| *c == ' ').count()
}

fn parents_in_document_order(elements: &[Element], above: Option<usize>, out: &mut Vec<Option<usize>>) {
    for e in elements {
        let place = out.len();
        out.push(above);
        parents_in_document_order(&e.children, Some(place), out);
    }
}

#[test]
fn the_parent_is_the_nearest_element_indented_less() {
    let text = "a\n   b\n      c\n  / x\n    d\n e\n/ y\nf\n      g\n   h\n    i\n  j\nk\n";
    let lines: Vec<&str> = text.lines().collect();
    let mut owners = Vec::new();
    for (i, line) in lines.iter().enumerate() {
        let comment = line.trim_start().starts_with('/');
        let owner = (0..i).rev().find(|j| {
            !lines[*j].trim_start().starts_with('/')
                && (comment || indentation_of(lines[*j]) < indentation_of(line))
        });
        owners.push(owner);
    }
    let doc = parse(text).unwrap();
    let mut parents = Vec::new();
    parents_in_document_order(&doc.children, None, &mut parents);
    assert_eq!(parents, owners);
    assert_eq!(
        parents,
        vec![
            None,
            Some(0),
            Some(1),
            Some(2),
            Some(1),
            Some(0),
            Some(5),
            None,
            Some(7),
            Some(7),
            Some(9),
            Some(7),
            None,
        ]
    );
}
