use lithe::document::Attr;
use lithe::grammar::{scan, spells, Class, Pair, Rule};
use lithe::parser::{build, build_attributes, build_element, LitheParser, ParseError};
use lithe::text::{chars_of, same_text};

fn pair(rule: Rule, start: usize, end: usize) -> Pair {
    Pair { rule, start, end }
}

#[test]
fn a_text_gives_its_pairs_in_source_order() {
    let text = "doctype 5\n/ c\n  link rel=\"a\" href=b\nbody x\n";
    assert_eq!(
        LitheParser::parse(Rule::document, text),
        Ok(vec![
            pair(Rule::indent, 0, 0),
            pair(Rule::doctype, 0, 9),
            pair(Rule::doctype_value, 8, 9),
            pair(Rule::html_doctype, 8, 9),
            pair(Rule::indent, 10, 10),
            pair(Rule::code_comment, 10, 13),
            pair(Rule::indent, 14, 16),
            pair(Rule::link, 16, 20),
            pair(Rule::link_attribute, 21, 35),
            pair(Rule::name, 21, 24),
            pair(Rule::value, 26, 27),
            pair(Rule::name, 29, 33),
            pair(Rule::value, 34, 35),
            pair(Rule::indent, 36, 36),
            pair(Rule::body, 36, 40),
            pair(Rule::attribute, 41, 42),
            pair(Rule::name, 41, 42),
            pair(Rule::EOI, 43, 43),
        ])
    );
}

#[test]
fn the_empty_text_gives_the_end_of_input_only() {
    assert_eq!(
        LitheParser::parse(Rule::document, ""),
        Ok(vec![pair(Rule::EOI, 0, 0)])
    );
    assert_eq!(LitheParser::parse(Rule::EOI, ""), Ok(vec![pair(Rule::EOI, 0, 0)]));
    assert!(LitheParser::parse(Rule::EOI, " ").is_err());
}

#[test]
fn a_doctype_spans_its_extra_word() {
    assert_eq!(
        LitheParser::parse(Rule::doctype, "doctype xml ISO-8859-1"),
        Ok(vec![
            pair(Rule::doctype, 0, 22),
            pair(Rule::doctype_value, 8, 11),
            pair(Rule::xml_doctype, 8, 11),
        ])
    );
    assert_eq!(
        LitheParser::parse(Rule::doctype, "doctype\n\n\n strict"),
        Ok(vec![
            pair(Rule::doctype, 0, 17),
            pair(Rule::doctype_value, 11, 17),
            pair(Rule::html_doctype, 11, 17),
        ])
    );
    assert_eq!(
        LitheParser::parse(Rule::doctype, "doctypes 5"),
        Err(ParseError { position: 0, line: 0, column: 0 })
    );
}

#[test]
fn a_doctype_value_tells_its_dialect() {
    assert_eq!(
        LitheParser::parse(Rule::doctype_value, "mobile"),
        Ok(vec![pair(Rule::doctype_value, 0, 6), pair(Rule::xhtml_doctype, 0, 6)])
    );
    assert_eq!(
        LitheParser::parse(Rule::xhtml_doctype, "basic"),
        Ok(vec![pair(Rule::xhtml_doctype, 0, 5)])
    );
    assert_eq!(
        LitheParser::parse(Rule::html_doctype, "transitional"),
        Ok(vec![pair(Rule::html_doctype, 0, 12)])
    );
    assert_eq!(
        LitheParser::parse(Rule::xml_doctype, "xml"),
        Ok(vec![pair(Rule::xml_doctype, 0, 3)])
    );
    assert!(LitheParser::parse(Rule::xhtml_doctype, "strict").is_err());
    assert!(LitheParser::parse(Rule::html_doctype, "1.1").is_err());
    assert!(LitheParser::parse(Rule::doctype_value, "4").is_err());
}

#[test]
fn a_comment_is_of_one_kind() {
    assert_eq!(
        LitheParser::parse(Rule::code_comment, "/ a\nb"),
        Ok(vec![pair(Rule::code_comment, 0, 3)])
    );
    assert_eq!(
        LitheParser::parse(Rule::html_comment, "/! a"),
        Ok(vec![pair(Rule::html_comment, 0, 4)])
    );
    assert!(LitheParser::parse(Rule::code_comment, "/! a").is_err());
    assert!(LitheParser::parse(Rule::html_comment, "/ a").is_err());
    assert!(LitheParser::parse(Rule::code_comment, "a").is_err());
    assert!(LitheParser::parse(Rule::code_comment, "").is_err());
}

#[test]
fn a_tag_is_matched_under_its_own_rule() {
    assert_eq!(
        LitheParser::parse(Rule::html, "html lang=en"),
        Ok(vec![
            pair(Rule::html, 0, 4),
            pair(Rule::attribute, 5, 12),
            pair(Rule::name, 5, 9),
            pair(Rule::value, 10, 12),
        ])
    );
    assert_eq!(LitheParser::parse(Rule::head, "head"), Ok(vec![pair(Rule::head, 0, 4)]));
    assert_eq!(LitheParser::parse(Rule::body, "body"), Ok(vec![pair(Rule::body, 0, 4)]));
    assert_eq!(LitheParser::parse(Rule::link, "link"), Ok(vec![pair(Rule::link, 0, 4)]));
    assert_eq!(LitheParser::parse(Rule::element, "div"), Ok(vec![pair(Rule::element, 0, 3)]));
    assert!(LitheParser::parse(Rule::element, "html").is_err());
    assert!(LitheParser::parse(Rule::html, "head").is_err());
    assert!(LitheParser::parse(Rule::body, " body").is_err());
}

#[test]
fn a_tag_name_starts_with_a_letter() {
    assert_eq!(
        LitheParser::parse(Rule::element, "h1 x"),
        Ok(vec![
            pair(Rule::element, 0, 2),
            pair(Rule::attribute, 3, 4),
            pair(Rule::name, 3, 4),
        ])
    );
    assert_eq!(
        LitheParser::parse(Rule::element, "1h"),
        Err(ParseError { position: 0, line: 0, column: 0 })
    );
    assert_eq!(
        LitheParser::parse(Rule::document, "html\n  -x\n"),
        Err(ParseError { position: 7, line: 1, column: 2 })
    );
}

#[test]
fn blank_lines_give_no_pair() {
    assert_eq!(
        LitheParser::parse(Rule::document, "\n  \n / c \n\t"),
        Ok(vec![
            pair(Rule::indent, 4, 5),
            pair(Rule::code_comment, 5, 9),
            pair(Rule::EOI, 11, 11),
        ])
    );
}

#[test]
fn the_small_rules_match_at_the_start() {
    assert_eq!(LitheParser::parse(Rule::indent, " \t x"), Ok(vec![pair(Rule::indent, 0, 3)]));
    assert_eq!(LitheParser::parse(Rule::indent, "x"), Ok(vec![pair(Rule::indent, 0, 0)]));
    assert_eq!(LitheParser::parse(Rule::name, "data-x=1"), Ok(vec![pair(Rule::name, 0, 6)]));
    assert!(LitheParser::parse(Rule::name, "=1").is_err());
    assert_eq!(LitheParser::parse(Rule::value, "\"a b\" c"), Ok(vec![pair(Rule::value, 1, 4)]));
    assert_eq!(LitheParser::parse(Rule::value, "a.css b"), Ok(vec![pair(Rule::value, 0, 5)]));
    assert_eq!(
        LitheParser::parse(Rule::value, "\"a"),
        Err(ParseError { position: 2, line: 0, column: 2 })
    );
    assert!(LitheParser::parse(Rule::value, "").is_err());
    assert!(LitheParser::parse(Rule::value, "<a").is_err());
    assert_eq!(
        LitheParser::parse(Rule::attribute, "checked"),
        Ok(vec![pair(Rule::attribute, 0, 7), pair(Rule::name, 0, 7)])
    );
    assert_eq!(
        LitheParser::parse(Rule::link_attribute, "a=b  c=\"d\""),
        Ok(vec![
            pair(Rule::link_attribute, 0, 10),
            pair(Rule::name, 0, 1),
            pair(Rule::value, 2, 3),
            pair(Rule::name, 5, 6),
            pair(Rule::value, 8, 9),
        ])
    );
    assert!(LitheParser::parse(Rule::link_attribute, "a").is_err());
}

#[test]
fn scanning_stops_at_the_first_character_of_another_class() {
    let chars = chars_of("  \tab-c.d e\n\"x");
    assert_eq!(scan(&chars, 0, Class::Blank), 3);
    assert_eq!(scan(&chars, 3, Class::Blank), 3);
    assert_eq!(scan(&chars, 3, Class::Word), 9);
    assert_eq!(scan(&chars, 3, Class::Visible), 9);
    assert_eq!(scan(&chars, 3, Class::Text), 11);
    assert_eq!(scan(&chars, 9, Class::Space), 10);
    assert_eq!(scan(&chars, 11, Class::Space), 12);
    assert_eq!(scan(&chars, 10, Class::Bare), 11);
    assert_eq!(scan(&chars, 12, Class::Bare), 12);
    assert_eq!(scan(&chars, 12, Class::Quoted), 12);
    assert_eq!(scan(&chars, 13, Class::Quoted), 14);
    assert_eq!(scan(&chars, 14, Class::Word), 14);
}

#[test]
fn spelling_compares_a_stretch_with_a_word() {
    let chars = chars_of("a doctype b");
    assert!(spells(&chars, 2, 9, "doctype"));
    assert!(!spells(&chars, 2, 8, "doctype"));
    assert!(!spells(&chars, 1, 8, "doctype"));
    assert!(spells(&chars, 3, 3, ""));
}

#[test]
fn texts_are_compared_by_their_characters() {
    assert_eq!(chars_of("aé世"), vec!['a', 'é', '世']);
    assert_eq!(chars_of(""), Vec::<char>::new());
    assert!(same_text("", ""));
    assert!(same_text("héllo", "héllo"));
    assert!(!same_text("hello", "hellp"));
    assert!(!same_text("hello", "hell"));
    assert!(!same_text("é", "e"));
}

#[test]
fn attributes_are_read_up_to_the_next_other_pair() {
    let text = "a b=c d";
    let pairs = vec![
        pair(Rule::element, 0, 1),
        pair(Rule::attribute, 2, 5),
        pair(Rule::name, 2, 3),
        pair(Rule::value, 4, 5),
        pair(Rule::attribute, 6, 7),
        pair(Rule::name, 6, 7),
        pair(Rule::EOI, 7, 7),
        pair(Rule::name, 0, 1),
    ];
    let (attributes, next) = build_attributes(text, &pairs, 1);
    assert_eq!(
        attributes,
        vec![Attr { name: "b", value: "c" }, Attr { name: "d", value: "" }]
    );
    assert_eq!(next, 6);
    let (attributes, next) = build_attributes(text, &pairs, 3);
    assert_eq!(attributes, vec![Attr { name: "d", value: "" }]);
    assert_eq!(next, 6);
    let (attributes, next) = build_attributes(text, &pairs, 6);
    assert!(attributes.is_empty());
    assert_eq!(next, 6);
    let (attributes, next) = build_attributes(text, &pairs, 8);
    assert!(attributes.is_empty());
    assert_eq!(next, 8);
}

#[test]
fn a_later_value_replaces_the_value_before_it() {
    let text = "abc";
    let pairs = vec![
        pair(Rule::name, 0, 1),
        pair(Rule::value, 1, 2),
        pair(Rule::value, 2, 3),
    ];
    let (attributes, next) = build_attributes(text, &pairs, 0);
    assert_eq!(attributes, vec![Attr { name: "a", value: "c" }]);
    assert_eq!(next, 3);
}

#[test]
fn the_walk_ends_at_the_end_of_input() {
    let text = "a b";
    let pairs = vec![
        pair(Rule::indent, 0, 0),
        pair(Rule::element, 0, 1),
        pair(Rule::EOI, 1, 1),
        pair(Rule::indent, 1, 2),
        pair(Rule::element, 2, 3),
        pair(Rule::html_doctype, 0, 1),
    ];
    let elements = build_element(text, &pairs);
    assert_eq!(elements.len(), 1);
    assert_eq!(elements[0].name, "a");
    let doc = build(text, &pairs);
    assert!(doc.document_type.is_none());
    assert_eq!(doc.children, elements);
}

#[test]
fn an_element_is_indented_by_the_pair_before_it() {
    let text = "abcd";
    let pairs = vec![
        pair(Rule::element, 0, 1),
        pair(Rule::indent, 0, 2),
        pair(Rule::xhtml_doctype, 0, 3),
        pair(Rule::element, 1, 2),
        pair(Rule::element, 2, 3),
        pair(Rule::indent, 0, 1),
        pair(Rule::html_comment, 0, 0),
        pair(Rule::element, 3, 4),
    ];
    let doc = build(text, &pairs);
    let root = &doc.children[0];
    assert_eq!(doc.children.len(), 2);
    assert_eq!(root.name, "a");
    assert_eq!(root.children.len(), 1);
    assert_eq!(root.children[0].name, "b");
    assert!(root.children[0].children.is_empty());
    assert_eq!(doc.children[1].name, "c");
    assert_eq!(doc.children[1].children.len(), 2);
    assert_eq!(doc.children[1].children[0].name, "");
    assert_eq!(doc.children[1].children[1].name, "d");
    let doctype = doc.document_type.unwrap();
    assert_eq!(doctype.name, "abc");
    assert_eq!(doctype.public_id, "");
    assert_eq!(doctype.as_tag(), "<!DOCTYPE html PUBLIC \"\" \"\">");
}

#[test]
fn an_accepted_text_ends_with_the_end_of_input() {
    for text in ["", "html", "html\n", "/ c", "doctype 5\n\n", "a b=c\n  d\n   "] {
        let pairs = LitheParser::parse(Rule::document, text).unwrap();
        let end = text.chars().count();
        assert_eq!(pairs.last(), Some(&pair(Rule::EOI, end, end)));
        assert_eq!(pairs.iter().filter(|p| p.rule == Rule::EOI).count(), 1);
        assert!(pairs.iter().all(|p| p.start <= p.end && p.end <= end));
    }
}
