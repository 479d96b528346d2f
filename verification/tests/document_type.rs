use lithe::document_type::DocumentType;

#[test]
fn test_document_type_new() {
    let doctype = DocumentType::new("unknown", "invalid");
    assert_eq!(doctype.name, "invalid");
    assert_eq!(doctype.public_id, "");
    assert_eq!(doctype.system_id, "");

    let doctype = DocumentType::new("unknown", "strict");
    assert_eq!(doctype.name, "strict");
    assert_eq!(doctype.public_id, "");
    assert_eq!(doctype.system_id, "");

    let doctype = DocumentType::new("xhtml", "invalid");
    assert_eq!(doctype.name, "invalid");
    assert_eq!(doctype.public_id, "");
    assert_eq!(doctype.system_id, "");

    let doctype = DocumentType::new("xhtml", "frameset");
    assert_eq!(doctype.name, "frameset");
    assert_eq!(doctype.public_id, "-//W3C//DTD XHTML 1.0 Frameset//EN");
    assert_eq!(
        doctype.system_id,
        "http://www.w3.org/TR/xhtml1/DTD/xhtml1-frameset.dtd"
    );

    let doctype = DocumentType::new("html", "invalid");
    assert_eq!(doctype.name, "invalid");
    assert_eq!(doctype.public_id, "");
    assert_eq!(doctype.system_id, "");

    let doctype = DocumentType::new("html", "transitional");
    assert_eq!(doctype.name, "transitional");
    assert_eq!(doctype.public_id, "-//W3C//DTD HTML 4.01 Transitional//EN");
    assert_eq!(doctype.system_id, "http://www.w3.org/TR/html4/loose.dtd");
}

#[test]
fn test_as_tag() {
    let doctype = DocumentType::new("html", "5");
    assert_eq!(doctype.as_tag(), "<!DOCTYPE HTML>");

    let doctype = DocumentType::new("html", "strict");
    assert_eq!(
        doctype.as_tag(),
        "<!DOCTYPE HTML PUBLIC \"-//W3C//DTD HTML 4.01//EN\" \"http://www.w3.org/TR/html4/strict.dtd\">"
    );

    let doctype = DocumentType::new("html", "frameset");
    assert_eq!(
        doctype.as_tag(),
        "<!DOCTYPE HTML PUBLIC \"-//W3C//DTD HTML 4.01 Frameset//EN\" \"http://www.w3.org/TR/html4/frameset.dtd\">"
    );

    let doctype = DocumentType::new("html", "transitional");
    assert_eq!(
        doctype.as_tag(),
        "<!DOCTYPE HTML PUBLIC \"-//W3C//DTD HTML 4.01 Transitional//EN\" \"http://www.w3.org/TR/html4/loose.dtd\">"
    );
}
