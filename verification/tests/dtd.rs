use lithe::dtd::DTD;

#[test]
fn test_new() {
    let dtd = DTD::new("unknown", "");
    assert_eq!(dtd.dialect, "unknown");
    assert_eq!(dtd.name, "");

    let dtd = DTD::new("xhtml", "invalid");
    assert_eq!(dtd.dialect, "xhtml");
    assert_eq!(dtd.name, "invalid");

    let dtd = DTD::new("xhtml", "frameset");
    assert_eq!(dtd.dialect, "xhtml");
    assert_eq!(dtd.name, "frameset");

    let dtd = DTD::new("html", "invalid");
    assert_eq!(dtd.dialect, "html");
    assert_eq!(dtd.name, "invalid");

    let dtd = DTD::new("html", "strict");
    assert_eq!(dtd.dialect, "html");
    assert_eq!(dtd.name, "strict");
}

#[test]
fn test_public_id() {
    let dtd = DTD::new("invalid", "");
    assert_eq!(dtd.public_id(), "");

    let dtd = DTD::new("invalid", "html");
    assert_eq!(dtd.public_id(), "");

    let dtd = DTD::new("xhtml", "unknown");
    assert_eq!(dtd.public_id(), "");

    let dtd = DTD::new("xhtml", "5");
    assert_eq!(dtd.public_id(), "");

    let dtd = DTD::new("xhtml", "1.1");
    assert_eq!(dtd.public_id(), "-//W3C//DTD XHTML 1.1//EN");

    let dtd = DTD::new("html", "unknown");
    assert_eq!(dtd.public_id(), "");

    let dtd = DTD::new("html", "5");
    assert_eq!(dtd.public_id(), "");

    let dtd = DTD::new("html", "strict");
    assert_eq!(dtd.public_id(), "-//W3C//DTD HTML 4.01//EN");
}
