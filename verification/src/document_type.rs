//! The document type declaration of a document, and how it is written out.

use vstd::prelude::*;
use vstd::string::StringExecFns;
use crate::dtd::{public_identifier, system_identifier, DTD};
use crate::text::same_text;

verus! {

/// What a document type declaration holds, as plain text.
pub ghost struct DocumentTypeView {
    pub dialect: Seq<char>,
    pub name: Seq<char>,
    pub public_id: Seq<char>,
    pub system_id: Seq<char>,
}

/// The declaration that the shorthand `name` resolves to in `dialect`.
pub open spec fn resolved(dialect: Seq<char>, name: Seq<char>) -> DocumentTypeView {
    DocumentTypeView {
        dialect,
        name,
        public_id: public_identifier(dialect, name),
        system_id: system_identifier(dialect, name),
    }
}

/// The markup of a declaration. The `html` dialect writes the root name in
/// upper case, and `5` without identifiers; `xhtml` is XML, where names are
/// case-sensitive, and writes it in lower case. Any other dialect writes
/// nothing.
pub open spec fn doctype_tag(t: DocumentTypeView) -> Seq<char> {
    if t.dialect == "html"@ {
        if t.name == "5"@ {
            "<!DOCTYPE HTML>"@
        } else {
            "<!DOCTYPE HTML PUBLIC \""@ + t.public_id + "\" \""@ + t.system_id + "\">"@
        }
    } else if t.dialect == "xhtml"@ {
        "<!DOCTYPE html PUBLIC \""@ + t.public_id + "\" \""@ + t.system_id + "\">"@
    } else {
        Seq::empty()
    }
}

/// A document type declaration: the shorthand name as written, the dialect
/// it was read in, and the identifiers it resolved to.
#[derive(Clone, Copy, Debug, PartialEq, Eq)]
pub struct DocumentType<'a> {
    pub dtd: DTD<'a>,
    pub name: &'a str,
    pub public_id: &'static str,
    pub system_id: &'static str,
}

impl<'a> View for DocumentType<'a> {
    type V = DocumentTypeView;

    open spec fn view(&self) -> DocumentTypeView {
        DocumentTypeView {
            dialect: self.dtd.dialect@,
            name: self.dtd.name@,
            public_id: self.public_id@,
            system_id: self.system_id@,
        }
    }
}

impl<'a> DocumentType<'a> {
    /// Resolves the shorthand `name` in `dialect`. Never fails: an unknown
    /// dialect or name gives empty identifiers.
    pub fn new(dialect: &'static str, name: &'a str) -> (doctype: Self)
        ensures
            doctype@ == resolved(dialect@, name@),
            doctype.name@ == name@,
    {
        let dtd = DTD::new(dialect, name);
        let public_id = dtd.public_id();
        let system_id = dtd.system_id();

        Self { dtd, name, public_id, system_id }
    }

    /// The declaration as markup.
    pub fn as_tag(&self) -> (tag: String)
        ensures
            tag@ == doctype_tag(self@),
    {
        if same_text(self.dtd.dialect, "html") {
            if same_text(self.dtd.name, "5") {
                String::from_str("<!DOCTYPE HTML>")
            } else {
                self.with_identifiers("<!DOCTYPE HTML PUBLIC \"")
            }
        } else if same_text(self.dtd.dialect, "xhtml") {
            self.with_identifiers("<!DOCTYPE html PUBLIC \"")
        } else {
            String::new()
        }
    }

    fn with_identifiers(&self, opening: &str) -> (tag: String)
        ensures
            tag@ == opening@ + self.public_id@ + "\" \""@ + self.system_id@ + "\">"@,
    {
        let mut tag = String::from_str(opening);
        tag.append(self.public_id);
        tag.append("\" \"");
        tag.append(self.system_id);
        tag.append("\">");
        tag
    }
}

} // verus!
