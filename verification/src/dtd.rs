//! The table of document type declarations: for each dialect, the formal
//! public and system identifiers that a shorthand name stands for.

use vstd::prelude::*;
use crate::text::same_text;

verus! {

/// The public identifier that `name` stands for in `dialect`; empty where the
/// dialect or the name is not in the table.
pub open spec fn public_identifier(dialect: Seq<char>, name: Seq<char>) -> Seq<char> {
    if dialect == "xhtml"@ {
        if name == "1.1"@ {
            "-//W3C//DTD XHTML 1.1//EN"@
        } else if name == "strict"@ {
            "-//W3C//DTD XHTML 1.0 Strict//EN"@
        } else if name == "frameset"@ {
            "-//W3C//DTD XHTML 1.0 Frameset//EN"@
        } else if name == "mobile"@ {
            "-//WAPFORUM//DTD XHTML Mobile 1.2//EN"@
        } else if name == "basic"@ {
            "-//W3C//DTD XHTML Basic 1.1//EN"@
        } else if name == "transitional"@ {
            "-//W3C//DTD XHTML 1.0 Transitional//EN"@
        } else {
            ""@
        }
    } else if dialect == "html"@ {
        if name == "strict"@ {
            "-//W3C//DTD HTML 4.01//EN"@
        } else if name == "frameset"@ {
            "-//W3C//DTD HTML 4.01 Frameset//EN"@
        } else if name == "transitional"@ {
            "-//W3C//DTD HTML 4.01 Transitional//EN"@
        } else {
            ""@
        }
    } else {
        ""@
    }
}

/// The system identifier that `name` stands for in `dialect`; empty where the
/// dialect or the name is not in the table.
pub open spec fn system_identifier(dialect: Seq<char>, name: Seq<char>) -> Seq<char> {
    if dialect == "xhtml"@ {
        if name == "1.1"@ {
            "http://www.w3.org/TR/xhtml11/DTD/xhtml11.dtd"@
        } else if name == "strict"@ {
            "http://www.w3.org/TR/xhtml1/DTD/xhtml1-strict.dtd"@
        } else if name == "frameset"@ {
            "http://www.w3.org/TR/xhtml1/DTD/xhtml1-frameset.dtd"@
        } else if name == "mobile"@ {
            "http://www.openmobilealliance.org/tech/DTD/xhtml-mobile12.dtd"@
        } else if name == "basic"@ {
            "http://www.w3.org/TR/xhtml-basic/xhtml-basic11.dtd"@
        } else if name == "transitional"@ {
            "http://www.w3.org/TR/xhtml1/DTD/xhtml1-transitional.dtd"@
        } else {
            ""@
        }
    } else if dialect == "html"@ {
        if name == "strict"@ {
            "http://www.w3.org/TR/html4/strict.dtd"@
        } else if name == "frameset"@ {
            "http://www.w3.org/TR/html4/frameset.dtd"@
        } else if name == "transitional"@ {
            "http://www.w3.org/TR/html4/loose.dtd"@
        } else {
            ""@
        }
    } else {
        ""@
    }
}

/// Whether `dialect` is one of the two dialects that the table knows.
pub open spec fn known_dialect(dialect: Seq<char>) -> bool {
    dialect == "xhtml"@ || dialect == "html"@
}

/// Whether the table lists identifiers for `name` in `dialect`. The names
/// `html` and `5` are listed too, with empty identifiers, so they are left
/// out here: this is about the pairs whose identifiers are not empty.
pub open spec fn has_identifiers(dialect: Seq<char>, name: Seq<char>) -> bool {
    ||| dialect == "xhtml"@ && (name == "1.1"@ || name == "strict"@ || name == "frameset"@ || name
        == "mobile"@ || name == "basic"@ || name == "transitional"@)
    ||| dialect == "html"@ && (name == "strict"@ || name == "frameset"@ || name
        == "transitional"@)
}

/// What a lookup of the identifier called `id` gives: nothing for an unknown
/// dialect or an identifier that is neither `public_id` nor `system_id`.
pub open spec fn declaration(dialect: Seq<char>, id: Seq<char>, name: Seq<char>) -> Option<
    Seq<char>,
> {
    if !known_dialect(dialect) {
        None
    } else if id == "public_id"@ {
        Some(public_identifier(dialect, name))
    } else if id == "system_id"@ {
        Some(system_identifier(dialect, name))
    } else {
        None
    }
}

/// Every pair outside the table resolves to empty identifiers.
pub proof fn unlisted_pairs_resolve_to_nothing(dialect: Seq<char>, name: Seq<char>)
    requires
        !has_identifiers(dialect, name),
    ensures
        public_identifier(dialect, name) == ""@,
        system_identifier(dialect, name) == ""@,
{
}

/// A shorthand name together with the dialect it is read in.
#[derive(Clone, Copy, Debug, PartialEq, Eq)]
pub struct DTD<'a> {
    pub dialect: &'a str,
    pub name: &'a str,
}

impl<'a> DTD<'a> {
    /// The declaration of `name` in `dialect`. Any two texts are taken.
    pub fn new(dialect: &'a str, name: &'a str) -> (dtd: Self)
        ensures
            dtd.dialect@ == dialect@,
            dtd.name@ == name@,
    {
        DTD { dialect, name }
    }

    fn xhtml_public_id(&self) -> (id: &'static str)
        ensures
            id@ == public_identifier("xhtml"@, self.name@),
    {
        if same_text(self.name, "1.1") {
            "-//W3C//DTD XHTML 1.1//EN"
        } else if same_text(self.name, "strict") {
            "-//W3C//DTD XHTML 1.0 Strict//EN"
        } else if same_text(self.name, "frameset") {
            "-//W3C//DTD XHTML 1.0 Frameset//EN"
        } else if same_text(self.name, "mobile") {
            "-//WAPFORUM//DTD XHTML Mobile 1.2//EN"
        } else if same_text(self.name, "basic") {
            "-//W3C//DTD XHTML Basic 1.1//EN"
        } else if same_text(self.name, "transitional") {
            "-//W3C//DTD XHTML 1.0 Transitional//EN"
        } else {
            ""
        }
    }

    fn xhtml_system_id(&self) -> (id: &'static str)
        ensures
            id@ == system_identifier("xhtml"@, self.name@),
    {
        if same_text(self.name, "1.1") {
            "http://www.w3.org/TR/xhtml11/DTD/xhtml11.dtd"
        } else if same_text(self.name, "strict") {
            "http://www.w3.org/TR/xhtml1/DTD/xhtml1-strict.dtd"
        } else if same_text(self.name, "frameset") {
            "http://www.w3.org/TR/xhtml1/DTD/xhtml1-frameset.dtd"
        } else if same_text(self.name, "mobile") {
            "http://www.openmobilealliance.org/tech/DTD/xhtml-mobile12.dtd"
        } else if same_text(self.name, "basic") {
            "http://www.w3.org/TR/xhtml-basic/xhtml-basic11.dtd"
        } else if same_text(self.name, "transitional") {
            "http://www.w3.org/TR/xhtml1/DTD/xhtml1-transitional.dtd"
        } else {
            ""
        }
    }

    fn html_public_id(&self) -> (id: &'static str)
        ensures
            id@ == public_identifier("html"@, self.name@),
    {
        proof {
            html_is_not_xhtml();
        }
        if same_text(self.name, "strict") {
            "-//W3C//DTD HTML 4.01//EN"
        } else if same_text(self.name, "frameset") {
            "-//W3C//DTD HTML 4.01 Frameset//EN"
        } else if same_text(self.name, "transitional") {
            "-//W3C//DTD HTML 4.01 Transitional//EN"
        } else {
            ""
        }
    }

    fn html_system_id(&self) -> (id: &'static str)
        ensures
            id@ == system_identifier("html"@, self.name@),
    {
        proof {
            html_is_not_xhtml();
        }
        if same_text(self.name, "strict") {
            "http://www.w3.org/TR/html4/strict.dtd"
        } else if same_text(self.name, "frameset") {
            "http://www.w3.org/TR/html4/frameset.dtd"
        } else if same_text(self.name, "transitional") {
            "http://www.w3.org/TR/html4/loose.dtd"
        } else {
            ""
        }
    }

    fn decralation(&self, id: &str) -> (found: Option<&'static str>)
        ensures
            match found {
                Some(text) => declaration(self.dialect@, id@, self.name@) == Some(text@),
                None => declaration(self.dialect@, id@, self.name@) is None,
            },
    {
        let public = same_text(id, "public_id");
        let system = same_text(id, "system_id");
        if same_text(self.dialect, "xhtml") {
            if public {
                Some(self.xhtml_public_id())
            } else if system {
                Some(self.xhtml_system_id())
            } else {
                None
            }
        } else if same_text(self.dialect, "html") {
            if public {
                Some(self.html_public_id())
            } else if system {
                Some(self.html_system_id())
            } else {
                None
            }
        } else {
            None
        }
    }

    /// The public identifier of this declaration; empty for a dialect or a
    /// name that the table does not list.
    pub fn public_id(&self) -> (id: &'static str)
        ensures
            id@ == public_identifier(self.dialect@, self.name@),
    {
        match self.decralation("public_id") {
            Some(id) => id,
            None => "",
        }
    }

    /// The system identifier of this declaration; empty for a dialect or a
    /// name that the table does not list.
    pub fn system_id(&self) -> (id: &'static str)
        ensures
            id@ == system_identifier(self.dialect@, self.name@),
    {
        proof {
            names_of_identifiers_differ();
        }
        match self.decralation("system_id") {
            Some(id) => id,
            None => "",
        }
    }
}

proof fn html_is_not_xhtml()
    ensures
        "html"@ != "xhtml"@,
{
    reveal_strlit("html");
    reveal_strlit("xhtml");
    assert("html"@.len() != "xhtml"@.len());
}

proof fn names_of_identifiers_differ()
    ensures
        "system_id"@ != "public_id"@,
{
    reveal_strlit("system_id");
    reveal_strlit("public_id");
    assert("system_id"@[0] != "public_id"@[0]);
}

} // verus!
