//! Writing a document out as HTML.

use vstd::prelude::*;
use vstd::string::StringExecFns;
use crate::document::{forest_markup, markup, placeholder, views, Document, DocumentView};
use crate::document_type::doctype_tag;
use crate::nesting::{forest, forest_of_quiet_lines, quiet, Entry};

verus! {

/// Why a document could not be written out. Nothing is refused so far.
#[derive(Debug, PartialEq, Eq)]
pub enum RenderError {
    Unsupported,
}

/// The HTML text of a document: the document type declaration, where there
/// is one, and then the elements in document order. No line breaks are
/// added.
pub open spec fn rendered(doc: DocumentView) -> Seq<char> {
    let declaration = match doc.document_type {
        Some(t) => doctype_tag(t),
        None => Seq::empty(),
    };
    declaration + forest_markup(doc.children)
}

/// Writes `document` out as HTML. Every document can be written.
pub fn render(document: &Document) -> (result: Result<String, RenderError>)
    ensures
        result is Ok,
        result->Ok_0@ == rendered(document@),
{
    let mut out = String::new();
    if let Some(t) = &document.document_type {
        let tag = t.as_tag();
        out.append(tag.as_str());
    }
    let ghost head = out@;
    let ghost kids = views(document.children@);
    let mut i: usize = 0;
    while i < document.children.len()
        invariant
            i <= document.children.len(),
            kids == views(document.children@),
            out@ == head + forest_markup(kids.take(i as int)),
        decreases document.children.len() - i,
    {
        let child = &document.children[i];
        proof {
            assert(kids.take(i + 1).drop_last() =~= kids.take(i as int));
            assert(kids.take(i + 1).last() == child@);
        }
        let inner = child.as_tag();
        out.append(inner.as_str());
        i += 1;
        proof {
            assert(out@ =~= head + forest_markup(kids.take(i as int)));
        }
    }
    proof {
        assert(kids.take(i as int) =~= kids);
        assert(out@ =~= rendered(document@));
    }
    Ok(out)
}

/// Placeholders give no markup, however many there are.
pub proof fn placeholders_render_nothing(n: nat)
    ensures
        forest_markup(Seq::new(n, |i: int| placeholder())) == Seq::<char>::empty(),
    decreases n,
{
    let all = Seq::new(n, |i: int| placeholder());
    if n > 0 {
        placeholders_render_nothing((n - 1) as nat);
        assert(all.drop_last() =~= Seq::new((n - 1) as nat, |i: int| placeholder()));
        assert(all.last() == placeholder());
        assert(placeholder().name.len() == 0);
        assert(markup(placeholder()) =~= Seq::<char>::empty());
        assert(forest_markup(all) =~= Seq::<char>::empty());
    }
}

/// Comments are invisible in the output: lines that are all comments are
/// written as the empty text.
pub proof fn comments_render_nothing(lines: Seq<Entry>)
    requires
        quiet(lines),
    ensures
        forest_markup(forest(lines)) == Seq::<char>::empty(),
{
    forest_of_quiet_lines(lines);
    placeholders_render_nothing(lines.len());
}

} // verus!
