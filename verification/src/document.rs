//! The document model: a document type and a forest of elements, and the
//! markup that an element stands for.

use vstd::prelude::*;
use vstd::string::StringExecFns;
use crate::document_type::{DocumentType, DocumentTypeView};
use crate::text::same_text;

verus! {

/// An attribute as plain text.
pub ghost struct AttrView {
    pub name: Seq<char>,
    pub value: Seq<char>,
}

/// An element as plain text, with its children in document order.
pub ghost struct ElementView {
    pub name: Seq<char>,
    pub attributes: Seq<AttrView>,
    pub children: Seq<ElementView>,
}

/// A document as plain text.
pub ghost struct DocumentView {
    pub document_type: Option<DocumentTypeView>,
    pub children: Seq<ElementView>,
}

/// The element that stands where a comment stood: it has no name, and
/// nothing is written for it.
pub open spec fn placeholder() -> ElementView {
    ElementView { name: Seq::empty(), attributes: Seq::empty(), children: Seq::empty() }
}

/// The elements that are always written self-closing, without children.
pub open spec fn is_void(name: Seq<char>) -> bool {
    ||| name == "area"@
    ||| name == "base"@
    ||| name == "br"@
    ||| name == "col"@
    ||| name == "embed"@
    ||| name == "hr"@
    ||| name == "img"@
    ||| name == "input"@
    ||| name == "link"@
    ||| name == "meta"@
    ||| name == "source"@
    ||| name == "track"@
    ||| name == "wbr"@
}

/// One attribute inside an opening tag: a space, the name, and the value in
/// double quotes.
pub open spec fn attribute_markup(a: AttrView) -> Seq<char> {
    " "@ + a.name + "=\""@ + a.value + "\""@
}

/// The attributes of an opening tag, in order.
pub open spec fn attributes_markup(attributes: Seq<AttrView>) -> Seq<char>
    decreases attributes.len(),
{
    if attributes.len() == 0 {
        Seq::empty()
    } else {
        attributes_markup(attributes.drop_last()) + attribute_markup(attributes.last())
    }
}

/// The markup of an element. A placeholder gives nothing. A void element
/// closes itself and its children are not written. Any other element holds
/// the markup of its children between its opening and its closing tag.
pub open spec fn markup(e: ElementView) -> Seq<char>
    decreases e,
{
    if e.name.len() == 0 {
        Seq::empty()
    } else if is_void(e.name) {
        "<"@ + e.name + attributes_markup(e.attributes) + " />"@
    } else {
        "<"@ + e.name + attributes_markup(e.attributes) + ">"@ + forest_markup(e.children) + "</"@
            + e.name + ">"@
    }
}

/// The markup of a run of elements, one after the other.
pub open spec fn forest_markup(elements: Seq<ElementView>) -> Seq<char>
    decreases elements,
{
    if elements.len() == 0 {
        Seq::empty()
    } else {
        forest_markup(elements.drop_last()) + markup(elements.last())
    }
}

/// An attribute of an element: a name and a value, which may be empty.
#[derive(Debug, PartialEq, Eq)]
pub struct Attr<'a> {
    pub name: &'a str,
    pub value: &'a str,
}

impl<'a> View for Attr<'a> {
    type V = AttrView;

    open spec fn view(&self) -> AttrView {
        AttrView { name: self.name@, value: self.value@ }
    }
}

/// The children of an element, in document order.
pub type HTMLCollection<'a> = Vec<Element<'a>>;

/// The attributes of an element, in source order.
pub type NamedNodeMap<'a> = Vec<Attr<'a>>;

/// An element with its attributes in source order and its children in
/// document order. An element without a name is a placeholder.
#[derive(Debug, PartialEq, Eq)]
pub struct Element<'a> {
    pub name: String,
    pub attributes: NamedNodeMap<'a>,
    pub children: HTMLCollection<'a>,
}

impl<'a> View for Element<'a> {
    type V = ElementView;

    open spec fn view(&self) -> ElementView
        decreases self,
    {
        ElementView {
            name: self.name@,
            attributes: self.attributes@.map_values(|a: Attr<'a>| a@),
            children: Seq::new(
                self.children@.len(),
                |i: int|
                    if 0 <= i < self.children@.len() {
                        self.children@[i]@
                    } else {
                        placeholder()
                    },
            ),
        }
    }
}

/// The views of a run of elements.
pub open spec fn views<'a>(elements: Seq<Element<'a>>) -> Seq<ElementView> {
    Seq::new(elements.len(), |i: int| elements[i]@)
}

/// The views of a run of attributes.
pub open spec fn attr_views<'a>(attributes: Seq<Attr<'a>>) -> Seq<AttrView> {
    attributes.map_values(|a: Attr<'a>| a@)
}

/// An element's view holds the views of its attributes and of its children.
pub proof fn view_of_element<'a>(e: Element<'a>)
    ensures
        e@.name == e.name@,
        e@.attributes == attr_views(e.attributes@),
        e@.children == views(e.children@),
{
    assert(e@.children =~= views(e.children@));
}

fn is_void_name(name: &str) -> (void: bool)
    ensures
        void == is_void(name@),
{
    same_text(name, "area") || same_text(name, "base") || same_text(name, "br") || same_text(
        name,
        "col",
    ) || same_text(name, "embed") || same_text(name, "hr") || same_text(name, "img") || same_text(
        name,
        "input",
    ) || same_text(name, "link") || same_text(name, "meta") || same_text(name, "source")
        || same_text(name, "track") || same_text(name, "wbr")
}

impl<'a> Element<'a> {
    /// A placeholder: no name, no attributes, no children.
    pub fn new() -> (e: Self)
        ensures
            e@ == placeholder(),
    {
        let e = Self { name: String::new(), attributes: Vec::new(), children: Vec::new() };
        proof {
            view_of_element(e);
            assert(e@.attributes =~= Seq::empty());
            assert(e@.children =~= Seq::empty());
        }
        e
    }

    fn push_attributes(&self, out: &mut String)
        ensures
            final(out)@ == old(out)@ + attributes_markup(attr_views(self.attributes@)),
    {
        let ghost all = attr_views(self.attributes@);
        let mut i: usize = 0;
        while i < self.attributes.len()
            invariant
                i <= self.attributes.len(),
                all == attr_views(self.attributes@),
                out@ == old(out)@ + attributes_markup(all.take(i as int)),
            decreases self.attributes.len() - i,
        {
            let a = &self.attributes[i];
            proof {
                assert(all.take(i + 1).drop_last() =~= all.take(i as int));
                assert(all.take(i + 1).last() == a@);
            }
            out.append(" ");
            out.append(a.name);
            out.append("=\"");
            out.append(a.value);
            out.append("\"");
            i += 1;
            proof {
                assert(out@ =~= old(out)@ + attributes_markup(all.take(i as int)));
            }
        }
        proof {
            assert(all.take(i as int) =~= all);
        }
    }

    /// The element as markup.
    pub fn as_tag(&self) -> (tag: String)
        ensures
            tag@ == markup(self@),
        decreases self,
    {
        proof {
            view_of_element(*self);
        }
        let mut out = String::new();
        if self.name.as_str().unicode_len() == 0 {
            return out;
        }
        out.append("<");
        out.append(self.name.as_str());
        self.push_attributes(&mut out);
        if is_void_name(self.name.as_str()) {
            out.append(" />");
            proof {
                assert(out@ =~= markup(self@));
            }
        } else {
            out.append(">");
            let ghost head = out@;
            let ghost kids = views(self.children@);
            let mut i: usize = 0;
            while i < self.children.len()
                invariant
                    i <= self.children.len(),
                    kids == views(self.children@),
                    out@ == head + forest_markup(kids.take(i as int)),
                decreases self.children.len() - i,
            {
                let child = &self.children[i];
                proof {
                    assert(kids.take(i + 1).drop_last() =~= kids.take(i as int));
                    assert(kids.take(i + 1).last() == child@);
                }
                let inner = child.as_tag();
                out.append(inner.as_str());
                i += 1;
                proof {
                    assert(out@ =~= head + forest_markup(kids.take(i as int)));
                }
            }
            proof {
                assert(kids.take(i as int) =~= kids);
            }
            out.append("</");
            out.append(self.name.as_str());
            out.append(">");
            proof {
                assert(out@ =~= markup(self@));
            }
        }
        out
    }
}

impl<'a> Default for Element<'a> {
    fn default() -> (e: Self)
        ensures
            e@ == placeholder(),
    {
        Self::new()
    }
}

/// A document: its type, where one was declared, and the elements at its
/// top.
#[derive(Debug, PartialEq, Eq)]
pub struct Document<'a> {
    pub document_type: Option<DocumentType<'a>>,
    pub children: Vec<Element<'a>>,
}

impl<'a> View for Document<'a> {
    type V = DocumentView;

    open spec fn view(&self) -> DocumentView {
        DocumentView {
            document_type: match self.document_type {
                Some(t) => Some(t@),
                None => None,
            },
            children: views(self.children@),
        }
    }
}

/// The document without a type and without elements.
pub open spec fn empty_document() -> DocumentView {
    DocumentView { document_type: None, children: Seq::empty() }
}

impl<'a> Document<'a> {
    /// The document without a type and without elements.
    pub fn new() -> (doc: Self)
        ensures
            doc@ == empty_document(),
    {
        let doc = Self { document_type: None, children: Vec::new() };
        proof {
            assert(doc@.children =~= Seq::empty());
        }
        doc
    }
}

impl<'a> Default for Document<'a> {
    fn default() -> (doc: Self)
        ensures
            doc@ == empty_document(),
    {
        Self::new()
    }
}

} // verus!
