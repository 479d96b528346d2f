//! From text to a document: the grammar gives the pairs of a text, and the
//! pairs are folded into a document by indentation.
//!
//! The first document type that a text declares is the type of the
//! document; a later one is matched and then counts for nothing. A comment
//! leaves a placeholder under the element before it, wherever the comment is
//! indented to.

use vstd::prelude::*;
use vstd::string::StrSliceExecFns;
use vstd::string::StringExecFns;
use crate::builder::{
    any_floor, close_step, comment_step, frame, level, nested, open_step, region, Open,
};
use crate::document::{
    attr_views, placeholder, view_of_element, views, Attr, AttrView, Document, DocumentView,
    Element, ElementView,
};
use crate::document_type::{resolved, DocumentType, DocumentTypeView};
use crate::grammar::{
    comment_at, dialect_rule, grammar, is_dialect, names_known, names_known_in_document, pair,
    scan, spans_within, tag_at, text_of, Class, Outcome, Pair, Rule,
};
use crate::nesting::{forest, quiet, Entry};
use crate::recognizer::{
    match_attribute, match_comment, match_doctype, match_doctype_value, match_document,
    match_link_attribute, match_tag, match_value, produced, spans_widen,
};
use crate::text::chars_of;

verus! {

/// Whether a pair stands for the tag of an element.
pub open spec fn is_tag(rule: Rule) -> bool {
    rule == Rule::html || rule == Rule::head || rule == Rule::body || rule == Rule::link || rule
        == Rule::element
}

/// Whether a pair stands for a comment.
pub open spec fn is_comment(rule: Rule) -> bool {
    rule == Rule::code_comment || rule == Rule::html_comment
}

/// Whether a pair belongs to the attributes of an element.
pub open spec fn is_attribute_part(rule: Rule) -> bool {
    rule == Rule::attribute || rule == Rule::link_attribute || rule == Rule::name || rule
        == Rule::value
}

/// Where the pairs of attributes that start at `from` end.
pub open spec fn attributes_end(pairs: Seq<Pair>, from: int) -> int
    decreases pairs.len() - from,
{
    if 0 <= from < pairs.len() && is_attribute_part(pairs[from].rule) {
        attributes_end(pairs, from + 1)
    } else {
        from
    }
}

/// The attributes end at or after their start, within the pairs.
pub proof fn attributes_end_bound(pairs: Seq<Pair>, from: int)
    requires
        0 <= from <= pairs.len(),
    ensures
        from <= attributes_end(pairs, from) <= pairs.len(),
    decreases pairs.len() - from,
{
    if from < pairs.len() && is_attribute_part(pairs[from].rule) {
        attributes_end_bound(pairs, from + 1);
    }
}

/// The attributes that the pairs from `from` up to `to` spell, in source
/// order: each name starts an attribute with an empty value, and a value is
/// that of the attribute before it. The pairs that group them count for
/// nothing, so the attributes of a link read as any others.
pub open spec fn attributes_of(text: Seq<char>, pairs: Seq<Pair>, from: int, to: int) -> Seq<
    AttrView,
>
    decreases to - from,
{
    if to <= from {
        Seq::empty()
    } else {
        let before = attributes_of(text, pairs, from, to - 1);
        let p = pairs[to - 1];
        if p.rule == Rule::name {
            before.push(AttrView { name: text_of(text, p), value: Seq::empty() })
        } else if p.rule == Rule::value && before.len() > 0 {
            before.update(
                before.len() - 1,
                AttrView { name: before.last().name, value: text_of(text, p) },
            )
        } else {
            before
        }
    }
}

/// The line of a comment.
pub open spec fn comment_entry() -> Entry {
    Entry { comment: true, depth: 0, name: Seq::empty(), attributes: Seq::empty() }
}

/// The lines that the pairs from `i` on stand for, up to the end of input,
/// when the indentation read last is `indent`. An element is indented by the
/// width of the indentation pair before it.
pub open spec fn entries_from(text: Seq<char>, pairs: Seq<Pair>, i: int, indent: int) -> Seq<Entry>
    decreases pairs.len() - i,
{
    if i < 0 || i >= pairs.len() {
        Seq::empty()
    } else {
        let p = pairs[i];
        if p.rule == Rule::EOI {
            Seq::empty()
        } else if p.rule == Rule::indent {
            entries_from(text, pairs, i + 1, p.end - p.start)
        } else if is_comment(p.rule) {
            seq![comment_entry()] + entries_from(text, pairs, i + 1, indent)
        } else if is_tag(p.rule) {
            let j = attributes_end(pairs, i + 1);
            proof {
                attributes_end_bound(pairs, i + 1);
            }
            seq![
                Entry {
                    comment: false,
                    depth: indent,
                    name: text_of(text, p),
                    attributes: attributes_of(text, pairs, i + 1, j),
                },
            ] + entries_from(text, pairs, j, 0)
        } else {
            entries_from(text, pairs, i + 1, indent)
        }
    }
}

/// The name of the dialect that a pair of a document type tells.
pub open spec fn dialect_name(rule: Rule) -> Seq<char> {
    if rule == Rule::html_doctype {
        "html"@
    } else if rule == Rule::xhtml_doctype {
        "xhtml"@
    } else {
        "xml"@
    }
}

/// The document type that the pairs from `i` on declare: that of the first
/// declaration before the end of input. Later ones count for nothing.
pub open spec fn declared_type(text: Seq<char>, pairs: Seq<Pair>, i: int) -> Option<
    DocumentTypeView,
>
    decreases pairs.len() - i,
{
    if i < 0 || i >= pairs.len() || pairs[i].rule == Rule::EOI {
        None
    } else if is_dialect(pairs[i].rule) {
        Some(resolved(dialect_name(pairs[i].rule), text_of(text, pairs[i])))
    } else {
        declared_type(text, pairs, i + 1)
    }
}

/// The document that the pairs of a text stand for.
pub open spec fn document_of(text: Seq<char>, pairs: Seq<Pair>) -> DocumentView {
    DocumentView {
        document_type: declared_type(text, pairs, 0),
        children: forest(entries_from(text, pairs, 0, 0)),
    }
}

/// The text that `p` spans. Where the whole text is ASCII, and `ascii` says
/// so, this takes no walk through the text.
fn slice<'a>(text: &'a str, ascii: bool, p: Pair) -> (s: &'a str)
    requires
        p.start <= p.end <= text@.len(),
        ascii ==> text.is_ascii(),
    ensures
        s@ == text_of(text@, p),
{
    if ascii {
        text.substring_ascii(p.start, p.end)
    } else {
        text.substring_char(p.start, p.end)
    }
}

fn attribute_part(rule: Rule) -> (yes: bool)
    ensures
        yes == is_attribute_part(rule),
{
    rule == Rule::attribute || rule == Rule::link_attribute || rule == Rule::name || rule
        == Rule::value
}

/// Reads the attributes of an element from the pairs that follow its tag at
/// `from`, and says where they end.
pub fn build_attributes<'a>(text: &'a str, pairs: &Vec<Pair>, from: usize) -> (r: (
    Vec<Attr<'a>>,
    usize,
))
    requires
        from <= pairs.len(),
        spans_within(pairs@, 0, text@.len() as int),
    ensures
        r.1 == attributes_end(pairs@, from as int),
        from <= r.1 <= pairs.len(),
        attr_views(r.0@) == attributes_of(text@, pairs@, from as int, r.1 as int),
{
    read_attributes(text, text.is_ascii(), pairs, from)
}

fn read_attributes<'a>(text: &'a str, ascii: bool, pairs: &Vec<Pair>, from: usize) -> (r: (
    Vec<Attr<'a>>,
    usize,
))
    requires
        from <= pairs.len(),
        spans_within(pairs@, 0, text@.len() as int),
        ascii ==> text.is_ascii(),
    ensures
        r.1 == attributes_end(pairs@, from as int),
        from <= r.1 <= pairs.len(),
        attr_views(r.0@) == attributes_of(text@, pairs@, from as int, r.1 as int),
{
    let mut attributes: Vec<Attr<'a>> = Vec::new();
    let mut j: usize = from;
    proof {
        assert(attr_views(attributes@) =~= attributes_of(text@, pairs@, from as int, j as int));
    }
    while j < pairs.len() && attribute_part(pairs[j].rule)
        invariant
            from <= j <= pairs.len(),
            spans_within(pairs@, 0, text@.len() as int),
            ascii ==> text.is_ascii(),
            attributes_end(pairs@, from as int) == attributes_end(pairs@, j as int),
            attr_views(attributes@) == attributes_of(text@, pairs@, from as int, j as int),
        decreases pairs.len() - j,
    {
        let p = pairs[j];
        let ghost before = attr_views(attributes@);
        if p.rule == Rule::name {
            let name = slice(text, ascii, p);
            attributes.push(Attr { name, value: "" });
            proof {
                reveal_strlit("");
                assert(""@ =~= Seq::<char>::empty());
                assert(attr_views(attributes@) =~= before.push(
                    AttrView { name: text_of(text@, p), value: Seq::empty() },
                ));
            }
        } else if p.rule == Rule::value && attributes.len() > 0 {
            let value = slice(text, ascii, p);
            let last = attributes.pop().unwrap();
            attributes.push(Attr { name: last.name, value });
            proof {
                assert(attr_views(attributes@) =~= before.update(
                    before.len() - 1,
                    AttrView { name: before.last().name, value: text_of(text@, p) },
                ));
            }
        }
        j += 1;
    }
    (attributes, j)
}

fn tag(rule: Rule) -> (yes: bool)
    ensures
        yes == is_tag(rule),
{
    rule == Rule::html || rule == Rule::head || rule == Rule::body || rule == Rule::link || rule
        == Rule::element
}

/// Closes the open elements that are indented by `depth` or more: each
/// becomes the last child of the one before it.
fn close_to<'a>(
    stack: &mut Vec<Open<'a>>,
    depth: usize,
    Ghost(done): Ghost<Seq<Entry>>,
    Ghost(at): Ghost<Seq<int>>,
) -> (left: Ghost<Seq<int>>)
    requires
        nested(done, at, old(stack)@, depth as int),
    ensures
        nested(done, left@, final(stack)@, depth as int),
        level(final(stack)@, final(stack)@.len() - 1) < depth,
{
    let ghost mut at = at;
    while stack.len() > 1 && stack[stack.len() - 1].depth >= depth
        invariant
            nested(done, at, stack@, depth as int),
        decreases stack.len(),
    {
        let ghost before = stack@;
        let top = stack.pop().unwrap();
        let mut parent = stack.pop().unwrap();
        let ghost old_parent = parent;
        parent.element.children.push(top.element);
        proof {
            view_of_element(old_parent.element);
            view_of_element(parent.element);
            assert(views(parent.element.children@) =~= views(old_parent.element.children@).push(
                top.element@,
            ));
        }
        stack.push(parent);
        proof {
            close_step(done, at, before, stack@, depth as int);
            at = at.drop_last();
        }
    }
    Ghost(at)
}

/// Folds the pairs of a text into the forest of its elements: an element
/// becomes a child of the nearest element before it that is indented less,
/// a comment a placeholder child of the element before it.
pub fn build_element<'a>(text: &'a str, pairs: &Vec<Pair>) -> (elements: Vec<Element<'a>>)
    requires
        spans_within(pairs@, 0, text@.len() as int),
    ensures
        views(elements@) == forest(entries_from(text@, pairs@, 0, 0)),
{
    nest(text, text.is_ascii(), pairs)
}

/// The walk of `build_element`: one pass over the pairs, with the elements
/// that are still open on a stack, the deepest last.
fn nest<'a>(text: &'a str, ascii: bool, pairs: &Vec<Pair>) -> (elements: Vec<Element<'a>>)
    requires
        spans_within(pairs@, 0, text@.len() as int),
        ascii ==> text.is_ascii(),
    ensures
        views(elements@) == forest(entries_from(text@, pairs@, 0, 0)),
{
    let ghost all = entries_from(text@, pairs@, 0, 0);
    let ghost mut done: Seq<Entry> = Seq::empty();
    let ghost mut at: Seq<int> = seq![-1int];
    let mut stack: Vec<Open<'a>> = Vec::new();
    stack.push(Open { depth: 0, element: Element::new() });
    let mut indent: usize = 0;
    let mut i: usize = 0;
    proof {
        assert(region(done, at, 0) =~= Seq::<Entry>::empty());
        assert(forest(region(done, at, 0)) =~= Seq::<ElementView>::empty());
        assert(all =~= done + all);
    }
    while i < pairs.len()
        invariant
            i <= pairs.len(),
            spans_within(pairs@, 0, text@.len() as int),
            ascii ==> text.is_ascii(),
            all == done + entries_from(text@, pairs@, i as int, indent as int),
            nested(done, at, stack@, 0),
            quiet(region(done, at, at.len() - 1)),
        decreases pairs.len() - i,
    {
        let p = pairs[i];
        if p.rule == Rule::EOI {
            i = pairs.len();
        } else if p.rule == Rule::indent {
            indent = p.end - p.start;
            i += 1;
        } else if p.rule == Rule::code_comment || p.rule == Rule::html_comment {
            let ghost before = stack@;
            let mut top = stack.pop().unwrap();
            let ghost old_top = top;
            top.element.children.push(Element::new());
            proof {
                view_of_element(old_top.element);
                view_of_element(top.element);
                assert(views(top.element.children@) =~= views(old_top.element.children@).push(
                    placeholder(),
                ));
            }
            stack.push(top);
            proof {
                comment_step(done, at, before, stack@, comment_entry(), 0);
                let rest = entries_from(text@, pairs@, i + 1, indent as int);
                assert(done + (seq![comment_entry()] + rest) =~= done.push(comment_entry()) + rest);
                done = done.push(comment_entry());
            }
            i += 1;
        } else if tag(p.rule) {
            let (attributes, j) = read_attributes(text, ascii, pairs, i + 1);
            let name = String::from_str(slice(text, ascii, p));
            let element = Element { name, attributes, children: Vec::new() };
            let ghost y = Entry {
                comment: false,
                depth: indent as int,
                name: text_of(text@, p),
                attributes: attributes_of(text@, pairs@, i + 1, j as int),
            };
            proof {
                view_of_element(element);
                assert(element@.children =~= Seq::<ElementView>::empty());
                any_floor(done, at, stack@, 0, indent as int);
            }
            let left = close_to(&mut stack, indent, Ghost(done), Ghost(at));
            let ghost shut = stack@;
            let open = Open { depth: indent, element };
            stack.push(open);
            proof {
                open_step(done, left@, shut, open, y, 0);
                let rest = entries_from(text@, pairs@, j as int, 0);
                assert(done + (seq![y] + rest) =~= done.push(y) + rest);
                at = left@.push(done.len() as int);
                done = done.push(y);
            }
            indent = 0;
            i = j;
        } else {
            i += 1;
        }
    }
    proof {
        assert(all =~= done);
        any_floor(done, at, stack@, 0, 0);
    }
    let left = close_to(&mut stack, 0, Ghost(done), Ghost(at));
    let ghost closed = stack@;
    let root = stack.pop().unwrap();
    proof {
        assert(closed.len() == 1);
        assert(frame(done, left@, closed, 0, 0));
        assert(region(done, left@, 0) =~= done);
        view_of_element(root.element);
    }
    root.element.children
}

fn dialect(rule: Rule) -> (yes: bool)
    ensures
        yes == is_dialect(rule),
{
    rule == Rule::xml_doctype || rule == Rule::xhtml_doctype || rule == Rule::html_doctype
}

fn name_of_dialect(rule: Rule) -> (name: &'static str)
    ensures
        name@ == dialect_name(rule),
{
    if rule == Rule::html_doctype {
        "html"
    } else if rule == Rule::xhtml_doctype {
        "xhtml"
    } else {
        "xml"
    }
}

/// Folds the pairs of a text into a document: its type is that of the first
/// declaration, its children are the forest of its lines.
pub fn build<'a>(text: &'a str, pairs: &Vec<Pair>) -> (doc: Document<'a>)
    requires
        spans_within(pairs@, 0, text@.len() as int),
    ensures
        doc@ == document_of(text@, pairs@),
{
    let ascii = text.is_ascii();
    let mut found: Option<DocumentType<'a>> = None;
    let mut i: usize = 0;
    while i < pairs.len() && found.is_none()
        invariant
            i <= pairs.len(),
            spans_within(pairs@, 0, text@.len() as int),
            ascii ==> text.is_ascii(),
            match found {
                Some(t) => declared_type(text@, pairs@, 0) == Some(t@),
                None => declared_type(text@, pairs@, 0) == declared_type(text@, pairs@, i as int),
            },
        decreases pairs.len() - i + if found is None { 1int } else { 0int },
    {
        let p = pairs[i];
        if p.rule == Rule::EOI {
            i = pairs.len();
        } else if dialect(p.rule) {
            found = Some(DocumentType::new(name_of_dialect(p.rule), slice(text, ascii, p)));
        } else {
            i += 1;
        }
    }
    let children = nest(text, ascii, pairs);
    Document { document_type: found, children }
}

/// Where a text stopped matching the grammar: the place counted in
/// characters from the start of the text, and the same place as a line and
/// a column, both counted from zero.
#[derive(Clone, Copy, Debug, PartialEq, Eq)]
pub struct ParseError {
    pub position: usize,
    pub line: usize,
    pub column: usize,
}

/// The number of line breaks before `at`.
pub open spec fn line_number(s: Seq<char>, at: int) -> int
    decreases at,
{
    if at <= 0 {
        0
    } else if s[at - 1] == '\n' {
        line_number(s, at - 1) + 1
    } else {
        line_number(s, at - 1)
    }
}

/// Where the line that holds `at` starts.
pub open spec fn line_start(s: Seq<char>, at: int) -> int
    decreases at,
{
    if at <= 0 {
        0
    } else if s[at - 1] == '\n' {
        at
    } else {
        line_start(s, at - 1)
    }
}

/// The error that says that the text `s` stopped matching at `at`.
pub open spec fn located(s: Seq<char>, at: int) -> ParseError {
    ParseError {
        position: at as usize,
        line: line_number(s, at) as usize,
        column: (at - line_start(s, at)) as usize,
    }
}

fn locate(chars: &Vec<char>, at: usize) -> (e: ParseError)
    requires
        at <= chars.len(),
    ensures
        e == located(chars@, at as int),
{
    let mut line: usize = 0;
    let mut start: usize = 0;
    let mut k: usize = 0;
    while k < at
        invariant
            k <= at <= chars.len(),
            line == line_number(chars@, k as int),
            start == line_start(chars@, k as int),
            line <= k,
            start <= k,
        decreases at - k,
    {
        if chars[k] == '\n' {
            line += 1;
            start = k + 1;
        }
        k += 1;
    }
    ParseError { position: at, line, column: at - start }
}

/// What `parse` owes for the outcome `o` of the grammar on the text `s`: the
/// pairs, where it accepts; the place, where it rejects.
pub open spec fn parsed(s: Seq<char>, o: Outcome, result: Result<Vec<Pair>, ParseError>) -> bool {
    match result {
        Ok(pairs) => {
            &&& o is Accept
            &&& pairs@ == o->pairs
            &&& spans_within(pairs@, 0, s.len() as int)
        },
        Err(e) => {
            &&& o is Reject
            &&& e == located(s, o->at)
        },
    }
}

/// The parser of the markup shorthand.
pub struct LitheParser;

impl LitheParser {
    fn first_is(rule: Rule, r: Result<usize, usize>, out: &Vec<Pair>) -> (checked: Result<
        usize,
        usize,
    >)
        ensures
            checked == match r {
                Ok(next) => if out@.len() > 0 && out@[0].rule == rule {
                    r
                } else {
                    Err(0usize)
                },
                Err(at) => r,
            },
    {
        match r {
            Ok(next) => if out.len() > 0 && out[0].rule == rule {
                r
            } else {
                Err(0)
            },
            Err(at) => r,
        }
    }

    fn run(rule: Rule, chars: &Vec<char>, out: &mut Vec<Pair>) -> (r: Result<usize, usize>)
        requires
            old(out)@.len() == 0,
        ensures
            produced(old(out)@, final(out)@, r, grammar(rule, chars@), 0, chars.len() as int),
    {
        match rule {
            Rule::document => match_document(chars, out),
            Rule::doctype => match_doctype(chars, 0, out),
            Rule::doctype_value => match_doctype_value(chars, 0, out),
            Rule::xml_doctype | Rule::xhtml_doctype | Rule::html_doctype => {
                match match_doctype_value(chars, 0, out) {
                    Ok(next) => {
                        let ghost both = out@;
                        out.remove(0);
                        proof {
                            assert(out@ =~= both.drop_first());
                            assert(out@ =~= old(out)@ + both.drop_first());
                        }
                        Self::first_is(rule, Ok(next), out)
                    },
                    Err(at) => Err(at),
                }
            },
            Rule::code_comment | Rule::html_comment => {
                let r = match_comment(chars, 0, out);
                proof {
                    if r is Ok {
                        assert(out@ =~= comment_at(chars@, 0)->pairs);
                    }
                }
                Self::first_is(rule, r, out)
            },
            Rule::indent => {
                let a = scan(chars, 0, Class::Blank);
                out.push(Pair { rule: Rule::indent, start: 0, end: a });
                proof {
                    assert(out@ =~= old(out)@ + seq![pair(Rule::indent, 0, a as int)]);
                }
                Ok(a)
            },
            Rule::html | Rule::head | Rule::body | Rule::link | Rule::element => {
                let r = match_tag(chars, 0, out);
                proof {
                    if r is Ok {
                        assert(out@ =~= tag_at(chars@, 0)->pairs);
                    }
                }
                Self::first_is(rule, r, out)
            },
            Rule::attribute => match_attribute(chars, 0, out),
            Rule::link_attribute => match_link_attribute(chars, 0, out),
            Rule::name => {
                let n = scan(chars, 0, Class::Word);
                if n > 0 {
                    out.push(Pair { rule: Rule::name, start: 0, end: n });
                    proof {
                        assert(out@ =~= old(out)@ + seq![pair(Rule::name, 0, n as int)]);
                    }
                    Ok(n)
                } else {
                    Err(0)
                }
            },
            Rule::value => match_value(chars, 0, out),
            Rule::EOI => {
                if chars.len() == 0 {
                    out.push(Pair { rule: Rule::EOI, start: 0, end: 0 });
                    proof {
                        assert(out@ =~= old(out)@ + seq![pair(Rule::EOI, 0, 0)]);
                    }
                    Ok(0)
                } else {
                    Err(0)
                }
            },
        }
    }

    /// Matches the production `rule` at the start of `input`: its pairs in
    /// source order, or the place where the text stops matching.
    pub fn parse(rule: Rule, input: &str) -> (result: Result<Vec<Pair>, ParseError>)
        ensures
            parsed(input@, grammar(rule, input@), result),
    {
        let chars = chars_of(input);
        let mut out: Vec<Pair> = Vec::new();
        match Self::run(rule, &chars, &mut out) {
            Ok(next) => {
                proof {
                    let o = grammar(rule, input@);
                    assert(out@ =~= o->pairs);
                    spans_widen(o->pairs, 0, next as int, 0, chars.len() as int);
                }
                Ok(out)
            },
            Err(at) => Err(locate(&chars, at)),
        }
    }
}

/// Reads a text into a document. Fails where the text does not match the
/// grammar, and then gives no document at all.
pub fn parse(s: &str) -> (result: Result<Document, ParseError>)
    ensures
        match result {
            Ok(doc) => {
                &&& grammar(Rule::document, s@) is Accept
                &&& doc@ == document_of(s@, grammar(Rule::document, s@)->pairs)
            },
            Err(e) => {
                &&& grammar(Rule::document, s@) is Reject
                &&& e == located(s@, grammar(Rule::document, s@)->at)
            },
        },
{
    match LitheParser::parse(Rule::document, s) {
        Ok(pairs) => Ok(build(s, &pairs)),
        Err(e) => Err(e),
    }
}

/// Whether a document type holds a name that its dialect has, with the
/// identifiers that the name resolves to.
pub open spec fn known_type(t: DocumentTypeView) -> bool {
    match dialect_rule(t.name) {
        Some(rule) => t == resolved(dialect_name(rule), t.name),
        None => false,
    }
}

proof fn declared_type_is_known(s: Seq<char>, pairs: Seq<Pair>, i: int)
    requires
        names_known(s, pairs),
    ensures
        match declared_type(s, pairs, i) {
            Some(t) => known_type(t),
            None => true,
        },
    decreases pairs.len() - i,
{
    if !(i < 0 || i >= pairs.len() || pairs[i].rule == Rule::EOI) {
        if is_dialect(pairs[i].rule) {
            assert(dialect_rule(text_of(s, pairs[i])) == Some(pairs[i].rule));
        } else {
            declared_type_is_known(s, pairs, i + 1);
        }
    }
}

/// A text with a document type of an unknown name is never accepted with
/// empty identifiers in its place: where a text is accepted and its document
/// has a type, the name is one that the dialect has.
pub proof fn accepted_types_are_known(s: Seq<char>)
    requires
        s.len() <= usize::MAX,
        grammar(Rule::document, s) is Accept,
    ensures
        match document_of(s, grammar(Rule::document, s)->pairs).document_type {
            Some(t) => known_type(t),
            None => true,
        },
{
    names_known_in_document(s, 0);
    declared_type_is_known(s, grammar(Rule::document, s)->pairs, 0);
}

} // verus!
