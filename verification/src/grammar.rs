//! The grammar of the markup shorthand, as functions on characters.
//!
//! A text is a sequence of lines. A line is blank, a comment (`/` or `/!` up
//! to the end of the line), a document type (`doctype` and a known name), or
//! an element: indentation, a tag name and attributes. Each production says
//! where it ends and which pairs it gives, or where it fails.
//!
//! What the grammar settles:
//! - Any word that starts with a letter is a tag name. `html`, `head`, `body`
//!   and `link` have productions of their own; every other name is matched
//!   as `element`, with the attributes that any element takes.
//! - A `link` takes `name=value` only, any other element also a name alone.
//! - A line whose first word is `doctype` is a document type and nothing
//!   else; a name that no dialect knows fails the text.
//! - The name of a document type may stand on a later line than `doctype`;
//!   the one word that may follow the name stands on the line of the name.
//! - Places are counted in characters, not in bytes.

use vstd::prelude::*;
use crate::text::chars_of;

verus! {

/// The productions that a pair can stand for.
#[allow(non_camel_case_types)]
#[derive(Clone, Copy, Debug, PartialEq, Eq, Structural)]
pub enum Rule {
    document,
    doctype,
    doctype_value,
    xml_doctype,
    xhtml_doctype,
    html_doctype,
    code_comment,
    html_comment,
    indent,
    html,
    head,
    body,
    link,
    element,
    attribute,
    link_attribute,
    name,
    value,
    EOI,
}

/// A stretch of the text that a production matched: the characters from
/// `start` up to, not including, `end`.
#[derive(Clone, Copy, Debug, PartialEq, Eq, Structural)]
pub struct Pair {
    pub rule: Rule,
    pub start: usize,
    pub end: usize,
}

/// The classes of characters that the grammar tells apart.
#[derive(Clone, Copy, Debug, PartialEq, Eq, Structural)]
pub enum Class {
    /// Space, tab or carriage return.
    Blank,
    /// A blank or a line feed.
    Space,
    /// A letter, a digit, or one of `-`, `_`, `:`, `.`.
    Word,
    /// What may stand in a value without quotes.
    Bare,
    /// What may stand between double quotes.
    Quoted,
    /// Anything up to the end of the line.
    Text,
    /// Anything but a space.
    Visible,
}

/// A space within a line.
pub open spec fn is_blank(c: char) -> bool {
    c == ' ' || c == '\t' || c == '\r'
}

/// A space within a line, or the end of one.
pub open spec fn is_space(c: char) -> bool {
    is_blank(c) || c == '\n'
}

/// A letter of the Latin alphabet.
pub open spec fn is_letter(c: char) -> bool {
    'a' <= c <= 'z' || 'A' <= c <= 'Z'
}

/// What names are made of.
pub open spec fn is_word_char(c: char) -> bool {
    ||| 'a' <= c <= 'z'
    ||| 'A' <= c <= 'Z'
    ||| '0' <= c <= '9'
    ||| c == '-'
    ||| c == '_'
    ||| c == ':'
    ||| c == '.'
}

/// Whether `c` is of `class`.
pub open spec fn in_class(class: Class, c: char) -> bool {
    match class {
        Class::Blank => is_blank(c),
        Class::Space => is_space(c),
        Class::Word => is_word_char(c),
        Class::Bare => !is_space(c) && c != '"' && c != '\'' && c != '=' && c != '<' && c != '>'
            && c != '`',
        Class::Quoted => c != '"' && c != '\n',
        Class::Text => c != '\n',
        Class::Visible => !is_space(c),
    }
}

/// Where the longest run of characters of `class` that starts at `i` ends.
pub open spec fn run_end(s: Seq<char>, i: int, class: Class) -> int
    decreases s.len() - i,
{
    if 0 <= i < s.len() && in_class(class, s[i]) {
        run_end(s, i + 1, class)
    } else {
        i
    }
}

/// A run ends at or after its start, within the text, on a character that is
/// not of its class; everything before that is.
pub proof fn run_end_is_maximal(s: Seq<char>, i: int, class: Class)
    requires
        0 <= i <= s.len(),
    ensures
        i <= run_end(s, i, class) <= s.len(),
        forall|k: int| i <= k < run_end(s, i, class) ==> in_class(class, #[trigger] s[k]),
        run_end(s, i, class) < s.len() ==> !in_class(class, s[run_end(s, i, class)]),
    decreases s.len() - i,
{
    if i < s.len() && in_class(class, s[i]) {
        run_end_is_maximal(s, i + 1, class);
    }
}

fn belongs(class: Class, c: char) -> (yes: bool)
    ensures
        yes == in_class(class, c),
{
    let blank = c == ' ' || c == '\t' || c == '\r';
    let space = blank || c == '\n';
    match class {
        Class::Blank => blank,
        Class::Space => space,
        Class::Word => ('a' <= c && c <= 'z') || ('A' <= c && c <= 'Z') || ('0' <= c && c <= '9')
            || c == '-' || c == '_' || c == ':' || c == '.',
        Class::Bare => !space && c != '"' && c != '\'' && c != '=' && c != '<' && c != '>' && c
            != '`',
        Class::Quoted => c != '"' && c != '\n',
        Class::Text => c != '\n',
        Class::Visible => !space,
    }
}

/// Skips the characters of `class` from `i` on.
pub fn scan(chars: &Vec<char>, i: usize, class: Class) -> (j: usize)
    requires
        i <= chars.len(),
    ensures
        j == run_end(chars@, i as int, class),
        i <= j <= chars.len(),
{
    let mut j: usize = i;
    while j < chars.len() && belongs(class, chars[j])
        invariant
            i <= j <= chars.len(),
            run_end(chars@, i as int, class) == run_end(chars@, j as int, class),
        decreases chars.len() - j,
    {
        j += 1;
    }
    j
}

/// Whether the characters from `a` up to `b` spell `word`.
pub fn spells(chars: &Vec<char>, a: usize, b: usize, word: &str) -> (yes: bool)
    requires
        a <= b <= chars.len(),
    ensures
        yes == (chars@.subrange(a as int, b as int) == word@),
{
    let w = chars_of(word);
    if w.len() != b - a {
        return false;
    }
    let mut k: usize = 0;
    while k < w.len()
        invariant
            a <= b <= chars.len(),
            w.len() == b - a,
            w@ == word@,
            k <= w.len(),
            forall|m: int| 0 <= m < k ==> chars@[a + m] == w@[m],
        decreases w.len() - k,
    {
        if chars[a + k] != w[k] {
            assert(chars@.subrange(a as int, b as int)[k as int] != word@[k as int]);
            return false;
        }
        k += 1;
    }
    proof {
        assert(chars@.subrange(a as int, b as int) =~= word@);
    }
    true
}

/// What a production does at a place in the text: it accepts, gives its
/// pairs in source order and says where it ends, or it rejects, and says
/// where.
pub ghost enum Outcome {
    Accept { pairs: Seq<Pair>, next: int },
    Reject { at: int },
}

/// The outcome `rest`, with `first` put before its pairs.
pub open spec fn after(first: Seq<Pair>, rest: Outcome) -> Outcome {
    match rest {
        Outcome::Accept { pairs, next } => Outcome::Accept { pairs: first + pairs, next },
        Outcome::Reject { at } => rest,
    }
}

/// The pair of `rule` over the characters from `start` up to `end`.
pub open spec fn pair(rule: Rule, start: int, end: int) -> Pair {
    Pair { rule, start: start as usize, end: end as usize }
}

/// Whether every pair lies between `lo` and `hi`.
pub open spec fn spans_within(pairs: Seq<Pair>, lo: int, hi: int) -> bool {
    forall|k: int|
        0 <= k < pairs.len() ==> lo <= (#[trigger] pairs[k]).start <= pairs[k].end <= hi
}

/// The production that a tag name selects: the four known tags have one of
/// their own, any other name is an element without further rules.
pub open spec fn tag_rule(name: Seq<char>) -> Rule {
    if name == "html"@ {
        Rule::html
    } else if name == "head"@ {
        Rule::head
    } else if name == "body"@ {
        Rule::body
    } else if name == "link"@ {
        Rule::link
    } else {
        Rule::element
    }
}

/// The dialect that a document type name is read in. A name that both
/// dialects have is read as HTML; `1.1`, `mobile` and `basic` exist in XHTML
/// only. Any other name is no document type.
pub open spec fn dialect_rule(name: Seq<char>) -> Option<Rule> {
    if name == "xml"@ {
        Some(Rule::xml_doctype)
    } else if name == "html"@ || name == "5"@ || name == "strict"@ || name == "frameset"@ || name
        == "transitional"@ {
        Some(Rule::html_doctype)
    } else if name == "1.1"@ || name == "mobile"@ || name == "basic"@ {
        Some(Rule::xhtml_doctype)
    } else {
        None
    }
}

/// A value: text between double quotes on one line, or a run of characters
/// that need no quotes. The pair spans the value without its quotes.
pub open spec fn value_at(s: Seq<char>, i: int) -> Outcome {
    if 0 <= i < s.len() && s[i] == '"' {
        let q = run_end(s, i + 1, Class::Quoted);
        if q < s.len() && s[q] == '"' {
            Outcome::Accept { pairs: seq![pair(Rule::value, i + 1, q)], next: q + 1 }
        } else {
            Outcome::Reject { at: q }
        }
    } else {
        let q = run_end(s, i, Class::Bare);
        if q == i {
            Outcome::Reject { at: i }
        } else {
            Outcome::Accept { pairs: seq![pair(Rule::value, i, q)], next: q }
        }
    }
}

/// An attribute: a name, and optionally `=` and a value.
pub open spec fn attribute_at(s: Seq<char>, i: int) -> Outcome {
    let n = run_end(s, i, Class::Word);
    if n == i {
        Outcome::Reject { at: i }
    } else if 0 <= n < s.len() && s[n] == '=' {
        match value_at(s, n + 1) {
            Outcome::Accept { pairs, next } => Outcome::Accept {
                pairs: seq![pair(Rule::attribute, i, next), pair(Rule::name, i, n)] + pairs,
                next,
            },
            Outcome::Reject { at } => Outcome::Reject { at },
        }
    } else {
        Outcome::Accept {
            pairs: seq![pair(Rule::attribute, i, n), pair(Rule::name, i, n)],
            next: n,
        }
    }
}

/// One `name=value` of a link: here the value is not optional.
pub open spec fn link_pair_at(s: Seq<char>, i: int) -> Outcome {
    let n = run_end(s, i, Class::Word);
    if n == i {
        Outcome::Reject { at: i }
    } else if 0 <= n < s.len() && s[n] == '=' {
        after(seq![pair(Rule::name, i, n)], value_at(s, n + 1))
    } else {
        Outcome::Reject { at: n }
    }
}

/// Whether the line has nothing more at `c` than its end.
pub open spec fn at_line_end(s: Seq<char>, c: int) -> bool {
    c >= s.len() || s[c] == '\n'
}

/// The attributes that follow `p`, each after at least one blank, up to the
/// end of the line. Ends where the last attribute ends.
pub open spec fn attributes_from(s: Seq<char>, p: int) -> Outcome
    decreases s.len() - p,
{
    let c = run_end(s, p, Class::Blank);
    if p < 0 || at_line_end(s, c) {
        Outcome::Accept { pairs: Seq::empty(), next: p }
    } else if c == p {
        Outcome::Reject { at: p }
    } else {
        match attribute_at(s, c) {
            Outcome::Accept { pairs, next } => if p < next <= s.len() {
                after(pairs, attributes_from(s, next))
            } else {
                Outcome::Reject { at: c }
            },
            Outcome::Reject { at } => Outcome::Reject { at },
        }
    }
}

/// The `name=value` pairs of a link that follow `p`, as `attributes_from`.
pub open spec fn link_pairs_from(s: Seq<char>, p: int) -> Outcome
    decreases s.len() - p,
{
    let c = run_end(s, p, Class::Blank);
    if p < 0 || at_line_end(s, c) {
        Outcome::Accept { pairs: Seq::empty(), next: p }
    } else if c == p {
        Outcome::Reject { at: p }
    } else {
        match link_pair_at(s, c) {
            Outcome::Accept { pairs, next } => if p < next <= s.len() {
                after(pairs, link_pairs_from(s, next))
            } else {
                Outcome::Reject { at: c }
            },
            Outcome::Reject { at } => Outcome::Reject { at },
        }
    }
}

/// The attributes of a link: one or more `name=value`, under one pair that
/// spans them all.
pub open spec fn link_attribute_at(s: Seq<char>, i: int) -> Outcome {
    match link_pair_at(s, i) {
        Outcome::Accept { pairs, next } => match link_pairs_from(s, next) {
            Outcome::Accept { pairs: more, next: end } => Outcome::Accept {
                pairs: seq![pair(Rule::link_attribute, i, end)] + pairs + more,
                next: end,
            },
            Outcome::Reject { at } => Outcome::Reject { at },
        },
        Outcome::Reject { at } => Outcome::Reject { at },
    }
}

/// What may follow the tag name of a link at `w`: nothing, or blanks and its
/// attributes.
pub open spec fn link_tail_at(s: Seq<char>, w: int) -> Outcome {
    let c = run_end(s, w, Class::Blank);
    if at_line_end(s, c) {
        Outcome::Accept { pairs: Seq::empty(), next: w }
    } else if c == w {
        Outcome::Reject { at: w }
    } else {
        link_attribute_at(s, c)
    }
}

/// An element without its indentation: the tag name, which is a word that
/// starts with a letter, then its attributes. The pair of the tag spans the
/// name.
pub open spec fn tag_at(s: Seq<char>, a: int) -> Outcome {
    let w = run_end(s, a, Class::Word);
    if w == a || !is_letter(s[a]) {
        Outcome::Reject { at: a }
    } else {
        let rule = tag_rule(s.subrange(a, w));
        let tail = if rule == Rule::link {
            link_tail_at(s, w)
        } else {
            attributes_from(s, w)
        };
        after(seq![pair(rule, a, w)], tail)
    }
}

/// The production of the comment that starts at `a`.
pub open spec fn comment_rule(s: Seq<char>, a: int) -> Rule {
    if a + 1 < s.len() && s[a + 1] == '!' {
        Rule::html_comment
    } else {
        Rule::code_comment
    }
}

/// A comment: `/`, or `/!`, and the rest of the line.
pub open spec fn comment_at(s: Seq<char>, a: int) -> Outcome {
    if 0 <= a < s.len() && s[a] == '/' {
        let e = run_end(s, a + 1, Class::Text);
        Outcome::Accept { pairs: seq![pair(comment_rule(s, a), a, e)], next: e }
    } else {
        Outcome::Reject { at: a }
    }
}

/// The name of a document type: a word that one of the dialects knows. It
/// gives two pairs over the name, the second of which tells the dialect.
pub open spec fn doctype_value_at(s: Seq<char>, b: int) -> Outcome {
    let v = run_end(s, b, Class::Word);
    match dialect_rule(s.subrange(b, v)) {
        Some(rule) => Outcome::Accept {
            pairs: seq![pair(Rule::doctype_value, b, v), pair(rule, b, v)],
            next: v,
        },
        None => Outcome::Reject { at: b },
    }
}

/// A document type: the word `doctype`, spaces or line breaks, a name, and
/// optionally one more word on the same line, which is accepted and dropped.
pub open spec fn doctype_at(s: Seq<char>, a: int) -> Outcome {
    let w = run_end(s, a, Class::Word);
    let b = run_end(s, w, Class::Space);
    if !(s.subrange(a, w) == "doctype"@) {
        Outcome::Reject { at: a }
    } else if b == w {
        Outcome::Reject { at: w }
    } else {
        match doctype_value_at(s, b) {
            Outcome::Accept { pairs, next } => {
                let c = run_end(s, next, Class::Blank);
                let x = if c > next {
                    run_end(s, c, Class::Visible)
                } else {
                    next
                };
                Outcome::Accept { pairs: seq![pair(Rule::doctype, a, x)] + pairs, next: x }
            },
            Outcome::Reject { at } => Outcome::Reject { at },
        }
    }
}

/// The end of a line after `e`: blanks, and a line feed or the end of the
/// text. Ends where the next line starts.
pub open spec fn line_end_at(s: Seq<char>, e: int) -> Outcome {
    let c = run_end(s, e, Class::Blank);
    if c >= s.len() {
        Outcome::Accept { pairs: Seq::empty(), next: c }
    } else if s[c] == '\n' {
        Outcome::Accept { pairs: Seq::empty(), next: c + 1 }
    } else {
        Outcome::Reject { at: c }
    }
}

/// The outcome `o`, if the line ends after it.
pub open spec fn to_line_end(s: Seq<char>, o: Outcome) -> Outcome {
    match o {
        Outcome::Accept { pairs, next } => match line_end_at(s, next) {
            Outcome::Accept { pairs: none, next: start } => Outcome::Accept { pairs, next: start },
            Outcome::Reject { at } => Outcome::Reject { at },
        },
        Outcome::Reject { at } => o,
    }
}

/// One line, from its first character `i` to the start of the next line. A
/// blank line gives no pair. Any other line gives a pair for its indentation
/// and then the pairs of what it holds: a comment where it starts with `/`, a
/// document type where its first word is `doctype`, else an element.
pub open spec fn line_at(s: Seq<char>, i: int) -> Outcome {
    let a = run_end(s, i, Class::Blank);
    let w = run_end(s, a, Class::Word);
    if a >= s.len() || a < 0 {
        Outcome::Accept { pairs: Seq::empty(), next: a }
    } else if s[a] == '\n' {
        Outcome::Accept { pairs: Seq::empty(), next: a + 1 }
    } else {
        let held = if s[a] == '/' {
            comment_at(s, a)
        } else if s.subrange(a, w) == "doctype"@ {
            doctype_at(s, a)
        } else {
            tag_at(s, a)
        };
        to_line_end(s, after(seq![pair(Rule::indent, i, a)], held))
    }
}

/// A whole text from line start `i` on: its lines, then the end of input.
pub open spec fn document_from(s: Seq<char>, i: int) -> Outcome
    decreases s.len() - i,
{
    if i >= s.len() || i < 0 {
        Outcome::Accept {
            pairs: seq![pair(Rule::EOI, s.len() as int, s.len() as int)],
            next: s.len() as int,
        }
    } else {
        match line_at(s, i) {
            Outcome::Accept { pairs, next } => if i < next <= s.len() {
                after(pairs, document_from(s, next))
            } else {
                Outcome::Reject { at: i }
            },
            Outcome::Reject { at } => Outcome::Reject { at },
        }
    }
}

/// The outcome `o`, if its first pair stands for `rule`.
pub open spec fn only(rule: Rule, o: Outcome) -> Outcome {
    match o {
        Outcome::Accept { pairs, next } => if pairs.len() > 0 && pairs[0].rule == rule {
            o
        } else {
            Outcome::Reject { at: 0 }
        },
        Outcome::Reject { at } => o,
    }
}

/// What the production `rule` does at the start of the text `s`.
pub open spec fn grammar(rule: Rule, s: Seq<char>) -> Outcome {
    match rule {
        Rule::document => document_from(s, 0),
        Rule::doctype => doctype_at(s, 0),
        Rule::doctype_value => doctype_value_at(s, 0),
        Rule::xml_doctype | Rule::xhtml_doctype | Rule::html_doctype => match doctype_value_at(
            s,
            0,
        ) {
            Outcome::Accept { pairs, next } => only(
                rule,
                Outcome::Accept { pairs: pairs.drop_first(), next },
            ),
            Outcome::Reject { at } => Outcome::Reject { at },
        },
        Rule::code_comment | Rule::html_comment => only(rule, comment_at(s, 0)),
        Rule::indent => Outcome::Accept {
            pairs: seq![pair(Rule::indent, 0, run_end(s, 0, Class::Blank))],
            next: run_end(s, 0, Class::Blank),
        },
        Rule::html | Rule::head | Rule::body | Rule::link | Rule::element => only(
            rule,
            tag_at(s, 0),
        ),
        Rule::attribute => attribute_at(s, 0),
        Rule::link_attribute => link_attribute_at(s, 0),
        Rule::name => if run_end(s, 0, Class::Word) > 0 {
            Outcome::Accept {
                pairs: seq![pair(Rule::name, 0, run_end(s, 0, Class::Word))],
                next: run_end(s, 0, Class::Word),
            }
        } else {
            Outcome::Reject { at: 0 }
        },
        Rule::value => value_at(s, 0),
        Rule::EOI => if s.len() == 0 {
            Outcome::Accept { pairs: seq![pair(Rule::EOI, 0, 0)], next: 0 }
        } else {
            Outcome::Reject { at: 0 }
        },
    }
}

/// Whether a pair tells the dialect of a document type.
pub open spec fn is_dialect(rule: Rule) -> bool {
    rule == Rule::xml_doctype || rule == Rule::xhtml_doctype || rule == Rule::html_doctype
}

/// The text that a pair spans.
pub open spec fn text_of(text: Seq<char>, p: Pair) -> Seq<char> {
    text.subrange(p.start as int, p.end as int)
}

/// Whether every pair that tells a dialect spans a name of that dialect.
pub open spec fn names_known(s: Seq<char>, pairs: Seq<Pair>) -> bool {
    forall|k: int|
        0 <= k < pairs.len() && is_dialect((#[trigger] pairs[k]).rule) ==> dialect_rule(
            text_of(s, pairs[k]),
        ) == Some(pairs[k].rule)
}

/// Whether no pair tells a dialect.
pub open spec fn no_dialect(pairs: Seq<Pair>) -> bool {
    forall|k: int| 0 <= k < pairs.len() ==> !is_dialect((#[trigger] pairs[k]).rule)
}

proof fn no_dialect_in_value(s: Seq<char>, i: int)
    ensures
        value_at(s, i) is Accept ==> no_dialect(value_at(s, i)->pairs),
{
}

proof fn no_dialect_in_attribute(s: Seq<char>, i: int)
    ensures
        attribute_at(s, i) is Accept ==> no_dialect(attribute_at(s, i)->pairs),
{
    let n = run_end(s, i, Class::Word);
    no_dialect_in_value(s, n + 1);
}

proof fn no_dialect_in_link_pair(s: Seq<char>, i: int)
    ensures
        link_pair_at(s, i) is Accept ==> no_dialect(link_pair_at(s, i)->pairs),
{
    let n = run_end(s, i, Class::Word);
    no_dialect_in_value(s, n + 1);
}

proof fn no_dialect_in_attributes(s: Seq<char>, p: int)
    ensures
        attributes_from(s, p) is Accept ==> no_dialect(attributes_from(s, p)->pairs),
    decreases s.len() - p,
{
    let c = run_end(s, p, Class::Blank);
    if !(p < 0 || at_line_end(s, c)) && c != p {
        no_dialect_in_attribute(s, c);
        match attribute_at(s, c) {
            Outcome::Accept { pairs, next } => {
                if p < next <= s.len() {
                    no_dialect_in_attributes(s, next);
                }
            },
            Outcome::Reject { at } => {},
        }
    }
}

proof fn no_dialect_in_link_pairs(s: Seq<char>, p: int)
    ensures
        link_pairs_from(s, p) is Accept ==> no_dialect(link_pairs_from(s, p)->pairs),
    decreases s.len() - p,
{
    let c = run_end(s, p, Class::Blank);
    if !(p < 0 || at_line_end(s, c)) && c != p {
        no_dialect_in_link_pair(s, c);
        match link_pair_at(s, c) {
            Outcome::Accept { pairs, next } => {
                if p < next <= s.len() {
                    no_dialect_in_link_pairs(s, next);
                }
            },
            Outcome::Reject { at } => {},
        }
    }
}

proof fn no_dialect_in_tag(s: Seq<char>, a: int)
    ensures
        tag_at(s, a) is Accept ==> no_dialect(tag_at(s, a)->pairs),
{
    let w = run_end(s, a, Class::Word);
    no_dialect_in_attributes(s, w);
    let c = run_end(s, w, Class::Blank);
    no_dialect_in_link_pair(s, c);
    match link_pair_at(s, c) {
        Outcome::Accept { pairs, next } => {
            no_dialect_in_link_pairs(s, next);
        },
        Outcome::Reject { at } => {},
    }
}

proof fn names_known_in_doctype(s: Seq<char>, a: int)
    requires
        0 <= a <= s.len() <= usize::MAX,
    ensures
        doctype_at(s, a) is Accept ==> names_known(s, doctype_at(s, a)->pairs),
{
    let w = run_end(s, a, Class::Word);
    run_end_is_maximal(s, a, Class::Word);
    let b = run_end(s, w, Class::Space);
    run_end_is_maximal(s, w, Class::Space);
    let v = run_end(s, b, Class::Word);
    run_end_is_maximal(s, b, Class::Word);
    if doctype_at(s, a) is Accept {
        let pairs = doctype_at(s, a)->pairs;
        assert forall|k: int| 0 <= k < pairs.len() && is_dialect(
            (#[trigger] pairs[k]).rule,
        ) implies dialect_rule(text_of(s, pairs[k])) == Some(pairs[k].rule) by {
            assert(k == 2);
        }
    }
}

proof fn names_known_in_line(s: Seq<char>, i: int)
    requires
        0 <= i <= s.len() <= usize::MAX,
    ensures
        line_at(s, i) is Accept ==> names_known(s, line_at(s, i)->pairs),
{
    let a = run_end(s, i, Class::Blank);
    run_end_is_maximal(s, i, Class::Blank);
    names_known_in_doctype(s, a);
    no_dialect_in_tag(s, a);
    if line_at(s, i) is Accept {
        let pairs = line_at(s, i)->pairs;
        assert forall|k: int| 0 <= k < pairs.len() && is_dialect(
            (#[trigger] pairs[k]).rule,
        ) implies dialect_rule(text_of(s, pairs[k])) == Some(pairs[k].rule) by {
            if k > 0 && s.subrange(a, run_end(s, a, Class::Word)) == "doctype"@ && s[a] != '/' {
                assert(pairs[k] == doctype_at(s, a)->pairs[k - 1]);
            }
        }
    }
}

/// In what the grammar accepts as a text, a dialect is told only of a name
/// that the dialect has.
pub proof fn names_known_in_document(s: Seq<char>, i: int)
    requires
        0 <= i <= s.len() <= usize::MAX,
    ensures
        document_from(s, i) is Accept ==> names_known(s, document_from(s, i)->pairs),
    decreases s.len() - i,
{
    if i < s.len() {
        names_known_in_line(s, i);
        match line_at(s, i) {
            Outcome::Accept { pairs, next } => {
                if i < next <= s.len() {
                    names_known_in_document(s, next);
                }
            },
            Outcome::Reject { at } => {},
        }
    }
}

/// A text is accepted as a whole or not at all: where the grammar accepts
/// it, every character was read, and the last pair is the end of input.
pub proof fn accepted_text_is_read_to_its_end(s: Seq<char>, i: int)
    requires
        0 <= i <= s.len(),
        document_from(s, i) is Accept,
    ensures
        document_from(s, i)->next == s.len(),
        document_from(s, i)->pairs.len() > 0,
        document_from(s, i)->pairs.last() == pair(Rule::EOI, s.len() as int, s.len() as int),
    decreases s.len() - i,
{
    if i < s.len() {
        match line_at(s, i) {
            Outcome::Accept { pairs, next } => {
                accepted_text_is_read_to_its_end(s, next);
            },
            Outcome::Reject { at } => {},
        }
    }
}

} // verus!
