//! The productions of the grammar as executable code: each reads the text
//! from a place on, appends the pairs of what it accepted and returns where
//! it ended, or returns where it failed.

use vstd::prelude::*;
use crate::grammar::{
    after, attribute_at, attributes_from, comment_at, comment_rule, dialect_rule, doctype_at,
    doctype_value_at, document_from, is_letter, line_at, line_end_at, link_attribute_at,
    link_pair_at, link_pairs_from, link_tail_at, pair, scan, spans_within, spells, tag_at,
    tag_rule, value_at, Class, Outcome, Pair, Rule,
};

verus! {

/// Whether `r`, with the pairs that were appended to `before`, is what the
/// outcome `o` of a production that started at `from` says.
pub open spec fn produced(
    before: Seq<Pair>,
    now: Seq<Pair>,
    r: Result<usize, usize>,
    o: Outcome,
    from: int,
    limit: int,
) -> bool {
    match r {
        Ok(next) => {
            &&& o is Accept
            &&& o->next == next
            &&& now == before + o->pairs
            &&& from <= next <= limit
            &&& spans_within(o->pairs, from, next as int)
        },
        Err(at) => {
            &&& o is Reject
            &&& o->at == at
            &&& from <= at <= limit
        },
    }
}

/// Reads a value at `i`.
pub(crate) fn match_value(chars: &Vec<char>, i: usize, out: &mut Vec<Pair>) -> (r: Result<
    usize,
    usize,
>)
    requires
        i <= chars.len(),
    ensures
        produced(old(out)@, final(out)@, r, value_at(chars@, i as int), i as int, chars.len() as int),
        r is Ok ==> r->Ok_0 > i,
{
    if i < chars.len() && chars[i] == '"' {
        let q = scan(chars, i + 1, Class::Quoted);
        if q < chars.len() && chars[q] == '"' {
            out.push(Pair { rule: Rule::value, start: i + 1, end: q });
            proof {
                assert(out@ =~= old(out)@ + seq![pair(Rule::value, i + 1, q as int)]);
            }
            Ok(q + 1)
        } else {
            Err(q)
        }
    } else {
        let q = scan(chars, i, Class::Bare);
        if q == i {
            Err(i)
        } else {
            out.push(Pair { rule: Rule::value, start: i, end: q });
            proof {
                assert(out@ =~= old(out)@ + seq![pair(Rule::value, i as int, q as int)]);
            }
            Ok(q)
        }
    }
}

/// Reads an attribute at `i`.
pub(crate) fn match_attribute(chars: &Vec<char>, i: usize, out: &mut Vec<Pair>) -> (r: Result<
    usize,
    usize,
>)
    requires
        i <= chars.len(),
    ensures
        produced(
            old(out)@,
            final(out)@,
            r,
            attribute_at(chars@, i as int),
            i as int,
            chars.len() as int,
        ),
        r is Ok ==> r->Ok_0 > i,
{
    let n = scan(chars, i, Class::Word);
    if n == i {
        Err(i)
    } else if n < chars.len() && chars[n] == '=' {
        let mut value: Vec<Pair> = Vec::new();
        match match_value(chars, n + 1, &mut value) {
            Ok(next) => {
                out.push(Pair { rule: Rule::attribute, start: i, end: next });
                out.push(Pair { rule: Rule::name, start: i, end: n });
                out.append(&mut value);
                proof {
                    let o = value_at(chars@, n + 1);
                    assert(out@ =~= old(out)@ + (seq![
                        pair(Rule::attribute, i as int, next as int),
                        pair(Rule::name, i as int, n as int),
                    ] + o->pairs));
                }
                Ok(next)
            },
            Err(at) => Err(at),
        }
    } else {
        out.push(Pair { rule: Rule::attribute, start: i, end: n });
        out.push(Pair { rule: Rule::name, start: i, end: n });
        proof {
            assert(out@ =~= old(out)@ + seq![
                pair(Rule::attribute, i as int, n as int),
                pair(Rule::name, i as int, n as int),
            ]);
        }
        Ok(n)
    }
}

/// Reads one `name=value` of a link at `i`.
pub(crate) fn match_link_pair(chars: &Vec<char>, i: usize, out: &mut Vec<Pair>) -> (r: Result<
    usize,
    usize,
>)
    requires
        i <= chars.len(),
    ensures
        produced(
            old(out)@,
            final(out)@,
            r,
            link_pair_at(chars@, i as int),
            i as int,
            chars.len() as int,
        ),
        r is Ok ==> r->Ok_0 > i,
{
    let n = scan(chars, i, Class::Word);
    if n == i {
        Err(i)
    } else if n < chars.len() && chars[n] == '=' {
        out.push(Pair { rule: Rule::name, start: i, end: n });
        let ghost named = out@;
        match match_value(chars, n + 1, out) {
            Ok(next) => {
                proof {
                    let o = value_at(chars@, n + 1);
                    assert(out@ =~= old(out)@ + (seq![pair(Rule::name, i as int, n as int)]
                        + o->pairs));
                }
                Ok(next)
            },
            Err(at) => Err(at),
        }
    } else {
        Err(n)
    }
}

/// Putting pairs before an outcome twice is putting both before it at once.
pub proof fn after_after(a: Seq<Pair>, b: Seq<Pair>, o: Outcome)
    ensures
        after(a, after(b, o)) == after(a + b, o),
{
    match o {
        Outcome::Accept { pairs, next } => {
            assert(a + (b + pairs) =~= (a + b) + pairs);
        },
        Outcome::Reject { at } => {},
    }
}

/// Pairs that lie in two stretches, one after the other, lie in the stretch
/// that holds both.
pub proof fn spans_join(a: Seq<Pair>, b: Seq<Pair>, lo: int, mid: int, from: int, hi: int)
    requires
        spans_within(a, lo, mid),
        spans_within(b, from, hi),
        lo <= from,
        mid <= hi,
    ensures
        spans_within(a + b, lo, hi),
{
    assert forall|k: int| 0 <= k < (a + b).len() implies lo <= (#[trigger] (a + b)[k]).start <= (a
        + b)[k].end <= hi by {
        if k < a.len() {
            assert((a + b)[k] == a[k]);
        } else {
            assert((a + b)[k] == b[k - a.len()]);
        }
    }
}

/// Reads the attributes that follow `p` on its line.
pub(crate) fn match_attributes(chars: &Vec<char>, p: usize, out: &mut Vec<Pair>) -> (r: Result<
    usize,
    usize,
>)
    requires
        p <= chars.len(),
    ensures
        produced(
            old(out)@,
            final(out)@,
            r,
            attributes_from(chars@, p as int),
            p as int,
            chars.len() as int,
        ),
{
    let mut pos: usize = p;
    let ghost mut acc: Seq<Pair> = Seq::empty();
    proof {
        assert(old(out)@ + acc =~= old(out)@);
        after_after(acc, Seq::empty(), attributes_from(chars@, p as int));
        assert(acc + Seq::<Pair>::empty() =~= acc);
        assert(after(acc, attributes_from(chars@, p as int)) == attributes_from(chars@, p as int))
            by {
            match attributes_from(chars@, p as int) {
                Outcome::Accept { pairs, next } => {
                    assert(acc + pairs =~= pairs);
                },
                Outcome::Reject { at } => {},
            }
        }
    }
    loop
        invariant
            p <= pos <= chars.len(),
            out@ == old(out)@ + acc,
            attributes_from(chars@, p as int) == after(acc, attributes_from(chars@, pos as int)),
            spans_within(acc, p as int, pos as int),
        decreases chars.len() - pos,
    {
        let c = scan(chars, pos, Class::Blank);
        if c >= chars.len() || chars[c] == '\n' {
            proof {
                assert(acc + Seq::<Pair>::empty() =~= acc);
            }
            return Ok(pos);
        }
        if c == pos {
            return Err(pos);
        }
        match match_attribute(chars, c, out) {
            Ok(next) => {
                proof {
                    let o = attribute_at(chars@, c as int);
                    after_after(acc, o->pairs, attributes_from(chars@, next as int));
                    spans_join(acc, o->pairs, p as int, pos as int, c as int, next as int);
                    assert(out@ =~= old(out)@ + (acc + o->pairs));
                    acc = acc + o->pairs;
                }
                pos = next;
            },
            Err(at) => {
                return Err(at);
            },
        }
    }
}

/// Reads the `name=value` pairs of a link that follow `p` on its line.
pub(crate) fn match_link_pairs(chars: &Vec<char>, p: usize, out: &mut Vec<Pair>) -> (r: Result<
    usize,
    usize,
>)
    requires
        p <= chars.len(),
    ensures
        produced(
            old(out)@,
            final(out)@,
            r,
            link_pairs_from(chars@, p as int),
            p as int,
            chars.len() as int,
        ),
{
    let mut pos: usize = p;
    let ghost mut acc: Seq<Pair> = Seq::empty();
    proof {
        assert(old(out)@ + acc =~= old(out)@);
        assert(after(acc, link_pairs_from(chars@, p as int)) == link_pairs_from(chars@, p as int))
            by {
            match link_pairs_from(chars@, p as int) {
                Outcome::Accept { pairs, next } => {
                    assert(acc + pairs =~= pairs);
                },
                Outcome::Reject { at } => {},
            }
        }
    }
    loop
        invariant
            p <= pos <= chars.len(),
            out@ == old(out)@ + acc,
            link_pairs_from(chars@, p as int) == after(acc, link_pairs_from(chars@, pos as int)),
            spans_within(acc, p as int, pos as int),
        decreases chars.len() - pos,
    {
        let c = scan(chars, pos, Class::Blank);
        if c >= chars.len() || chars[c] == '\n' {
            proof {
                assert(acc + Seq::<Pair>::empty() =~= acc);
            }
            return Ok(pos);
        }
        if c == pos {
            return Err(pos);
        }
        match match_link_pair(chars, c, out) {
            Ok(next) => {
                proof {
                    let o = link_pair_at(chars@, c as int);
                    after_after(acc, o->pairs, link_pairs_from(chars@, next as int));
                    spans_join(acc, o->pairs, p as int, pos as int, c as int, next as int);
                    assert(out@ =~= old(out)@ + (acc + o->pairs));
                    acc = acc + o->pairs;
                }
                pos = next;
            },
            Err(at) => {
                return Err(at);
            },
        }
    }
}

/// Reads the attributes of a link at `i`, under one pair that spans them.
pub(crate) fn match_link_attribute(chars: &Vec<char>, i: usize, out: &mut Vec<Pair>) -> (r:
    Result<usize, usize>)
    requires
        i <= chars.len(),
    ensures
        produced(
            old(out)@,
            final(out)@,
            r,
            link_attribute_at(chars@, i as int),
            i as int,
            chars.len() as int,
        ),
        r is Ok ==> r->Ok_0 > i,
{
    let mut inner: Vec<Pair> = Vec::new();
    match match_link_pair(chars, i, &mut inner) {
        Ok(next) => match match_link_pairs(chars, next, &mut inner) {
            Ok(end) => {
                out.push(Pair { rule: Rule::link_attribute, start: i, end });
                out.append(&mut inner);
                proof {
                    let first = link_pair_at(chars@, i as int);
                    let more = link_pairs_from(chars@, next as int);
                    let all = seq![pair(Rule::link_attribute, i as int, end as int)] + first->pairs
                        + more->pairs;
                    spans_join(first->pairs, more->pairs, i as int, next as int, next as int, end as int);
                    spans_join(
                        seq![pair(Rule::link_attribute, i as int, end as int)],
                        first->pairs + more->pairs,
                        i as int,
                        end as int,
                        i as int,
                        end as int,
                    );
                    assert(all =~= seq![pair(Rule::link_attribute, i as int, end as int)] + (
                    first->pairs + more->pairs));
                    assert(out@ =~= old(out)@ + all);
                }
                Ok(end)
            },
            Err(at) => Err(at),
        },
        Err(at) => Err(at),
    }
}

/// Reads what follows the tag name of a link at `w`.
pub(crate) fn match_link_tail(chars: &Vec<char>, w: usize, out: &mut Vec<Pair>) -> (r: Result<
    usize,
    usize,
>)
    requires
        w <= chars.len(),
    ensures
        produced(
            old(out)@,
            final(out)@,
            r,
            link_tail_at(chars@, w as int),
            w as int,
            chars.len() as int,
        ),
{
    let c = scan(chars, w, Class::Blank);
    if c >= chars.len() || chars[c] == '\n' {
        proof {
            assert(out@ =~= old(out)@ + Seq::<Pair>::empty());
        }
        Ok(w)
    } else if c == w {
        Err(w)
    } else {
        let r = match_link_attribute(chars, c, out);
        proof {
            if r is Ok {
                let o = link_attribute_at(chars@, c as int);
                spans_join(Seq::empty(), o->pairs, w as int, w as int, c as int, o->next);
                assert(Seq::<Pair>::empty() + o->pairs =~= o->pairs);
            }
        }
        r
    }
}

fn letter(c: char) -> (yes: bool)
    ensures
        yes == is_letter(c),
{
    ('a' <= c && c <= 'z') || ('A' <= c && c <= 'Z')
}

/// The production that the tag name from `a` up to `w` selects.
pub(crate) fn rule_of_tag(chars: &Vec<char>, a: usize, w: usize) -> (rule: Rule)
    requires
        a <= w <= chars.len(),
    ensures
        rule == tag_rule(chars@.subrange(a as int, w as int)),
{
    if spells(chars, a, w, "html") {
        Rule::html
    } else if spells(chars, a, w, "head") {
        Rule::head
    } else if spells(chars, a, w, "body") {
        Rule::body
    } else if spells(chars, a, w, "link") {
        Rule::link
    } else {
        Rule::element
    }
}

/// Reads an element without its indentation at `a`.
pub(crate) fn match_tag(chars: &Vec<char>, a: usize, out: &mut Vec<Pair>) -> (r: Result<
    usize,
    usize,
>)
    requires
        a <= chars.len(),
    ensures
        produced(old(out)@, final(out)@, r, tag_at(chars@, a as int), a as int, chars.len() as int),
        r is Ok ==> r->Ok_0 > a,
{
    let w = scan(chars, a, Class::Word);
    if w == a || !letter(chars[a]) {
        return Err(a);
    }
    let rule = rule_of_tag(chars, a, w);
    out.push(Pair { rule, start: a, end: w });
    let ghost named = out@;
    let r = if rule == Rule::link {
        match_link_tail(chars, w, out)
    } else {
        match_attributes(chars, w, out)
    };
    proof {
        let tail = if rule == Rule::link {
            link_tail_at(chars@, w as int)
        } else {
            attributes_from(chars@, w as int)
        };
        if r is Ok {
            spans_join(
                seq![pair(rule, a as int, w as int)],
                tail->pairs,
                a as int,
                w as int,
                w as int,
                tail->next,
            );
            assert(out@ =~= old(out)@ + (seq![pair(rule, a as int, w as int)] + tail->pairs));
        }
    }
    r
}

/// Reads a comment at `a`.
pub(crate) fn match_comment(chars: &Vec<char>, a: usize, out: &mut Vec<Pair>) -> (r: Result<
    usize,
    usize,
>)
    requires
        a <= chars.len(),
    ensures
        produced(
            old(out)@,
            final(out)@,
            r,
            comment_at(chars@, a as int),
            a as int,
            chars.len() as int,
        ),
        r is Ok ==> r->Ok_0 > a,
{
    if a < chars.len() && chars[a] == '/' {
        let e = scan(chars, a + 1, Class::Text);
        let rule = if a + 1 < chars.len() && chars[a + 1] == '!' {
            Rule::html_comment
        } else {
            Rule::code_comment
        };
        out.push(Pair { rule, start: a, end: e });
        proof {
            assert(out@ =~= old(out)@ + seq![pair(comment_rule(chars@, a as int), a as int, e as int)]);
        }
        Ok(e)
    } else {
        Err(a)
    }
}

/// The dialect that the name from `b` up to `v` is read in, if it is the
/// name of a document type.
pub(crate) fn dialect_of_name(chars: &Vec<char>, b: usize, v: usize) -> (rule: Option<Rule>)
    requires
        b <= v <= chars.len(),
    ensures
        rule == dialect_rule(chars@.subrange(b as int, v as int)),
{
    if spells(chars, b, v, "xml") {
        Some(Rule::xml_doctype)
    } else if spells(chars, b, v, "html") || spells(chars, b, v, "5") || spells(
        chars,
        b,
        v,
        "strict",
    ) || spells(chars, b, v, "frameset") || spells(chars, b, v, "transitional") {
        Some(Rule::html_doctype)
    } else if spells(chars, b, v, "1.1") || spells(chars, b, v, "mobile") || spells(
        chars,
        b,
        v,
        "basic",
    ) {
        Some(Rule::xhtml_doctype)
    } else {
        None
    }
}

/// Reads the name of a document type at `b`.
pub(crate) fn match_doctype_value(chars: &Vec<char>, b: usize, out: &mut Vec<Pair>) -> (r:
    Result<usize, usize>)
    requires
        b <= chars.len(),
    ensures
        produced(
            old(out)@,
            final(out)@,
            r,
            doctype_value_at(chars@, b as int),
            b as int,
            chars.len() as int,
        ),
{
    let v = scan(chars, b, Class::Word);
    match dialect_of_name(chars, b, v) {
        Some(rule) => {
            out.push(Pair { rule: Rule::doctype_value, start: b, end: v });
            out.push(Pair { rule, start: b, end: v });
            proof {
                assert(out@ =~= old(out)@ + seq![
                    pair(Rule::doctype_value, b as int, v as int),
                    pair(rule, b as int, v as int),
                ]);
            }
            Ok(v)
        },
        None => Err(b),
    }
}

/// Reads a document type at `a`.
pub(crate) fn match_doctype(chars: &Vec<char>, a: usize, out: &mut Vec<Pair>) -> (r: Result<
    usize,
    usize,
>)
    requires
        a <= chars.len(),
    ensures
        produced(
            old(out)@,
            final(out)@,
            r,
            doctype_at(chars@, a as int),
            a as int,
            chars.len() as int,
        ),
        r is Ok ==> r->Ok_0 > a,
{
    let w = scan(chars, a, Class::Word);
    if !spells(chars, a, w, "doctype") {
        return Err(a);
    }
    let b = scan(chars, w, Class::Space);
    if b == w {
        return Err(w);
    }
    let mut name: Vec<Pair> = Vec::new();
    match match_doctype_value(chars, b, &mut name) {
        Ok(next) => {
            let c = scan(chars, next, Class::Blank);
            let x = if c > next {
                scan(chars, c, Class::Visible)
            } else {
                next
            };
            out.push(Pair { rule: Rule::doctype, start: a, end: x });
            out.append(&mut name);
            proof {
                let o = doctype_value_at(chars@, b as int);
                spans_join(
                    seq![pair(Rule::doctype, a as int, x as int)],
                    o->pairs,
                    a as int,
                    x as int,
                    b as int,
                    x as int,
                );
                assert(out@ =~= old(out)@ + (seq![pair(Rule::doctype, a as int, x as int)]
                    + o->pairs));
            }
            Ok(x)
        },
        Err(at) => Err(at),
    }
}

/// Reads the end of a line after `e`, and says where the next line starts.
pub(crate) fn match_line_end(chars: &Vec<char>, e: usize) -> (r: Result<usize, usize>)
    requires
        e <= chars.len(),
    ensures
        match r {
            Ok(next) => line_end_at(chars@, e as int) == (Outcome::Accept {
                pairs: Seq::empty(),
                next: next as int,
            }) && e <= next <= chars.len(),
            Err(at) => line_end_at(chars@, e as int) == (Outcome::Reject { at: at as int }) && e
                <= at <= chars.len(),
        },
{
    let c = scan(chars, e, Class::Blank);
    if c >= chars.len() {
        Ok(c)
    } else if chars[c] == '\n' {
        Ok(c + 1)
    } else {
        Err(c)
    }
}

/// Pairs that lie in a stretch lie in every stretch around it.
pub proof fn spans_widen(a: Seq<Pair>, lo: int, hi: int, lower: int, higher: int)
    requires
        spans_within(a, lo, hi),
        lower <= lo,
        hi <= higher,
    ensures
        spans_within(a, lower, higher),
{
}

/// Reads the line that starts at `i`.
pub(crate) fn match_line(chars: &Vec<char>, i: usize, out: &mut Vec<Pair>) -> (r: Result<
    usize,
    usize,
>)
    requires
        i < chars.len(),
    ensures
        produced(old(out)@, final(out)@, r, line_at(chars@, i as int), i as int, chars.len() as int),
        r is Ok ==> r->Ok_0 > i,
{
    let a = scan(chars, i, Class::Blank);
    if a >= chars.len() {
        proof {
            assert(out@ =~= old(out)@ + Seq::<Pair>::empty());
        }
        return Ok(a);
    }
    if chars[a] == '\n' {
        proof {
            assert(out@ =~= old(out)@ + Seq::<Pair>::empty());
        }
        return Ok(a + 1);
    }
    out.push(Pair { rule: Rule::indent, start: i, end: a });
    let w = scan(chars, a, Class::Word);
    let held = if chars[a] == '/' {
        match_comment(chars, a, out)
    } else if spells(chars, a, w, "doctype") {
        match_doctype(chars, a, out)
    } else {
        match_tag(chars, a, out)
    };
    match held {
        Ok(e) => match match_line_end(chars, e) {
            Ok(next) => {
                proof {
                    let o = if chars@[a as int] == '/' {
                        comment_at(chars@, a as int)
                    } else if chars@.subrange(a as int, w as int) == "doctype"@ {
                        doctype_at(chars@, a as int)
                    } else {
                        tag_at(chars@, a as int)
                    };
                    let all = seq![pair(Rule::indent, i as int, a as int)] + o->pairs;
                    spans_join(
                        seq![pair(Rule::indent, i as int, a as int)],
                        o->pairs,
                        i as int,
                        a as int,
                        a as int,
                        e as int,
                    );
                    spans_widen(all, i as int, e as int, i as int, next as int);
                    assert(out@ =~= old(out)@ + all);
                }
                Ok(next)
            },
            Err(at) => Err(at),
        },
        Err(at) => Err(at),
    }
}

/// Reads a whole text: the pairs of its lines and of the end of input, or
/// the place where a line matches no production.
pub(crate) fn match_document(chars: &Vec<char>, out: &mut Vec<Pair>) -> (r: Result<usize, usize>)
    ensures
        produced(
            old(out)@,
            final(out)@,
            r,
            document_from(chars@, 0),
            0,
            chars.len() as int,
        ),
{
    let mut pos: usize = 0;
    let ghost mut acc: Seq<Pair> = Seq::empty();
    proof {
        assert(old(out)@ + acc =~= old(out)@);
        assert(after(acc, document_from(chars@, 0)) == document_from(chars@, 0)) by {
            match document_from(chars@, 0) {
                Outcome::Accept { pairs, next } => {
                    assert(acc + pairs =~= pairs);
                },
                Outcome::Reject { at } => {},
            }
        }
    }
    while pos < chars.len()
        invariant
            pos <= chars.len(),
            out@ == old(out)@ + acc,
            document_from(chars@, 0) == after(acc, document_from(chars@, pos as int)),
            spans_within(acc, 0, pos as int),
        decreases chars.len() - pos,
    {
        match match_line(chars, pos, out) {
            Ok(next) => {
                proof {
                    let o = line_at(chars@, pos as int);
                    after_after(acc, o->pairs, document_from(chars@, next as int));
                    spans_join(acc, o->pairs, 0, pos as int, pos as int, next as int);
                    assert(out@ =~= old(out)@ + (acc + o->pairs));
                    acc = acc + o->pairs;
                }
                pos = next;
            },
            Err(at) => {
                return Err(at);
            },
        }
    }
    out.push(Pair { rule: Rule::EOI, start: chars.len(), end: chars.len() });
    proof {
        let end = seq![pair(Rule::EOI, chars.len() as int, chars.len() as int)];
        spans_join(acc, end, 0, pos as int, pos as int, pos as int);
        assert(out@ =~= old(out)@ + (acc + end));
    }
    Ok(chars.len())
}

} // verus!
