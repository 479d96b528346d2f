//! How indentation nests the lines of a document into a forest.
//!
//! A line that opens an element owns the run of lines that follows it for as
//! long as they are indented deeper than it is; a comment never ends a run
//! and never owns anything.

use vstd::prelude::*;
use crate::document::{placeholder, AttrView, ElementView};

verus! {

/// One line of the source, as far as nesting is concerned: a comment, or an
/// element with its indentation, name and attributes.
pub ghost struct Entry {
    pub comment: bool,
    pub depth: int,
    pub name: Seq<char>,
    pub attributes: Seq<AttrView>,
}

/// Whether a line may stand inside a run whose lines are indented by at
/// least `floor`.
pub open spec fn descends(e: Entry, floor: int) -> bool {
    e.comment || e.depth >= floor
}

/// The number of lines at the start of `lines` that descend below `floor`.
pub open spec fn run_len(lines: Seq<Entry>, floor: int) -> int
    decreases lines.len(),
{
    if lines.len() == 0 || !descends(lines[0], floor) {
        0
    } else {
        1 + run_len(lines.drop_first(), floor)
    }
}

/// A run is no longer than its lines.
pub proof fn run_len_bound(lines: Seq<Entry>, floor: int)
    ensures
        0 <= run_len(lines, floor) <= lines.len(),
    decreases lines.len(),
{
    if lines.len() > 0 && descends(lines[0], floor) {
        run_len_bound(lines.drop_first(), floor);
    }
}

/// The element that a line stands for, given its children.
pub open spec fn node(e: Entry, children: Seq<ElementView>) -> ElementView {
    if e.comment {
        placeholder()
    } else {
        ElementView { name: e.name, attributes: e.attributes, children }
    }
}

/// The forest that a run of lines stands for. The children of an element are
/// the forest of the lines that follow it and are indented deeper; its next
/// sibling is the first element after them.
pub open spec fn forest(lines: Seq<Entry>) -> Seq<ElementView>
    decreases lines.len(),
{
    if lines.len() == 0 {
        Seq::empty()
    } else if lines[0].comment {
        seq![placeholder()] + forest(lines.drop_first())
    } else {
        let n = run_len(lines.drop_first(), lines[0].depth + 1);
        proof {
            run_len_bound(lines.drop_first(), lines[0].depth + 1);
        }
        seq![node(lines[0], forest(lines.subrange(1, 1 + n)))] + forest(
            lines.subrange(1 + n, lines.len() as int),
        )
    }
}

/// Whether every element at the top of the forest of `lines` is indented by
/// at least `floor`: an element of that indentation that follows `lines`
/// then starts a sibling of theirs, not a child.
pub open spec fn sealed(lines: Seq<Entry>, floor: int) -> bool
    decreases lines.len(),
{
    if lines.len() == 0 {
        true
    } else if lines[0].comment {
        sealed(lines.drop_first(), floor)
    } else {
        let n = run_len(lines.drop_first(), lines[0].depth + 1);
        proof {
            run_len_bound(lines.drop_first(), lines[0].depth + 1);
        }
        lines[0].depth >= floor && sealed(lines.subrange(1 + n, lines.len() as int), floor)
    }
}

/// Whether `lines` holds comments only.
pub open spec fn quiet(lines: Seq<Entry>) -> bool {
    forall|j: int| 0 <= j < lines.len() ==> (#[trigger] lines[j]).comment
}

/// A run that descends throughout is as long as its lines.
pub proof fn run_covers(lines: Seq<Entry>, floor: int)
    requires
        forall|j: int| 0 <= j < lines.len() ==> descends(#[trigger] lines[j], floor),
    ensures
        run_len(lines, floor) == lines.len(),
    decreases lines.len(),
{
    if lines.len() > 0 {
        assert(descends(lines[0], floor));
        run_covers(lines.drop_first(), floor);
    }
}

/// A run stops inside the first part of a sequence, or goes on into the
/// second.
pub proof fn run_len_concat(a: Seq<Entry>, b: Seq<Entry>, floor: int)
    ensures
        run_len(a + b, floor) == if run_len(a, floor) < a.len() {
            run_len(a, floor)
        } else {
            a.len() + run_len(b, floor)
        },
    decreases a.len(),
{
    run_len_bound(a, floor);
    if a.len() == 0 {
        assert(a + b =~= b);
    } else {
        assert((a + b)[0] == a[0]);
        if descends(a[0], floor) {
            assert((a + b).drop_first() =~= a.drop_first() + b);
            run_len_concat(a.drop_first(), b, floor);
        }
    }
}

/// Lines that follow a sealed run, and start with an element that is not
/// indented deeper than the run's floor, nest on their own.
pub proof fn forest_split(u: Seq<Entry>, t: Seq<Entry>, floor: int)
    requires
        sealed(u, floor),
        t.len() == 0 || (!t[0].comment && t[0].depth <= floor),
    ensures
        forest(u + t) == forest(u) + forest(t),
    decreases u.len(),
{
    if u.len() == 0 {
        assert(u + t =~= t);
        assert(forest(u) + forest(t) =~= forest(t));
    } else if u[0].comment {
        assert((u + t)[0] == u[0]);
        assert((u + t).drop_first() =~= u.drop_first() + t);
        forest_split(u.drop_first(), t, floor);
        assert(forest(u + t) =~= forest(u) + forest(t));
    } else {
        let f = u[0].depth + 1;
        let n = run_len(u.drop_first(), f);
        run_len_bound(u.drop_first(), f);
        run_len_concat(u.drop_first(), t, f);
        assert((u + t)[0] == u[0]);
        assert((u + t).drop_first() =~= u.drop_first() + t);
        assert(run_len((u + t).drop_first(), f) == n);
        let rest = u.subrange(1 + n, u.len() as int);
        assert((u + t).subrange(1, 1 + n) =~= u.subrange(1, 1 + n));
        assert((u + t).subrange(1 + n, (u + t).len() as int) =~= rest + t);
        forest_split(rest, t, floor);
        assert(forest(u + t) =~= forest(u) + forest(t));
    }
}

/// A sealed run stays sealed for every lower floor.
pub proof fn sealed_weaken(u: Seq<Entry>, floor: int, lower: int)
    requires
        sealed(u, floor),
        lower <= floor,
    ensures
        sealed(u, lower),
    decreases u.len(),
{
    if u.len() == 0 {
    } else if u[0].comment {
        sealed_weaken(u.drop_first(), floor, lower);
    } else {
        let n = run_len(u.drop_first(), u[0].depth + 1);
        run_len_bound(u.drop_first(), u[0].depth + 1);
        sealed_weaken(u.subrange(1 + n, u.len() as int), floor, lower);
    }
}

/// Two sealed runs, the second starting with an element that is not indented
/// deeper than the floor of the first, make one sealed run.
pub proof fn sealed_concat(u: Seq<Entry>, t: Seq<Entry>, floor: int, lower: int)
    requires
        sealed(u, floor),
        sealed(t, lower),
        lower <= floor,
        t.len() == 0 || (!t[0].comment && t[0].depth <= floor),
    ensures
        sealed(u + t, lower),
    decreases u.len(),
{
    if u.len() == 0 {
        assert(u + t =~= t);
    } else if u[0].comment {
        assert((u + t)[0] == u[0]);
        assert((u + t).drop_first() =~= u.drop_first() + t);
        sealed_concat(u.drop_first(), t, floor, lower);
    } else {
        let f = u[0].depth + 1;
        let n = run_len(u.drop_first(), f);
        run_len_bound(u.drop_first(), f);
        run_len_concat(u.drop_first(), t, f);
        assert((u + t)[0] == u[0]);
        assert((u + t).drop_first() =~= u.drop_first() + t);
        assert(run_len((u + t).drop_first(), f) == n);
        let rest = u.subrange(1 + n, u.len() as int);
        assert((u + t).subrange(1 + n, (u + t).len() as int) =~= rest + t);
        sealed_concat(rest, t, floor, lower);
    }
}

/// An element followed by lines that all descend below it is a single tree,
/// with the forest of those lines as its children.
pub proof fn forest_of_tree(e: Entry, below: Seq<Entry>, lower: int)
    requires
        !e.comment,
        forall|j: int| 0 <= j < below.len() ==> descends(#[trigger] below[j], e.depth + 1),
        lower <= e.depth,
    ensures
        forest(seq![e] + below) == seq![node(e, forest(below))],
        sealed(seq![e] + below, lower),
{
    let s = seq![e] + below;
    run_covers(below, e.depth + 1);
    assert(s.drop_first() =~= below);
    assert(s.subrange(1, 1 + below.len() as int) =~= below);
    let nothing = s.subrange(1 + below.len() as int, s.len() as int);
    assert(nothing.len() == 0);
    assert(forest(nothing) =~= Seq::<ElementView>::empty());
    assert(sealed(nothing, lower));
    assert(s[0] == e);
    assert(forest(s) =~= seq![node(e, forest(below))]);
}

/// Comments only: each gives a placeholder, and the run is sealed for every
/// floor.
pub proof fn forest_of_comments(u: Seq<Entry>, c: Entry, floor: int)
    requires
        quiet(u),
        c.comment,
    ensures
        forest(u.push(c)) == forest(u).push(placeholder()),
        sealed(u, floor),
    decreases u.len(),
{
    if u.len() == 0 {
        let nothing = u.push(c).drop_first();
        assert(nothing.len() == 0);
        assert(forest(nothing) =~= Seq::<ElementView>::empty());
        assert(u.push(c)[0] == c);
        assert(forest(u.push(c)) =~= forest(u).push(placeholder()));
    } else {
        assert(u[0].comment);
        assert(u.push(c).drop_first() =~= u.drop_first().push(c));
        assert(quiet(u.drop_first())) by {
            assert forall|j: int| 0 <= j < u.drop_first().len() implies (
            #[trigger] u.drop_first()[j]).comment by {
                assert(u[j + 1].comment);
            }
        }
        forest_of_comments(u.drop_first(), c, floor);
        assert(forest(u.push(c)) =~= forest(u).push(placeholder()));
    }
}

/// An element without its children.
pub open spec fn bare(e: ElementView) -> ElementView {
    ElementView { name: e.name, attributes: e.attributes, children: Seq::empty() }
}

/// The elements of a forest in document order, each without its children.
pub open spec fn outline(elements: Seq<ElementView>) -> Seq<ElementView>
    decreases elements,
{
    if elements.len() == 0 {
        Seq::empty()
    } else {
        seq![bare(elements[0])] + outline(elements[0].children) + outline(elements.drop_first())
    }
}

/// What the lines stand for one by one, before they are nested.
pub open spec fn labels(lines: Seq<Entry>) -> Seq<ElementView> {
    Seq::new(lines.len(), |i: int| node(lines[i], Seq::empty()))
}

/// The outline of two forests side by side is one outline after the other.
pub proof fn outline_concat(a: Seq<ElementView>, b: Seq<ElementView>)
    ensures
        outline(a + b) == outline(a) + outline(b),
    decreases a.len(),
{
    if a.len() == 0 {
        assert(a + b =~= b);
        assert(outline(a) + outline(b) =~= outline(b));
    } else {
        assert((a + b)[0] == a[0]);
        assert((a + b).drop_first() =~= a.drop_first() + b);
        outline_concat(a.drop_first(), b);
        assert(outline(a + b) =~= outline(a) + outline(b));
    }
}

/// Nesting loses no line, adds none and keeps their order: read in document
/// order, the forest of some lines holds one element for each line, with the
/// name and the attributes of that line.
pub proof fn forest_keeps_every_line(lines: Seq<Entry>)
    ensures
        outline(forest(lines)) == labels(lines),
    decreases lines.len(),
{
    if lines.len() == 0 {
        assert(outline(forest(lines)) =~= labels(lines));
    } else if lines[0].comment {
        let rest = lines.drop_first();
        forest_keeps_every_line(rest);
        outline_concat(seq![placeholder()], forest(rest));
        let one = seq![placeholder()];
        assert(one.drop_first() =~= Seq::<ElementView>::empty());
        assert(outline(one.drop_first()) =~= Seq::<ElementView>::empty());
        assert(outline(placeholder().children) =~= Seq::<ElementView>::empty());
        assert(outline(one) =~= seq![bare(placeholder())]);
        assert(labels(lines) =~= seq![node(lines[0], Seq::empty())] + labels(rest));
        assert(outline(forest(lines)) =~= labels(lines));
    } else {
        let n = run_len(lines.drop_first(), lines[0].depth + 1);
        run_len_bound(lines.drop_first(), lines[0].depth + 1);
        let inner = lines.subrange(1, 1 + n);
        let rest = lines.subrange(1 + n, lines.len() as int);
        forest_keeps_every_line(inner);
        forest_keeps_every_line(rest);
        let tree = node(lines[0], forest(inner));
        let one = seq![tree];
        outline_concat(one, forest(rest));
        assert(one.drop_first() =~= Seq::<ElementView>::empty());
        assert(outline(one.drop_first()) =~= Seq::<ElementView>::empty());
        assert(outline(one) =~= seq![bare(tree)] + labels(inner));
        assert(labels(lines) =~= seq![node(lines[0], Seq::empty())] + labels(inner) + labels(rest));
        assert(outline(forest(lines)) =~= labels(lines));
    }
}

/// Comments only nest into as many placeholders.
pub proof fn forest_of_quiet_lines(lines: Seq<Entry>)
    requires
        quiet(lines),
    ensures
        forest(lines) == Seq::new(lines.len(), |i: int| placeholder()),
    decreases lines.len(),
{
    if lines.len() == 0 {
        assert(forest(lines) =~= Seq::new(lines.len(), |i: int| placeholder()));
    } else {
        let before = lines.drop_last();
        assert(lines =~= before.push(lines.last()));
        assert(quiet(before)) by {
            assert forall|j: int| 0 <= j < before.len() implies (#[trigger] before[j]).comment by {
                assert(lines[j].comment);
            }
        }
        forest_of_quiet_lines(before);
        forest_of_comments(before, lines.last(), 0);
        assert(forest(lines) =~= Seq::new(lines.len(), |i: int| placeholder()));
    }
}

} // verus!
