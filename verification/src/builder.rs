//! The open elements while a document is built, and the steps that keep
//! them in line with the forest of the lines read so far.

use vstd::prelude::*;
use crate::document::{placeholder, Element, ElementView};
use crate::nesting::{
    descends, forest, forest_of_comments, forest_of_tree, forest_split, node, quiet, sealed,
    sealed_concat, Entry,
};

verus! {

/// An element whose lines may still go on: its indentation, and what it
/// holds so far.
pub struct Open<'a> {
    pub depth: usize,
    pub element: Element<'a>,
}

/// The indentation of the open element `m`; the root, which is element 0,
/// lies above every line.
pub open spec fn level<'a>(stack: Seq<Open<'a>>, m: int) -> int {
    if m == 0 {
        -1
    } else {
        stack[m].depth as int
    }
}

/// The lines that have gone to the open element `m` itself: those after its
/// own line, up to the line of the next open element.
pub open spec fn region(done: Seq<Entry>, at: Seq<int>, m: int) -> Seq<Entry> {
    done.subrange(
        at[m] + 1,
        if m + 1 < at.len() {
            at[m + 1]
        } else {
            done.len() as int
        },
    )
}

/// The indentation of what comes next under the open element `m`.
pub open spec fn bound(done: Seq<Entry>, at: Seq<int>, m: int, floor: int) -> int {
    if m + 1 < at.len() {
        done[at[m + 1]].depth
    } else {
        floor
    }
}

/// Whether `o` is the element of the line `e`, without children yet or with
/// some.
pub open spec fn opens<'a>(o: Open<'a>, e: Entry) -> bool {
    &&& !e.comment
    &&& o.depth == e.depth
    &&& o.element@.name == e.name
    &&& o.element@.attributes == e.attributes
}

/// What holds of the open element `m` after the lines `done`: it stands for
/// its line, every later line lies deeper, and its children are the forest
/// of the lines that went to it.
pub open spec fn frame<'a>(
    done: Seq<Entry>,
    at: Seq<int>,
    stack: Seq<Open<'a>>,
    floor: int,
    m: int,
) -> bool {
    &&& -1 <= at[m] < done.len()
    &&& m >= 1 ==> {
        &&& at[m - 1] < at[m]
        &&& opens(stack[m], done[at[m]])
        &&& level(stack, m - 1) < level(stack, m)
    }
    &&& forall|j: int| at[m] < j < done.len() ==> descends(#[trigger] done[j], level(stack, m) + 1)
    &&& stack[m].element@.children == forest(region(done, at, m))
    &&& sealed(region(done, at, m), bound(done, at, m, floor))
}

/// Whether the open elements `stack`, whose lines are at the places `at`,
/// hold the lines `done`, when the next element is indented by `floor` at
/// most.
pub open spec fn nested<'a>(done: Seq<Entry>, at: Seq<int>, stack: Seq<Open<'a>>, floor: int) -> bool {
    &&& at.len() == stack.len()
    &&& at.len() >= 1
    &&& at[0] == -1
    &&& forall|m: int| 0 <= m < at.len() ==> #[trigger] frame(done, at, stack, floor, m)
}

/// No open element is indented deeper than the last.
pub proof fn deepest_is_last<'a>(
    done: Seq<Entry>,
    at: Seq<int>,
    stack: Seq<Open<'a>>,
    floor: int,
    m: int,
)
    requires
        nested(done, at, stack, floor),
        0 <= m < at.len(),
    ensures
        level(stack, m) <= level(stack, at.len() - 1),
    decreases at.len() - m,
{
    if m + 1 < at.len() {
        assert(frame(done, at, stack, floor, m + 1));
        deepest_is_last(done, at, stack, floor, m + 1);
    }
}

/// Comments only are sealed for every floor.
pub proof fn quiet_is_sealed(u: Seq<Entry>, floor: int)
    requires
        quiet(u),
    ensures
        sealed(u, floor),
{
    forest_of_comments(u, Entry { comment: true, depth: 0, name: Seq::empty(), attributes: Seq::empty() }, floor);
}

/// While the last open element holds comments only, the next element may be
/// indented by anything.
pub proof fn any_floor<'a>(
    done: Seq<Entry>,
    at: Seq<int>,
    stack: Seq<Open<'a>>,
    floor: int,
    other: int,
)
    requires
        nested(done, at, stack, floor),
        quiet(region(done, at, at.len() - 1)),
    ensures
        nested(done, at, stack, other),
{
    let k = at.len() as int;
    assert forall|m: int| 0 <= m < k implies #[trigger] frame(done, at, stack, other, m) by {
        assert(frame(done, at, stack, floor, m));
        if m == k - 1 {
            quiet_is_sealed(region(done, at, m), other);
        }
    }
}

/// A comment goes to the last open element as a placeholder.
pub proof fn comment_step<'a>(
    done: Seq<Entry>,
    at: Seq<int>,
    stack: Seq<Open<'a>>,
    after: Seq<Open<'a>>,
    c: Entry,
    floor: int,
)
    requires
        nested(done, at, stack, floor),
        quiet(region(done, at, at.len() - 1)),
        c.comment,
        after.len() == stack.len(),
        forall|m: int| 0 <= m < stack.len() - 1 ==> after[m] == stack[m],
        after.last().depth == stack.last().depth,
        after.last().element@.name == stack.last().element@.name,
        after.last().element@.attributes == stack.last().element@.attributes,
        after.last().element@.children == stack.last().element@.children.push(placeholder()),
    ensures
        nested(done.push(c), at, after, floor),
        quiet(region(done.push(c), at, at.len() - 1)),
{
    let k = at.len() as int;
    let done2 = done.push(c);
    assert forall|m: int| 0 <= m < k implies #[trigger] frame(done2, at, after, floor, m) by {
        assert(frame(done, at, stack, floor, m));
        if m >= 1 {
            assert(frame(done, at, stack, floor, m - 1));
        }
        assert forall|j: int| at[m] < j < done2.len() implies descends(
            #[trigger] done2[j],
            level(after, m) + 1,
        ) by {
            if j < done.len() {
                assert(done2[j] == done[j]);
            }
        }
        if m < k - 1 {
            assert(frame(done, at, stack, floor, m + 1));
            assert(region(done2, at, m) =~= region(done, at, m));
        } else {
            assert(region(done2, at, m) =~= region(done, at, m).push(c));
            forest_of_comments(region(done, at, m), c, floor);
            assert(quiet(region(done2, at, m)));
            quiet_is_sealed(region(done2, at, m), floor);
        }
    }
    assert(frame(done, at, stack, floor, k - 1));
    assert(region(done2, at, k - 1) =~= region(done, at, k - 1).push(c));
}

/// An element that is indented deeper than the last open element opens
/// under it.
pub proof fn open_step<'a>(
    done: Seq<Entry>,
    at: Seq<int>,
    stack: Seq<Open<'a>>,
    o: Open<'a>,
    y: Entry,
    floor: int,
)
    requires
        nested(done, at, stack, y.depth),
        level(stack, at.len() - 1) < y.depth,
        opens(o, y),
        o.element@.children == Seq::<ElementView>::empty(),
    ensures
        nested(done.push(y), at.push(done.len() as int), stack.push(o), floor),
        quiet(region(done.push(y), at.push(done.len() as int), at.len() as int)),
{
    let k = at.len() as int;
    let n = done.len() as int;
    let done2 = done.push(y);
    let at2 = at.push(n);
    let stack2 = stack.push(o);
    assert(region(done2, at2, k) =~= Seq::<Entry>::empty());
    assert forall|m: int| 0 <= m < k + 1 implies #[trigger] frame(done2, at2, stack2, floor, m) by {
        if m < k {
            assert(frame(done, at, stack, y.depth, m));
            deepest_is_last(done, at, stack, y.depth, m);
            assert(level(stack2, m) == level(stack, m));
            assert forall|j: int| at2[m] < j < done2.len() implies descends(
                #[trigger] done2[j],
                level(stack2, m) + 1,
            ) by {
                if j < n {
                    assert(done2[j] == done[j]);
                }
            }
            if m + 1 < k {
                assert(frame(done, at, stack, y.depth, m + 1));
                assert(done2[at2[m + 1]] == done[at[m + 1]]);
            }
            assert(region(done2, at2, m) =~= region(done, at, m));
            if m >= 1 {
                assert(frame(done, at, stack, y.depth, m - 1));
                assert(level(stack2, m - 1) == level(stack, m - 1));
                assert(done2[at2[m]] == done[at[m]]);
            }
        } else {
            assert(frame(done, at, stack, y.depth, k - 1));
            assert(level(stack2, k - 1) == level(stack, k - 1));
            assert(forest(region(done2, at2, k)) =~= Seq::empty());
        }
    }
}

/// The last open element closes: it becomes the last child of the one
/// before it.
pub proof fn close_step<'a>(
    done: Seq<Entry>,
    at: Seq<int>,
    stack: Seq<Open<'a>>,
    after: Seq<Open<'a>>,
    floor: int,
)
    requires
        nested(done, at, stack, floor),
        at.len() >= 2,
        floor <= level(stack, at.len() - 1),
        after.len() == stack.len() - 1,
        forall|m: int| 0 <= m < stack.len() - 2 ==> after[m] == stack[m],
        after.last().depth == stack[stack.len() - 2].depth,
        after.last().element@.name == stack[stack.len() - 2].element@.name,
        after.last().element@.attributes == stack[stack.len() - 2].element@.attributes,
        after.last().element@.children == stack[stack.len() - 2].element@.children.push(
            stack.last().element@,
        ),
    ensures
        nested(done, at.drop_last(), after, floor),
{
    let k = at.len() as int;
    let at2 = at.drop_last();
    assert(frame(done, at, stack, floor, k - 1));
    assert(frame(done, at, stack, floor, k - 2));
    let e = done[at[k - 1]];
    let u = region(done, at, k - 2);
    let v = region(done, at, k - 1);
    assert forall|j: int| 0 <= j < v.len() implies descends(#[trigger] v[j], e.depth + 1) by {
        assert(v[j] == done[at[k - 1] + 1 + j]);
    }
    forest_of_tree(e, v, floor);
    forest_split(u, seq![e] + v, e.depth);
    sealed_concat(u, seq![e] + v, e.depth, floor);
    assert(region(done, at2, k - 2) =~= u + (seq![e] + v));
    assert(stack.last().element@ == node(e, forest(v)));
    assert forall|m: int| 0 <= m < k - 1 implies #[trigger] frame(done, at2, after, floor, m) by {
        assert(frame(done, at, stack, floor, m));
        if m >= 1 {
            assert(frame(done, at, stack, floor, m - 1));
            assert(level(after, m - 1) == level(stack, m - 1));
        }
        assert(level(after, m) == level(stack, m));
        if m < k - 2 {
            assert(frame(done, at, stack, floor, m + 1));
            assert(region(done, at2, m) =~= region(done, at, m));
            assert(after[m] == stack[m]);
            assert(bound(done, at2, m, floor) == bound(done, at, m, floor));
        } else {
            assert(after[m] == after.last());
            assert(forest(u).push(node(e, forest(v))) =~= forest(u) + seq![node(e, forest(v))]);
            assert(after[m].element@.children == forest(region(done, at2, m)));
            assert(bound(done, at2, m, floor) == floor);
            assert(sealed(region(done, at2, m), floor));
        }
    }
}

} // verus!
