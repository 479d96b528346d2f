//! Whose child a line becomes: the nearest element before it that is
//! indented less. This says in one sentence what the forest of some lines
//! says by recursion, and the two are proved to agree.

use vstd::prelude::*;
use crate::document::ElementView;
use crate::nesting::{descends, forest, node, run_len, run_len_bound, Entry};

verus! {

/// Whether the line `above` can hold the line `below`: it is an element,
/// and `below` is a comment or indented deeper.
pub open spec fn holds(above: Entry, below: Entry) -> bool {
    !above.comment && (below.comment || above.depth < below.depth)
}

/// The nearest line at or before `j` that can hold line `i`; -1 where there
/// is none.
pub open spec fn nearest(lines: Seq<Entry>, i: int, j: int) -> int
    decreases j + 1,
{
    if j < 0 {
        -1
    } else if holds(lines[j], lines[i]) {
        j
    } else {
        nearest(lines, i, j - 1)
    }
}

/// The line whose child line `i` becomes; -1 where it stays at the top.
pub open spec fn owner(lines: Seq<Entry>, i: int) -> int {
    nearest(lines, i, i - 1)
}

/// The number of elements in a tree.
pub open spec fn size(e: ElementView) -> nat
    decreases e,
{
    1 + total(e.children)
}

/// The number of elements in a forest.
pub open spec fn total(elements: Seq<ElementView>) -> nat
    decreases elements,
{
    if elements.len() == 0 {
        0
    } else {
        size(elements[0]) + total(elements.drop_first())
    }
}

/// For each element of a forest, in document order, the place of its parent
/// in that order. The first element has the place `first`, and the elements
/// at the top have the parent `above`.
pub open spec fn parents(elements: Seq<ElementView>, above: int, first: int) -> Seq<int>
    decreases elements,
{
    if elements.len() == 0 {
        Seq::empty()
    } else {
        seq![above] + parents(elements[0].children, first, first + 1) + parents(
            elements.drop_first(),
            above,
            first + size(elements[0]),
        )
    }
}

/// The place that stands for the owner `o` of a line, when the lines start
/// at the place `first` under the parent `above`.
pub open spec fn place(o: int, above: int, first: int) -> int {
    if o < 0 {
        above
    } else {
        first + o
    }
}

proof fn nearest_bound(lines: Seq<Entry>, i: int, j: int)
    requires
        -1 <= j < lines.len(),
    ensures
        -1 <= nearest(lines, i, j) <= j,
        nearest(lines, i, j) >= 0 ==> holds(lines[nearest(lines, i, j)], lines[i]),
    decreases j + 1,
{
    if j >= 0 && !holds(lines[j], lines[i]) {
        nearest_bound(lines, i, j - 1);
    }
}

/// Where no line up to `j` can hold line `i`, there is no nearest one, and
/// the other way round.
proof fn nearest_none(lines: Seq<Entry>, i: int, j: int)
    requires
        -1 <= j < lines.len(),
    ensures
        nearest(lines, i, j) == -1 <==> forall|k: int|
            0 <= k <= j ==> !holds(#[trigger] lines[k], lines[i]),
    decreases j + 1,
{
    if j >= 0 {
        nearest_none(lines, i, j - 1);
        nearest_bound(lines, i, j - 1);
        if holds(lines[j], lines[i]) {
        } else {
            if nearest(lines, i, j - 1) == -1 {
                assert forall|k: int| 0 <= k <= j implies !holds(#[trigger] lines[k], lines[i]) by {
                    if k < j {
                    }
                }
            }
        }
    }
}

/// The nearest holder of a line inside a part of the lines is the nearest
/// holder of all; where the part has none, it lies before the part.
proof fn nearest_in_part(lines: Seq<Entry>, k: int, hi: int, i: int, j: int)
    requires
        0 <= k <= i < hi <= lines.len(),
        k - 1 <= j < i,
    ensures
        nearest(lines, i, j) == if nearest(lines.subrange(k, hi), i - k, j - k) >= 0 {
            k + nearest(lines.subrange(k, hi), i - k, j - k)
        } else {
            nearest(lines, i, k - 1)
        },
    decreases j + 1,
{
    let part = lines.subrange(k, hi);
    if j >= k {
        assert(part[j - k] == lines[j]);
        assert(part[i - k] == lines[i]);
        if !holds(lines[j], lines[i]) {
            nearest_in_part(lines, k, hi, i, j - 1);
        }
    }
}

/// A forest has one element for each of its lines.
pub proof fn forest_size(lines: Seq<Entry>)
    ensures
        total(forest(lines)) == lines.len(),
    decreases lines.len(),
{
    if lines.len() == 0 {
    } else if lines[0].comment {
        let rest = lines.drop_first();
        forest_size(rest);
        let f = forest(lines);
        assert(f =~= seq![node(lines[0], Seq::empty())] + forest(rest));
        assert(f[0] == node(lines[0], Seq::empty()));
        assert(f.drop_first() =~= forest(rest));
        assert(f[0].children.len() == 0);
        assert(total(f[0].children) == 0);
        assert(size(f[0]) == 1);
    } else {
        let n = run_len(lines.drop_first(), lines[0].depth + 1);
        run_len_bound(lines.drop_first(), lines[0].depth + 1);
        let inner = lines.subrange(1, 1 + n);
        let rest = lines.subrange(1 + n, lines.len() as int);
        forest_size(inner);
        forest_size(rest);
        let f = forest(lines);
        assert(f =~= seq![node(lines[0], forest(inner))] + forest(rest));
        assert(f[0] == node(lines[0], forest(inner)));
        assert(f.drop_first() =~= forest(rest));
        assert(size(f[0]) == 1 + n);
    }
}

/// The lines of a run all descend below its floor, and the line after it
/// does not.
proof fn run_is_maximal(lines: Seq<Entry>, floor: int)
    ensures
        forall|j: int| 0 <= j < run_len(lines, floor) ==> descends(#[trigger] lines[j], floor),
        run_len(lines, floor) < lines.len() ==> !descends(lines[run_len(lines, floor)], floor),
    decreases lines.len(),
{
    run_len_bound(lines, floor);
    if lines.len() > 0 && descends(lines[0], floor) {
        let rest = lines.drop_first();
        run_is_maximal(rest, floor);
        run_len_bound(rest, floor);
        assert forall|j: int| 0 <= j < run_len(lines, floor) implies descends(
            #[trigger] lines[j],
            floor,
        ) by {
            if j > 0 {
                assert(lines[j] == rest[j - 1]);
            }
        }
        if run_len(lines, floor) < lines.len() {
            assert(lines[run_len(lines, floor)] == rest[run_len(rest, floor)]);
        }
    }
}

proof fn parents_of_forest(lines: Seq<Entry>, above: int, first: int)
    ensures
        parents(forest(lines), above, first) == Seq::new(
            lines.len(),
            |i: int| place(owner(lines, i), above, first),
        ),
    decreases lines.len(),
{
    let want = Seq::new(lines.len(), |i: int| place(owner(lines, i), above, first));
    let f = forest(lines);
    if lines.len() == 0 {
        assert(parents(f, above, first) =~= want);
    } else if lines[0].comment {
        let rest = lines.drop_first();
        parents_of_forest(rest, above, first + 1);
        assert(f =~= seq![node(lines[0], Seq::empty())] + forest(rest));
        assert(f[0] == node(lines[0], Seq::empty()));
        assert(f.drop_first() =~= forest(rest));
        assert(f[0].children.len() == 0);
        assert(total(f[0].children) == 0);
        assert(size(f[0]) == 1);
        assert(parents(f[0].children, first, first + 1) =~= Seq::<int>::empty());
        let tail = parents(forest(rest), above, first + 1);
        assert(parents(f, above, first) =~= seq![above] + tail);
        assert forall|i: int| 0 <= i < lines.len() implies (seq![above] + tail)[i] == want[i] by {
            if i > 0 {
                assert(lines.subrange(1, lines.len() as int) =~= rest);
                nearest_in_part(lines, 1, lines.len() as int, i, i - 1);
                assert(nearest(lines, i, -1) == -1);
                assert(nearest(lines, i, 0) == -1);
                nearest_bound(rest, i - 1, i - 2);
            } else {
                assert(nearest(lines, 0, -1) == -1);
            }
        }
        assert(parents(f, above, first) =~= want);
    } else {
        let floor = lines[0].depth + 1;
        let n = run_len(lines.drop_first(), floor);
        run_len_bound(lines.drop_first(), floor);
        run_is_maximal(lines.drop_first(), floor);
        let inner = lines.subrange(1, 1 + n);
        let rest = lines.subrange(1 + n, lines.len() as int);
        parents_of_forest(inner, first, first + 1);
        parents_of_forest(rest, above, first + 1 + n);
        forest_size(inner);
        assert(f =~= seq![node(lines[0], forest(inner))] + forest(rest));
        assert(f[0] == node(lines[0], forest(inner)));
        assert(f.drop_first() =~= forest(rest));
        assert(size(f[0]) == 1 + n);
        let below = parents(forest(inner), first, first + 1);
        let tail = parents(forest(rest), above, first + 1 + n);
        assert(parents(f, above, first) =~= seq![above] + below + tail);
        assert forall|i: int| 0 <= i < lines.len() implies (seq![above] + below + tail)[i]
            == want[i] by {
            if i == 0 {
                assert(nearest(lines, 0, -1) == -1);
            } else if 1 <= i <= n {
                nearest_in_part(lines, 1, 1 + n, i, i - 1);
                nearest_bound(inner, i - 1, i - 2);
                assert(lines[i] == lines.drop_first()[i - 1]);
                assert(holds(lines[0], lines[i]));
                assert(nearest(lines, i, 0) == 0);
            } else if i > n {
                nearest_in_part(lines, 1 + n, lines.len() as int, i, i - 1);
                let first_after = lines[1 + n];
                assert(first_after == lines.drop_first()[n]);
                assert(!descends(first_after, floor));
                nearest_bound(rest, i - 1 - n, i - 2 - n);
                if owner(rest, i - 1 - n) < 0 {
                    nearest_none(rest, i - 1 - n, i - 2 - n);
                    if i > 1 + n {
                        assert(rest[0] == first_after);
                        assert(rest[i - 1 - n] == lines[i]);
                        assert(!holds(rest[0], rest[i - 1 - n]));
                    }
                    nearest_none(lines, i, n);
                    assert forall|k: int| 0 <= k <= n implies !holds(
                        #[trigger] lines[k],
                        lines[i],
                    ) by {
                        if k > 0 {
                            assert(lines[k] == lines.drop_first()[k - 1]);
                        }
                    }
                }
            }
        }
        assert(parents(f, above, first) =~= want);
    }
}

/// Every line becomes a child of the nearest element before it that is
/// indented less, a comment of the nearest element before it, and a line
/// that has no such element stays at the top: numbered in document order,
/// the parent of each element of the forest is the owner of its line.
pub proof fn parent_is_nearest_shallower(lines: Seq<Entry>)
    ensures
        parents(forest(lines), -1, 0) == Seq::new(lines.len(), |i: int| owner(lines, i)),
{
    parents_of_forest(lines, -1, 0);
    assert(Seq::new(lines.len(), |i: int| place(owner(lines, i), -1, 0)) =~= Seq::new(
        lines.len(),
        |i: int| owner(lines, i),
    )) by {
        assert forall|i: int| 0 <= i < lines.len() implies place(owner(lines, i), -1, 0) == owner(
            lines,
            i,
        ) by {
            nearest_bound(lines, i, i - 1);
        }
    }
}

} // verus!
