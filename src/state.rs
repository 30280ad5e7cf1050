//! The board's invariant over plain sequences of cells, and the facts about
//! how the moves of a tick preserve it.

use vstd::prelude::*;

use vstd::set_lib::{lemma_int_range, lemma_len_subset, set_int_range};

use crate::geometry::{adjacent, cell_in_bounds, Point};

verus! {

/// Whether `p` lies on a `w` by `h` board and holds neither a cell of the
/// snake `s` nor a food cell of `f`.
pub open spec fn cell_free(w: int, h: int, s: Seq<Point>, f: Seq<Point>, p: Point) -> bool {
    cell_in_bounds(p, w, h) && !s.contains(p) && !f.contains(p)
}

/// The invariant of a `w` by `h` board with snake `s` (head first) and food
/// cells `f`: a snake of at least two distinct cells on the board, each
/// adjacent to the next, and distinct food cells on the board that the snake
/// does not cover.
pub open spec fn state_wf(w: int, h: int, s: Seq<Point>, f: Seq<Point>) -> bool {
    &&& s.len() >= 2
    &&& s.no_duplicates()
    &&& f.no_duplicates()
    &&& forall|i: int| 0 <= i < s.len() ==> cell_in_bounds(#[trigger] s[i], w, h)
    &&& forall|i: int| 0 <= i < f.len() ==> cell_in_bounds(#[trigger] f[i], w, h)
    &&& forall|i: int| 0 <= i < s.len() - 1 ==> adjacent(#[trigger] s[i], s[i + 1])
    &&& forall|i: int, j: int|
        0 <= i < s.len() && 0 <= j < f.len() ==> #[trigger] s[i] != #[trigger] f[j]
}

/// Putting a food cell adjacent to the head in front of the snake, and taking
/// it out of the food list, keeps the invariant and the free cells.
pub proof fn lemma_grow(w: int, h: int, s: Seq<Point>, f: Seq<Point>, p: Point)
    requires
        state_wf(w, h, s, f),
        f.contains(p),
        adjacent(p, s[0]),
    ensures
        ({
            let s2 = seq![p] + s;
            let f2 = f.remove(f.index_of(p));
            &&& state_wf(w, h, s2, f2)
            &&& forall|q: Point| cell_free(w, h, s2, f2, q) == cell_free(w, h, s, f, q)
        }),
{
    let s2 = seq![p] + s;
    let k = f.index_of(p);
    let f2 = f.remove(k);
    assert(f[k] == p);
    assert(!s.contains(p)) by {
        if s.contains(p) {
            let i = choose|i: int| 0 <= i < s.len() && s[i] == p;
            assert(s[i] != f[k]);
        }
    }
    assert forall|q: Point| f2.contains(q) <==> f.contains(q) && q != p by {
        if f.contains(q) && q != p {
            let j = choose|j: int| 0 <= j < f.len() && f[j] == q;
            if j < k {
                assert(f2[j] == q);
            } else {
                assert(f2[j - 1] == q);
            }
        }
    }
    assert forall|q: Point| s2.contains(q) <==> s.contains(q) || q == p by {
        if s.contains(q) {
            let j = choose|j: int| 0 <= j < s.len() && s[j] == q;
            assert(s2[j + 1] == q);
        }
        if q == p {
            assert(s2[0] == q);
        }
    }
    assert forall|i: int| 0 < i < s2.len() implies #[trigger] s2[i] == s[i - 1] by {}
    assert forall|i: int, j: int|
        0 <= i < s2.len() && 0 <= j < f2.len() implies #[trigger] s2[i] != #[trigger] f2[j] by {
        assert(f2.contains(f2[j]));
        if i > 0 {
            assert(f.contains(f2[j]));
        }
    }
    assert forall|i: int| 0 <= i < s2.len() - 1 implies adjacent(#[trigger] s2[i], s2[i + 1]) by {}
    assert forall|i: int| 0 <= i < s2.len() implies cell_in_bounds(#[trigger] s2[i], w, h) by {
        if i == 0 {
            assert(cell_in_bounds(f[k], w, h));
        }
    }
    assert forall|i: int| 0 <= i < f2.len() implies cell_in_bounds(#[trigger] f2[i], w, h) by {
        if i >= k {
            assert(f2[i] == f[i + 1]);
        }
    }
    assert forall|i: int, j: int| 0 <= i < j < s2.len() implies s2[i] != s2[j] by {
        if i == 0 {
            assert(s.contains(s2[j]));
        }
    }
    assert forall|i: int, j: int| 0 <= i < j < f2.len() implies f2[i] != f2[j] by {
        let i0 = if i < k {
            i
        } else {
            i + 1
        };
        let j0 = if j < k {
            j
        } else {
            j + 1
        };
        assert(f2[i] == f[i0]);
        assert(f2[j] == f[j0]);
    }
}

/// Putting a free cell adjacent to the head in front of the snake and
/// dropping the tail keeps the invariant.
pub proof fn lemma_move(w: int, h: int, s: Seq<Point>, f: Seq<Point>, p: Point)
    requires
        state_wf(w, h, s, f),
        cell_free(w, h, s, f, p),
        adjacent(p, s[0]),
    ensures
        state_wf(w, h, seq![p] + s.drop_last(), f),
{
    let s2 = seq![p] + s.drop_last();
    assert forall|i: int| 0 < i < s2.len() implies #[trigger] s2[i] == s[i - 1] by {}
    assert forall|i: int, j: int|
        0 <= i < s2.len() && 0 <= j < f.len() implies #[trigger] s2[i] != #[trigger] f[j] by {
        if i == 0 {
            assert(f.contains(f[j]));
        }
    }
    assert forall|i: int| 0 <= i < s2.len() - 1 implies adjacent(#[trigger] s2[i], s2[i + 1]) by {}
    assert forall|i: int| 0 <= i < s2.len() implies cell_in_bounds(#[trigger] s2[i], w, h) by {}
    assert forall|i: int, j: int| 0 <= i < j < s2.len() implies s2[i] != s2[j] by {
        if i == 0 {
            assert(s.contains(s2[j]));
        }
    }
}

/// Adding a free cell at the end of the food list keeps the invariant.
pub proof fn lemma_add_food(w: int, h: int, s: Seq<Point>, f: Seq<Point>, p: Point)
    requires
        state_wf(w, h, s, f),
        cell_free(w, h, s, f, p),
    ensures
        state_wf(w, h, s, f.push(p)),
{
    let f2 = f.push(p);
    assert forall|i: int, j: int| 0 <= i < j < f2.len() implies f2[i] != f2[j] by {
        if j == f2.len() - 1 {
            assert(f.contains(f2[i]));
        }
    }
    assert forall|i: int, j: int|
        0 <= i < s.len() && 0 <= j < f2.len() implies #[trigger] s[i] != #[trigger] f2[j] by {
        if j == f2.len() - 1 {
            assert(s.contains(s[i]));
        }
    }
}

/// The number of a cell in row-major order on a board `w` columns wide.
pub open spec fn cell_index(w: int, p: Point) -> int {
    p.y * w + p.x
}

/// A board with fewer snake and food cells than cells has a free cell.
pub proof fn lemma_free_cell_exists(w: int, h: int, s: Seq<Point>, f: Seq<Point>)
    requires
        state_wf(w, h, s, f),
        w <= u32::MAX,
        h <= u32::MAX,
        s.len() + f.len() < w * h,
    ensures
        exists|p: Point| cell_free(w, h, s, f, p),
{
    let occupied = s + f;
    let numbers = occupied.map_values(|p: Point| cell_index(w, p));
    assert(w > 0) by {
        assert(cell_in_bounds(s[0], w, h));
    }
    if forall|p: Point| !cell_free(w, h, s, f, p) {
        assert forall|i: int| #[trigger] set_int_range(0, w * h).contains(i) implies numbers.to_set().contains(i) by {
            let x = i % w;
            let y = i / w;
            assert(0 <= x < w && 0 <= y < h && y * w + x == i) by (nonlinear_arith)
                requires
                    0 <= i < w * h,
                    w > 0,
                    x == i % w,
                    y == i / w,
            ;
            let p = Point { x: x as u32, y: y as u32 };
            assert(cell_in_bounds(p, w, h));
            assert(!cell_free(w, h, s, f, p));
            let j = if s.contains(p) {
                choose|j: int| 0 <= j < s.len() && s[j] == p
            } else {
                let k = choose|k: int| 0 <= k < f.len() && f[k] == p;
                s.len() + k
            };
            assert(occupied[j] == p);
            assert(numbers[j] == i);
            assert(numbers.contains(i));
        }
        lemma_int_range(0, w * h);
        numbers.lemma_cardinality_of_set();
        lemma_len_subset(set_int_range(0, w * h), numbers.to_set());
        assert(false);
    }
}

} // verus!
