//! The board and the state machine that advances the snake by one tick.

use vstd::prelude::*;

use crate::state::{cell_free, lemma_add_food, lemma_grow, lemma_move, state_wf};
use crate::geometry::{
    adjacent, cell_in_bounds, direction_between, in_bounds, in_bounds_spec, lemma_direction_between,
    opposite, point_of, step, step_spec, travel_direction, Direction, Point,
};

verus! {

/// What a tick leaves behind: the game goes on, or it is over.
#[derive(Clone, Copy, Debug, PartialEq, Eq, Structural)]
pub enum Status {
    Continue,
    GameOver,
}

/// The board: its size, the snake (head first, tail last) and the food cells.
pub struct Board {
    pub xmax: u32,
    pub ymax: u32,
    pub snake: Vec<Point>,
    pub foods: Vec<Point>,
}

/// Whether `p` is one of the cells of `s`, found by comparing coordinates.
pub fn contains_point(s: &Vec<Point>, p: Point) -> (r: bool)
    ensures
        r == s@.contains(p),
{
    let mut i: usize = 0;
    while i < s.len()
        invariant
            i <= s.len(),
            forall|j: int| 0 <= j < i ==> s@[j] != p,
        decreases s.len() - i,
    {
        if s[i] == p {
            return true;
        }
        i = i + 1;
    }
    false
}

impl Board {
    /// Whether `p` lies on the board and holds neither snake nor food.
    pub open spec fn is_free(&self, p: Point) -> bool {
        cell_free(self.xmax as int, self.ymax as int, self.snake@, self.foods@, p)
    }

    /// Whether some cell of the board is free.
    pub open spec fn has_free_cell(&self) -> bool {
        exists|p: Point| self.is_free(p)
    }

    /// The board's invariant (see `state_wf`).
    pub open spec fn wf(&self) -> bool {
        state_wf(self.xmax as int, self.ymax as int, self.snake@, self.foods@)
    }

    /// The snake's head, its first cell.
    pub open spec fn head(&self) -> Point {
        self.snake@[0]
    }

    /// The direction in which the snake travels: from its second cell to its head.
    pub open spec fn travel(&self) -> Direction {
        direction_between(self.snake@[1], self.snake@[0])
    }

    /// The direction that a tick follows when `dir` is asked for: `dir`, unless
    /// it would lead back onto the snake's second cell; then the snake goes on
    /// in its direction of travel.
    pub open spec fn effective_direction(&self, dir: Direction) -> Direction {
        if step_spec(self.head(), dir) == (self.snake@[1].x as int, self.snake@[1].y as int) {
            self.travel()
        } else {
            dir
        }
    }

    /// The coordinates that the head moves to when `dir` is asked for.
    pub open spec fn candidate(&self, dir: Direction) -> (int, int) {
        step_spec(self.head(), self.effective_direction(dir))
    }

    /// Whether `after` is the food list once `eaten` is taken out of it and,
    /// where a free cell exists, one free cell is added at its end.
    pub open spec fn refilled(&self, eaten: Point, after: Seq<Point>) -> bool {
        let rest = self.foods@.remove(self.foods@.index_of(eaten));
        if self.has_free_cell() {
            &&& after.len() == rest.len() + 1
            &&& after.drop_last() == rest
            &&& self.is_free(after.last())
        } else {
            after == rest
        }
    }

    /// The effect of one tick in which `dir` is asked for: `next` is the board
    /// that it leaves and `r` what it reports.
    pub open spec fn advanced(&self, dir: Direction, next: Board, r: Status) -> bool {
        let c = self.candidate(dir);
        let p = point_of(c);
        &&& next.xmax == self.xmax
        &&& next.ymax == self.ymax
        &&& if !in_bounds_spec(c.0, c.1, self.xmax as int, self.ymax as int)
            || self.snake@.contains(p) {
            &&& r == Status::GameOver
            &&& next.snake@ == self.snake@
            &&& next.foods@ == self.foods@
        } else if self.foods@.contains(p) {
            &&& r == Status::Continue
            &&& next.snake@ == seq![p] + self.snake@
            &&& self.refilled(p, next.foods@)
        } else {
            &&& r == Status::Continue
            &&& next.snake@ == seq![p] + self.snake@.drop_last()
            &&& next.foods@ == self.foods@
        }
    }

    /// Whether `p` lies on the board and holds neither snake nor food.
    pub fn is_free_cell(&self, p: Point) -> (r: bool)
        ensures
            r == self.is_free(p),
    {
        p.x < self.xmax && p.y < self.ymax && !contains_point(&self.snake, p) && !contains_point(
            &self.foods,
            p,
        )
    }

    /// The cell one step from the head in direction `dir`, or `Err` where that
    /// step leaves the board.
    pub fn next_move(&self, dir: Direction) -> (r: Result<Point, ()>)
        requires
            self.wf(),
        ensures
            ({
                let c = step_spec(self.head(), dir);
                &&& r is Ok <==> in_bounds_spec(c.0, c.1, self.xmax as int, self.ymax as int)
                &&& r matches Ok(p) ==> p == point_of(c)
            }),
    {
        let head = self.snake[0];
        let (x, y) = step(head, dir);
        if in_bounds(x, y, self.xmax, self.ymax) {
            Ok(Point { x: x as u32, y: y as u32 })
        } else {
            Err(())
        }
    }

    /// Puts `point` in front of the head, keeping the tail: the snake grows.
    fn eat_food(&mut self, point: Point)
        ensures
            final(self).snake@ == seq![point] + old(self).snake@,
            final(self).foods@ == old(self).foods@,
            final(self).xmax == old(self).xmax,
            final(self).ymax == old(self).ymax,
    {
        self.snake.insert(0, point);
        assert(self.snake@ =~= seq![point] + old(self).snake@);
    }

    /// Puts `point` in front of the head and drops the tail.
    fn move_to(&mut self, point: Point)
        requires
            old(self).snake@.len() >= 1,
        ensures
            final(self).snake@ == seq![point] + old(self).snake@.drop_last(),
            final(self).foods@ == old(self).foods@,
            final(self).xmax == old(self).xmax,
            final(self).ymax == old(self).ymax,
    {
        self.snake.insert(0, point);
        self.snake.pop();
        assert(self.snake@ =~= seq![point] + old(self).snake@.drop_last());
    }

    /// Takes the food item at `point` out of the food list.
    fn remove_food(&mut self, point: Point)
        requires
            old(self).foods@.contains(point),
            old(self).foods@.no_duplicates(),
        ensures
            final(self).foods@ == old(self).foods@.remove(old(self).foods@.index_of(point)),
            final(self).snake@ == old(self).snake@,
            final(self).xmax == old(self).xmax,
            final(self).ymax == old(self).ymax,
    {
        let mut i: usize = 0;
        while i < self.foods.len() && self.foods[i] != point
            invariant
                i <= self.foods@.len(),
                self.foods@.contains(point),
                forall|j: int| 0 <= j < i ==> self.foods@[j] != point,
            decreases self.foods.len() - i,
        {
            i = i + 1;
        }
        let ghost k = self.foods@.index_of(point);
        assert(self.foods@[k] == point);
        assert(k == i);
        self.foods.remove(i);
    }

    /// One tick: the head moves one step in direction `dir`, or in the
    /// direction of travel where `dir` would turn the snake back onto itself.
    /// Leaving the board or running into the snake ends the game and changes
    /// nothing; a food cell is eaten and the snake grows; otherwise the snake
    /// moves and keeps its length.
    pub fn move_snake(&mut self, dir: Direction) -> (r: Status)
        requires
            old(self).wf(),
        ensures
            final(self).wf(),
            old(self).advanced(dir, *final(self), r),
    {
        let ghost start = *self;
        let head = self.snake[0];
        let neck = self.snake[1];
        let mut beginning = self.next_move(dir);
        if let Ok(p) = beginning {
            if p == neck {
                // turning back is ignored: the snake goes on straight
                beginning = self.next_move(travel_direction(neck, head));
            }
        }
        let point = match beginning {
            Ok(p) => p,
            Err(()) => {
                return Status::GameOver;
            },
        };
        assert(point == point_of(start.candidate(dir)));
        if contains_point(&self.snake, point) {
            return Status::GameOver;
        }
        proof {
            lemma_direction_between(neck, head);
            assert(adjacent(point, head));
        }
        if contains_point(&self.foods, point) {
            self.eat_food(point);
            self.remove_food(point);
            proof {
                lemma_grow(
                    self.xmax as int,
                    self.ymax as int,
                    start.snake@,
                    start.foods@,
                    point,
                );
                lemma_same_free_cells(start, *self);
            }
            self.add_new_food();
            return Status::Continue;
        }
        self.move_to(point);
        proof {
            lemma_move(self.xmax as int, self.ymax as int, start.snake@, start.foods@, point);
        }
        Status::Continue
    }
}

/// Every tick keeps the invariant: the snake's cells stay pairwise distinct
/// and each adjacent to the next, and no food cell lies under the snake.
pub proof fn lemma_tick_keeps_invariant(b: Board, dir: Direction, next: Board, r: Status)
    requires
        b.wf(),
        b.advanced(dir, next, r),
    ensures
        next.wf(),
        next.snake@.no_duplicates(),
        forall|i: int| 0 <= i < next.snake@.len() - 1 ==> adjacent(
            #[trigger] next.snake@[i],
            next.snake@[i + 1],
        ),
        forall|q: Point| next.snake@.contains(q) ==> !next.foods@.contains(q),
{
    let c = b.candidate(dir);
    let p = point_of(c);
    if in_bounds_spec(c.0, c.1, b.xmax as int, b.ymax as int) && !b.snake@.contains(p) {
        lemma_direction_between(b.snake@[1], b.snake@[0]);
        assert(adjacent(p, b.head()));
        let w = b.xmax as int;
        let h = b.ymax as int;
        if b.foods@.contains(p) {
            let rest = b.foods@.remove(b.foods@.index_of(p));
            lemma_grow(w, h, b.snake@, b.foods@, p);
            if b.has_free_cell() {
                let f = next.foods@.last();
                assert(next.foods@ == rest.push(f));
                lemma_add_food(w, h, next.snake@, rest, f);
            }
        } else {
            lemma_move(w, h, b.snake@, b.foods@, p);
        }
    }
    assert forall|q: Point| next.snake@.contains(q) implies !next.foods@.contains(q) by {
        let i = choose|i: int| 0 <= i < next.snake@.len() && next.snake@[i] == q;
        assert forall|j: int| 0 <= j < next.foods@.len() implies next.foods@[j] != q by {
            assert(next.snake@[i] != next.foods@[j]);
        }
    }
}

/// A tick whose head lands on a food cell grows the snake by one cell and,
/// where a free cell is left for the replacement, keeps the number of food
/// items: the eaten one goes and one new one comes.
pub proof fn lemma_tick_growth(b: Board, dir: Direction, next: Board, r: Status)
    requires
        b.wf(),
        b.advanced(dir, next, r),
        in_bounds_spec(b.candidate(dir).0, b.candidate(dir).1, b.xmax as int, b.ymax as int),
        b.foods@.contains(point_of(b.candidate(dir))),
    ensures
        r == Status::Continue,
        next.snake@.len() == b.snake@.len() + 1,
        next.snake@[0] == point_of(b.candidate(dir)),
        !next.foods@.contains(point_of(b.candidate(dir))),
        b.has_free_cell() ==> next.foods@.len() == b.foods@.len(),
{
    let p = point_of(b.candidate(dir));
    lemma_tick_keeps_invariant(b, dir, next, r);
    assert(b.snake@.len() > 0);
    let k = b.foods@.index_of(p);
    assert(b.foods@[k] == p);
    assert(!b.snake@.contains(p)) by {
        if b.snake@.contains(p) {
            let i = choose|i: int| 0 <= i < b.snake@.len() && b.snake@[i] == p;
            assert(b.snake@[i] != b.foods@[k]);
        }
    }
    assert(next.snake@[0] == p);
    assert(next.snake@.contains(p));
}

/// A tick whose head lands on a free cell keeps the snake's length: the new
/// head comes in front, the old tail goes, and the cell before the old tail
/// becomes the tail.
pub proof fn lemma_tick_move(b: Board, dir: Direction, next: Board, r: Status)
    requires
        b.wf(),
        b.advanced(dir, next, r),
        b.is_free(point_of(b.candidate(dir))),
        in_bounds_spec(b.candidate(dir).0, b.candidate(dir).1, b.xmax as int, b.ymax as int),
    ensures
        r == Status::Continue,
        next.snake@.len() == b.snake@.len(),
        next.snake@[0] == point_of(b.candidate(dir)),
        next.snake@.last() == b.snake@[b.snake@.len() - 2],
        !next.snake@.contains(b.snake@.last()),
        next.foods@ == b.foods@,
{
    let n = b.snake@.len();
    let t = b.snake@.last();
    let p = point_of(b.candidate(dir));
    assert(t == b.snake@[n - 1]);
    assert(b.snake@.contains(t));
    assert forall|i: int| 0 <= i < next.snake@.len() implies next.snake@[i] != t by {
        if i > 0 {
            assert(next.snake@[i] == b.snake@[i - 1]);
        }
    }
}

/// Asking for the direction opposite to the snake's direction of travel has
/// the same effect as asking for the direction of travel itself.
pub proof fn lemma_reversal_ignored(b: Board, next: Board, r: Status)
    requires
        b.wf(),
    ensures
        b.advanced(opposite(b.travel()), next, r) == b.advanced(b.travel(), next, r),
{
    lemma_direction_between(b.snake@[1], b.snake@[0]);
    assert(b.effective_direction(opposite(b.travel())) == b.travel());
    assert(b.effective_direction(b.travel()) == b.travel());
}

/// A head in the leftmost column that is asked to go left hits the wall:
/// the tick ends the game and leaves the board as it was.
pub proof fn lemma_left_wall(b: Board, next: Board, r: Status)
    requires
        b.wf(),
        b.head().x == 0,
        b.advanced(Direction::Left, next, r),
    ensures
        r == Status::GameOver,
        next.snake@ == b.snake@,
        next.foods@ == b.foods@,
{
}

/// Two boards of one size whose free cells are the same either both have a
/// free cell or neither has.
proof fn lemma_same_free_cells(a: Board, b: Board)
    requires
        forall|q: Point| a.is_free(q) == b.is_free(q),
    ensures
        a.has_free_cell() == b.has_free_cell(),
{
    if a.has_free_cell() {
        let q = choose|q: Point| a.is_free(q);
        assert(b.is_free(q));
    }
    if b.has_free_cell() {
        let q = choose|q: Point| b.is_free(q);
        assert(a.is_free(q));
    }
}

} // verus!
