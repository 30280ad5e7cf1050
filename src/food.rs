//! Food placement: a free cell drawn at random, with a scan of the board as
//! the fallback once enough draws have missed.

use vstd::prelude::*;

use crate::board::Board;
use crate::geometry::{adjacent, cell_in_bounds, Point};
use crate::state::{cell_free, lemma_add_food, lemma_free_cell_exists};

verus! {

/// Relies on rand::random: a value drawn from the thread-local generator.
/// Nothing is promised of the value.
pub assume_specification<T>[ rand::random::<T> ]() -> (r: T)
    where
        rand::distributions::Standard: rand::distributions::Distribution<T>,
;

/// How many random draws `place_food` makes before it scans the board.
pub const MAX_ATTEMPTS: u32 = 64;

/// How many food items a new board of `w` by `h` cells starts with: one
/// less than one for every 150 cells, and none on a board of under 300.
pub open spec fn initial_food_count(w: int, h: int) -> int {
    if w * h / 150 >= 1 {
        w * h / 150 - 1
    } else {
        0
    }
}

/// The cell that the raw draws `rx` and `ry` stand for on a board of `width`
/// columns and `height` rows.
pub fn cell_from_random(rx: u32, ry: u32, width: u32, height: u32) -> (p: Point)
    requires
        width > 0,
        height > 0,
    ensures
        p.x == rx % width,
        p.y == ry % height,
{
    Point { x: rx % width, y: ry % height }
}

impl Board {
    /// A cell of the board drawn at random.
    pub fn create_random_cell(&self) -> (p: Point)
        requires
            self.xmax > 0,
            self.ymax > 0,
        ensures
            p.x < self.xmax,
            p.y < self.ymax,
    {
        let rx: u32 = rand::random::<u32>();
        let ry: u32 = rand::random::<u32>();
        cell_from_random(rx, ry, self.xmax, self.ymax)
    }

    /// The first free cell in row-major order, or `None` where every cell of
    /// the board is taken.
    pub fn first_free_cell(&self) -> (r: Option<Point>)
        ensures
            r is Some <==> self.has_free_cell(),
            r matches Some(p) ==> self.is_free(p),
    {
        let mut y: u32 = 0;
        while y < self.ymax
            invariant
                y <= self.ymax,
                forall|q: Point| q.y < y ==> !#[trigger] self.is_free(q),
            decreases self.ymax - y,
        {
            let mut x: u32 = 0;
            while x < self.xmax
                invariant
                    y < self.ymax,
                    x <= self.xmax,
                    forall|q: Point| q.y < y ==> !#[trigger] self.is_free(q),
                    forall|q: Point| q.y == y && q.x < x ==> !#[trigger] self.is_free(q),
                decreases self.xmax - x,
            {
                let p = Point { x, y };
                if self.is_free_cell(p) {
                    return Some(p);
                }
                x = x + 1;
            }
            y = y + 1;
        }
        None
    }

    /// A free cell for a new food item: random draws first, each uniform over
    /// the whole board, then a scan. `None` only where no cell is free.
    pub fn place_food(&self) -> (r: Option<Point>)
        requires
            self.wf(),
        ensures
            r is Some <==> self.has_free_cell(),
            r matches Some(p) ==> self.is_free(p),
    {
        proof {
            // the head lies on the board, so the board is not empty
            assert(cell_in_bounds(self.snake@[0], self.xmax as int, self.ymax as int));
        }
        let mut attempts: u32 = 0;
        while attempts < MAX_ATTEMPTS
            invariant
                self.xmax > 0,
                self.ymax > 0,
            decreases MAX_ATTEMPTS - attempts,
        {
            let p = self.create_random_cell();
            if self.is_free_cell(p) {
                return Some(p);
            }
            attempts = attempts + 1;
        }
        self.first_free_cell()
    }

    /// Adds a food item on a free cell, where there is one.
    pub fn add_new_food(&mut self)
        requires
            old(self).wf(),
        ensures
            final(self).wf(),
            final(self).xmax == old(self).xmax,
            final(self).ymax == old(self).ymax,
            final(self).snake@ == old(self).snake@,
            old(self).has_free_cell() ==> final(self).foods@.drop_last() == old(self).foods@
                && final(self).foods@.len() == old(self).foods@.len() + 1 && old(self).is_free(
                final(self).foods@.last(),
            ),
            !old(self).has_free_cell() ==> final(self).foods@ == old(self).foods@,
    {
        match self.place_food() {
            Some(p) => {
                self.foods.push(p);
                assert(self.foods@.drop_last() =~= old(self).foods@);
                proof {
                    lemma_add_food(
                        self.xmax as int,
                        self.ymax as int,
                        self.snake@,
                        old(self).foods@,
                        p,
                    );
                }
            },
            None => {},
        }
    }

    /// A new board of `xmax` columns and `ymax` rows: the snake on (2, 3)
    /// with its second cell on (2, 2), and `initial_food_count` food items on
    /// free cells. `None` where the board is too small to hold that snake.
    pub fn initialize(xmax: u32, ymax: u32) -> (r: Option<Board>)
        ensures
            r is Some <==> xmax >= 3 && ymax >= 4,
            r matches Some(b) ==> {
                &&& b.wf()
                &&& b.xmax == xmax
                &&& b.ymax == ymax
                &&& b.snake@ == seq![Point { x: 2, y: 3 }, Point { x: 2, y: 2 }]
                &&& b.foods@.len() == initial_food_count(xmax as int, ymax as int)
            },
    {
        if xmax < 3 || ymax < 4 {
            return None;
        }
        let mut board = Board { xmax, ymax, snake: Vec::new(), foods: Vec::new() };
        board.snake.push(Point { x: 2, y: 3 });
        board.snake.push(Point { x: 2, y: 2 });
        let ghost snake = board.snake@;
        assert(snake == seq![Point { x: 2, y: 3 }, Point { x: 2, y: 2 }]);
        assert(board.wf()) by {
            assert(board.foods@.len() == 0);
            assert(adjacent(snake[0], snake[1]));
        }
        assert((xmax as int) * (ymax as int) <= u64::MAX) by (nonlinear_arith)
            requires
                xmax <= u32::MAX,
                ymax <= u32::MAX,
        ;
        let cells: u64 = xmax as u64 * ymax as u64;
        // one food item for every 150 cells, less one
        let num_food: u64 = cells / 150;
        let mut i: u64 = 1;
        while i < num_food
            invariant
                board.wf(),
                xmax >= 3,
                ymax >= 4,
                board.xmax == xmax,
                board.ymax == ymax,
                board.snake@ == snake,
                snake.len() == 2,
                cells == xmax as int * ymax as int,
                num_food == cells / 150,
                1 <= i,
                i <= num_food || i == 1,
                board.foods@.len() == i - 1,
            decreases num_food - i,
        {
            proof {
                assert(cells >= 12) by (nonlinear_arith)
                    requires
                        cells == xmax as int * ymax as int,
                        xmax >= 3,
                        ymax >= 4,
                ;
                lemma_free_cell_exists(
                    xmax as int,
                    ymax as int,
                    board.snake@,
                    board.foods@,
                );
                let p = choose|p: Point|
                    cell_free(xmax as int, ymax as int, board.snake@, board.foods@, p);
                assert(board.is_free(p));
            }
            board.add_new_food();
            i = i + 1;
        }
        Some(board)
    }
}

} // verus!
