//! The mathematical model of the board and of the game's rules.
//!
//! A board is a `Seq<Place>` of 64 cells in row-major order: the cell at
//! column `x` and row `y` has index `y * 8 + x`. Everything here is stated
//! over that sequence; the executable board in `field` is proved against it.

use vstd::prelude::*;
use crate::disc::{Place, Player};

verus! {

/// Whether `(x, y)` addresses a cell of the 8x8 board.
pub open spec fn in_field(x: int, y: int) -> bool {
    0 <= x < 8 && 0 <= y < 8
}

/// Row-major index of the cell `(x, y)`.
pub open spec fn cell_index(x: int, y: int) -> int {
    y * 8 + x
}

/// The content of `(x, y)`; a position off the board reads as empty.
pub open spec fn look(b: Seq<Place>, x: int, y: int) -> Place {
    if in_field(x, y) {
        b[cell_index(x, y)]
    } else {
        Place::Void
    }
}

/// One of the eight compass steps.
pub open spec fn is_dir(dx: int, dy: int) -> bool {
    -1 <= dx <= 1 && -1 <= dy <= 1 && !(dx == 0 && dy == 0)
}

/// The coordinate `k` steps of `dv` (one of -1, 0, 1) away from `v`.
pub open spec fn along(v: int, dv: int, k: int) -> int {
    if dv > 0 {
        v + k
    } else if dv < 0 {
        v - k
    } else {
        v
    }
}

/// The content of the cell `k` steps from `(x, y)` in direction `(dx, dy)`.
pub open spec fn ray(b: Seq<Place>, x: int, y: int, dx: int, dy: int, k: int) -> Place {
    look(b, along(x, dx, k), along(y, dy, k))
}

/// Whether the cell `k` steps from `(x, y)` in direction `(dx, dy)` is on the board.
pub open spec fn ray_in_field(x: int, y: int, dx: int, dy: int, k: int) -> bool {
    in_field(along(x, dx, k), along(y, dy, k))
}

/// The index of the cell `k` steps from `(x, y)` in direction `(dx, dy)`.
pub open spec fn ray_index(x: int, y: int, dx: int, dy: int, k: int) -> int {
    cell_index(along(x, dx, k), along(y, dy, k))
}

/// Walking from `(x, y)` in direction `(dx, dy)`, the `n >= 1` cells met first
/// hold the enemy's discs and the next one holds a disc of `p`.
pub open spec fn run_to(b: Seq<Place>, p: Player, x: int, y: int, dx: int, dy: int, n: int) -> bool {
    &&& 1 <= n
    &&& forall|k: int| 1 <= k <= n ==> #[trigger] ray(b, x, y, dx, dy, k) == p.spec_enemy().spec_place()
    &&& ray(b, x, y, dx, dy, n + 1) == p.spec_place()
}

/// A disc of `p` at `(x, y)` would capture in direction `(dx, dy)`.
pub open spec fn captures(b: Seq<Place>, p: Player, x: int, y: int, dx: int, dy: int) -> bool {
    exists|n: int| run_to(b, p, x, y, dx, dy, n)
}

/// `p` may move to `(x, y)`: the cell is on the board, empty, and a disc there
/// captures in at least one direction.
pub open spec fn legal(b: Seq<Place>, p: Player, x: int, y: int) -> bool {
    &&& in_field(x, y)
    &&& look(b, x, y) == Place::Void
    &&& exists|dx: int, dy: int| is_dir(dx, dy) && #[trigger] captures(b, p, x, y, dx, dy)
}

/// `p` has a legal move somewhere on the board.
pub open spec fn can_move(b: Seq<Place>, p: Player) -> bool {
    exists|x: int, y: int| #[trigger] legal(b, p, x, y)
}

/// Cell `i` lies on the enemy run that a disc of `p` at `(x, y)` captures in
/// direction `(dx, dy)`.
pub open spec fn on_run(b: Seq<Place>, p: Player, x: int, y: int, dx: int, dy: int, i: int) -> bool {
    exists|n: int, k: int|
        #![trigger run_to(b, p, x, y, dx, dy, n), ray_index(x, y, dx, dy, k)]
        run_to(b, p, x, y, dx, dy, n) && 1 <= k <= n && ray_index(x, y, dx, dy, k) == i
}

/// Cell `i` is turned over when `p` moves to `(x, y)`.
pub open spec fn flipped(b: Seq<Place>, p: Player, x: int, y: int, i: int) -> bool {
    exists|dx: int, dy: int| is_dir(dx, dy) && #[trigger] on_run(b, p, x, y, dx, dy, i)
}

/// The board after `p` tries to move to `(x, y)`: unchanged when the move is
/// illegal; otherwise the target and every captured disc belong to `p`.
pub open spec fn after_place(b: Seq<Place>, p: Player, x: int, y: int) -> Seq<Place> {
    if legal(b, p, x, y) {
        Seq::new(
            64,
            |i: int|
                if i == cell_index(x, y) || flipped(b, p, x, y, i) {
                    p.spec_place()
                } else {
                    b[i]
                },
        )
    } else {
        b
    }
}

/// The board after trying the same move `times` times in a row.
pub open spec fn place_repeated(b: Seq<Place>, p: Player, x: int, y: int, times: nat) -> Seq<Place>
    decreases times,
{
    if times == 0 {
        b
    } else {
        after_place(place_repeated(b, p, x, y, (times - 1) as nat), p, x, y)
    }
}

/// The number of cells among the first `n` that hold `q`.
pub open spec fn count_in(b: Seq<Place>, q: Place, n: int) -> nat
    decreases n,
{
    if n <= 0 {
        0
    } else {
        count_in(b, q, n - 1) + if b[n - 1] == q {
            1nat
        } else {
            0nat
        }
    }
}

/// The number of cells that hold `q`.
pub open spec fn count(b: Seq<Place>, q: Place) -> nat {
    count_in(b, q, b.len() as int)
}

/// The number of discs on the board.
pub open spec fn discs(b: Seq<Place>) -> nat {
    count(b, Place::Black) + count(b, Place::White)
}

/// Among the first `n` cells, how many held a disc in `b` that has another
/// content in `a`.
pub open spec fn turned_in(b: Seq<Place>, a: Seq<Place>, n: int) -> nat
    decreases n,
{
    if n <= 0 {
        0
    } else {
        turned_in(b, a, n - 1) + if b[n - 1] != Place::Void && b[n - 1] != a[n - 1] {
            1nat
        } else {
            0nat
        }
    }
}

/// The number of discs that a move of `p` to `(x, y)` turns over.
pub open spec fn captured(b: Seq<Place>, p: Player, x: int, y: int) -> nat {
    turned_in(b, after_place(b, p, x, y), 64)
}

/// The board with which every game begins.
pub open spec fn start_layout() -> Seq<Place> {
    Seq::new(
        64,
        |i: int|
            if i == cell_index(3, 3) || i == cell_index(4, 4) {
                Place::Black
            } else if i == cell_index(3, 4) || i == cell_index(4, 3) {
                Place::White
            } else {
                Place::Void
            },
    )
}

/// The board with no disc at all.
pub open spec fn empty_layout() -> Seq<Place> {
    Seq::new(64, |i: int| Place::Void)
}

/// The eight compass steps in the order in which moves are applied.
pub open spec fn compass_dx(e: int) -> int {
    if e == 0 {
        0
    } else if e == 1 || e == 2 || e == 3 {
        1
    } else if e == 4 || e == 5 || e == 7 {
        -1
    } else {
        0
    }
}

pub open spec fn compass_dy(e: int) -> int {
    if e == 0 || e == 2 || e == 4 {
        1
    } else if e == 1 || e == 5 {
        0
    } else {
        -1
    }
}

} // verus!
