//! Properties of the rules that hold of every board.

use vstd::prelude::*;
use crate::disc::{Place, Player};
use crate::rules::{
    after_place, captured, captures, cell_index, count, count_in, discs, flipped, is_dir,
    legal, look, on_run, place_repeated, ray, ray_in_field, ray_index, run_to, start_layout,
    turned_in,
};

verus! {

/// The starting board holds two discs of each side and 60 empty cells.
pub proof fn lemma_start_counts()
    ensures
        count(start_layout(), Place::Black) == 2,
        count(start_layout(), Place::White) == 2,
        count(start_layout(), Place::Void) == 60,
{
    reveal_with_fuel(count_in, 65);
}

/// An occupied cell is never a legal move, for either side.
pub proof fn lemma_occupied_not_legal(b: Seq<Place>, p: Player, x: int, y: int)
    requires
        look(b, x, y) != Place::Void,
    ensures
        !legal(b, p, x, y),
{
}

/// Trying an illegal move any number of times leaves the board as it was.
pub proof fn lemma_rejection_is_stable(b: Seq<Place>, p: Player, x: int, y: int, times: nat)
    requires
        !legal(b, p, x, y),
    ensures
        place_repeated(b, p, x, y, times) == b,
    decreases times,
{
    if times > 0 {
        lemma_rejection_is_stable(b, p, x, y, (times - 1) as nat);
    }
}

/// When a disc of `p` at `(x, y)` captures in direction `(dx, dy)`, the walk
/// from `(x, y)` in that direction meets one or more enemy discs and then a
/// disc of `p`, all on the board, before any empty cell or the edge; the
/// result is the number of enemy discs met.
pub proof fn lemma_capture_walk(b: Seq<Place>, p: Player, x: int, y: int, dx: int, dy: int) -> (n:
    int)
    requires
        b.len() == 64,
        captures(b, p, x, y, dx, dy),
    ensures
        n >= 1,
        forall|k: int|
            1 <= k <= n ==> ray_in_field(x, y, dx, dy, k) && b[#[trigger] ray_index(
                x,
                y,
                dx,
                dy,
                k,
            )] == p.spec_enemy().spec_place(),
        ray_in_field(x, y, dx, dy, n + 1),
        b[ray_index(x, y, dx, dy, n + 1)] == p.spec_place(),
{
    let n = choose|n: int| run_to(b, p, x, y, dx, dy, n);
    assert forall|k: int| 1 <= k <= n implies ray_in_field(x, y, dx, dy, k) && b[#[trigger] ray_index(
        x,
        y,
        dx,
        dy,
        k,
    )] == p.spec_enemy().spec_place() by {
        assert(ray(b, x, y, dx, dy, k) == p.spec_enemy().spec_place());
    }
    assert(ray(b, x, y, dx, dy, n + 1) == p.spec_place());
    n
}

/// Counting over a board in which only the cell `o` went from empty to `p`
/// and only enemy discs changed otherwise, to discs of `p`.
proof fn lemma_counts_after(b: Seq<Place>, a: Seq<Place>, p: Player, o: int, n: int)
    requires
        b.len() == 64,
        a.len() == 64,
        0 <= o < 64,
        0 <= n <= 64,
        b[o] == Place::Void,
        a[o] == p.spec_place(),
        forall|i: int|
            0 <= i < 64 && i != o ==> #[trigger] a[i] == b[i] || (b[i]
                == p.spec_enemy().spec_place() && a[i] == p.spec_place()),
    ensures
        count_in(a, p.spec_place(), n) == count_in(b, p.spec_place(), n) + (if o < n {
            1nat
        } else {
            0nat
        }) + turned_in(b, a, n),
        count_in(a, p.spec_enemy().spec_place(), n) + turned_in(b, a, n) == count_in(
            b,
            p.spec_enemy().spec_place(),
            n,
        ),
        count_in(a, Place::Void, n) + (if o < n {
            1nat
        } else {
            0nat
        }) == count_in(b, Place::Void, n),
    decreases n,
{
    if n > 0 {
        lemma_counts_after(b, a, p, o, n - 1);
        assert(a[n - 1] == b[n - 1] || n - 1 == o || (b[n - 1] == p.spec_enemy().spec_place() && a[n
            - 1] == p.spec_place()));
    }
}

/// A legal move adds one disc of `p` and turns `captured` enemy discs into
/// discs of `p`: the total number of discs grows by exactly one. An illegal
/// move changes no count.
pub proof fn lemma_place_counts(b: Seq<Place>, p: Player, x: int, y: int)
    requires
        b.len() == 64,
    ensures
        legal(b, p, x, y) ==> {
            let a = after_place(b, p, x, y);
            &&& count(a, p.spec_place()) == count(b, p.spec_place()) + 1 + captured(b, p, x, y)
            &&& count(a, p.spec_enemy().spec_place()) + captured(b, p, x, y) == count(
                b,
                p.spec_enemy().spec_place(),
            )
            &&& discs(a) == discs(b) + 1
        },
        !legal(b, p, x, y) ==> after_place(b, p, x, y) == b && captured(b, p, x, y) == 0,
{
    let a = after_place(b, p, x, y);
    if legal(b, p, x, y) {
        let o = cell_index(x, y);
        assert forall|i: int|
            0 <= i < 64 && i != o implies #[trigger] a[i] == b[i] || (b[i]
                == p.spec_enemy().spec_place() && a[i] == p.spec_place()) by {
            if flipped(b, p, x, y, i) {
                let (dx, dy) = choose|dx: int, dy: int|
                    is_dir(dx, dy) && #[trigger] on_run(b, p, x, y, dx, dy, i);
                let (n, k) = choose|n: int, k: int|
                    run_to(b, p, x, y, dx, dy, n) && 1 <= k <= n && ray_index(x, y, dx, dy, k)
                        == i;
                assert(ray(b, x, y, dx, dy, k) == p.spec_enemy().spec_place());
            }
        }
        lemma_counts_after(b, a, p, o, 64);
        if p == Player::Black {
            assert(discs(a) == discs(b) + 1);
        } else {
            assert(discs(a) == discs(b) + 1);
        }
    } else {
        lemma_turned_none(b, 64);
    }
}

/// A board compared with itself has no turned discs.
proof fn lemma_turned_none(b: Seq<Place>, n: int)
    ensures
        turned_in(b, b, n) == 0,
    decreases n,
{
    if n > 0 {
        lemma_turned_none(b, n - 1);
    }
}

} // verus!
