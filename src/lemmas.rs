//! Facts about the model in `rules` that the board's proofs build on.

use vstd::prelude::*;
use crate::disc::{Place, Player};
use crate::rules::{along, captures, compass_dx, compass_dy, in_field, is_dir, on_run, ray, ray_in_field, ray_index, run_to};

verus! {

/// Two positions on rays from one origin coincide only at the same distance,
/// and, away from the origin, only on the same ray.
pub proof fn lemma_ray_positions(
    x: int,
    y: int,
    dx1: int,
    dy1: int,
    k1: int,
    dx2: int,
    dy2: int,
    k2: int,
)
    requires
        in_field(x, y),
        is_dir(dx1, dy1),
        is_dir(dx2, dy2),
        k1 >= 0,
        k2 >= 0,
        ray_in_field(x, y, dx1, dy1, k1),
        ray_in_field(x, y, dx2, dy2, k2),
        ray_index(x, y, dx1, dy1, k1) == ray_index(x, y, dx2, dy2, k2),
    ensures
        k1 == k2,
        k1 == 0 || (dx1 == dx2 && dy1 == dy2),
{
    let a1 = along(x, dx1, k1);
    let c1 = along(y, dy1, k1);
    let a2 = along(x, dx2, k2);
    let c2 = along(y, dy2, k2);
    assert(a1 == a2 && c1 == c2);
}

/// A walk from `(x, y)` whose first cell that is not the enemy's is at
/// distance `k` captures exactly when that cell holds a disc of `p` and at
/// least one enemy disc came before it.
pub proof fn lemma_first_stop(b: Seq<Place>, p: Player, x: int, y: int, dx: int, dy: int, k: int)
    requires
        k >= 1,
        forall|j: int| 1 <= j < k ==> #[trigger] ray(b, x, y, dx, dy, j) == p.spec_enemy().spec_place(),
        ray(b, x, y, dx, dy, k) != p.spec_enemy().spec_place(),
    ensures
        captures(b, p, x, y, dx, dy) == (k >= 2 && ray(b, x, y, dx, dy, k) == p.spec_place()),
        k >= 2 && ray(b, x, y, dx, dy, k) == p.spec_place() ==> run_to(b, p, x, y, dx, dy, k - 1),
{
    if k >= 2 && ray(b, x, y, dx, dy, k) == p.spec_place() {
        assert(run_to(b, p, x, y, dx, dy, k - 1));
    } else {
        assert forall|n: int| !run_to(b, p, x, y, dx, dy, n) by {
            if run_to(b, p, x, y, dx, dy, n) {
                if n >= k {
                    assert(ray(b, x, y, dx, dy, k) == p.spec_enemy().spec_place());
                } else if n + 1 < k {
                    assert(ray(b, x, y, dx, dy, n + 1) == p.spec_enemy().spec_place());
                }
            }
        }
    }
}

/// A capturing run has one length only.
pub proof fn lemma_run_unique(
    b: Seq<Place>,
    p: Player,
    x: int,
    y: int,
    dx: int,
    dy: int,
    n1: int,
    n2: int,
)
    requires
        run_to(b, p, x, y, dx, dy, n1),
        run_to(b, p, x, y, dx, dy, n2),
    ensures
        n1 == n2,
{
    if n1 < n2 {
        assert(ray(b, x, y, dx, dy, n1 + 1) == p.spec_enemy().spec_place());
    } else if n2 < n1 {
        assert(ray(b, x, y, dx, dy, n2 + 1) == p.spec_enemy().spec_place());
    }
}

/// Two boards that agree along a ray agree on what a move captures along it.
pub proof fn lemma_ray_frame(
    b1: Seq<Place>,
    b2: Seq<Place>,
    p: Player,
    x: int,
    y: int,
    dx: int,
    dy: int,
)
    requires
        forall|k: int| k >= 1 ==> #[trigger] ray(b1, x, y, dx, dy, k) == ray(b2, x, y, dx, dy, k),
    ensures
        forall|n: int| run_to(b1, p, x, y, dx, dy, n) == run_to(b2, p, x, y, dx, dy, n),
        captures(b1, p, x, y, dx, dy) == captures(b2, p, x, y, dx, dy),
        forall|i: int| on_run(b1, p, x, y, dx, dy, i) == on_run(b2, p, x, y, dx, dy, i),
{
    assert forall|n: int| run_to(b1, p, x, y, dx, dy, n) == run_to(b2, p, x, y, dx, dy, n) by {
        if n >= 1 {
            assert(ray(b1, x, y, dx, dy, n + 1) == ray(b2, x, y, dx, dy, n + 1));
            if run_to(b1, p, x, y, dx, dy, n) {
                assert forall|k: int| 1 <= k <= n implies #[trigger] ray(b2, x, y, dx, dy, k)
                    == p.spec_enemy().spec_place() by {
                    assert(ray(b1, x, y, dx, dy, k) == ray(b2, x, y, dx, dy, k));
                }
            }
            if run_to(b2, p, x, y, dx, dy, n) {
                assert forall|k: int| 1 <= k <= n implies #[trigger] ray(b1, x, y, dx, dy, k)
                    == p.spec_enemy().spec_place() by {
                    assert(ray(b1, x, y, dx, dy, k) == ray(b2, x, y, dx, dy, k));
                }
            }
        }
    }
    assert(captures(b1, p, x, y, dx, dy) == captures(b2, p, x, y, dx, dy));
}

/// Every compass step has a place in the table of directions.
pub proof fn lemma_compass_index(dx: int, dy: int) -> (e: int)
    requires
        is_dir(dx, dy),
    ensures
        0 <= e < 8,
        compass_dx(e) == dx,
        compass_dy(e) == dy,
{
    if dx == 0 && dy == 1 {
        0
    } else if dx == 1 && dy == 0 {
        1
    } else if dx == 1 && dy == 1 {
        2
    } else if dx == 1 && dy == -1 {
        3
    } else if dx == -1 && dy == 1 {
        4
    } else if dx == -1 && dy == 0 {
        5
    } else if dx == 0 && dy == -1 {
        6
    } else {
        7
    }
}

} // verus!
