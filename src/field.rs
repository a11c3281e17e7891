//! The executable board.

use vstd::prelude::*;
use crate::disc::{Place, Player};
use crate::lemmas::{lemma_compass_index, lemma_first_stop, lemma_ray_frame, lemma_ray_positions, lemma_run_unique};
use crate::rules::{
    after_place, along, can_move, captures, cell_index, compass_dx, compass_dy, count, count_in,
    empty_layout, flipped, in_field, is_dir, legal, look, on_run, ray, ray_in_field, ray_index,
    run_to, start_layout,
};

verus! {

/// Width and height of the board.
pub const FIELD_SIZE: i8 = 8;

/// An 8x8 board. Its view is the sequence of its 64 cells, row by row.
pub struct Field {
    fields: [Place; 64],
}

impl View for Field {
    type V = Seq<Place>;

    closed spec fn view(&self) -> Seq<Place> {
        self.fields@
    }
}

/// The compass step with index `e` in the order in which moves are applied.
fn compass(e: usize) -> (r: (i8, i8))
    requires
        e < 8,
    ensures
        r.0 as int == compass_dx(e as int),
        r.1 as int == compass_dy(e as int),
{
    if e == 0 {
        (0, 1)
    } else if e == 1 {
        (1, 0)
    } else if e == 2 {
        (1, 1)
    } else if e == 3 {
        (1, -1)
    } else if e == 4 {
        (-1, 1)
    } else if e == 5 {
        (-1, 0)
    } else if e == 6 {
        (0, -1)
    } else {
        (-1, -1)
    }
}

impl Field {
    /// Every board has 64 cells.
    pub proof fn lemma_len(&self)
        ensures
            self@.len() == 64,
    {
    }

    /// A board with every cell empty.
    pub fn new() -> (r: Field)
        ensures
            r@ == empty_layout(),
    {
        let r = Field { fields: [Place::Void; 64] };
        assert(r@ =~= empty_layout());
        r
    }

    /// Puts the four starting discs on an otherwise empty board.
    pub fn start(&mut self)
        ensures
            final(self)@ == start_layout(),
    {
        let mut cells = [Place::Void; 64];
        cells[27] = Place::Black;
        cells[36] = Place::Black;
        cells[35] = Place::White;
        cells[28] = Place::White;
        self.fields = cells;
        assert(self@ =~= start_layout());
    }

    pub fn is_in_field(x: i8, y: i8) -> (r: bool)
        ensures
            r == in_field(x as int, y as int),
    {
        x >= 0 && x < FIELD_SIZE && y >= 0 && y < FIELD_SIZE
    }

    /// The content of the cell `(x, y)`.
    pub fn at(&self, x: i8, y: i8) -> (r: Place)
        requires
            in_field(x as int, y as int),
        ensures
            r == look(self@, x as int, y as int),
    {
        self.fields[(y as usize) * 8 + (x as usize)]
    }

    fn set(&mut self, place: Place, x: i8, y: i8)
        requires
            in_field(x as int, y as int),
        ensures
            final(self)@ == old(self)@.update(cell_index(x as int, y as int), place),
    {
        self.fields[(y as usize) * 8 + (x as usize)] = place;
    }
    /// Whether a disc of `p` at `(x, y)` captures in direction `(dx, dy)`:
    /// walking away from `(x, y)`, one or more enemy discs come before a disc
    /// of `p`, with no empty cell or edge in between.
    fn scan_captures(&self, p: Player, x: i8, y: i8, dx: i8, dy: i8) -> (r: bool)
        requires
            in_field(x as int, y as int),
            is_dir(dx as int, dy as int),
        ensures
            r == captures(self@, p, x as int, y as int, dx as int, dy as int),
    {
        let ghost b = self@;
        let ghost xi = x as int;
        let ghost yi = y as int;
        let ghost dxi = dx as int;
        let ghost dyi = dy as int;
        let mut found = false;
        let mut cx: i8 = x;
        let mut cy: i8 = y;
        let ghost mut k: int = 0;
        loop
            invariant
                b == self@,
                xi == x as int,
                yi == y as int,
                dxi == dx as int,
                dyi == dy as int,
                in_field(xi, yi),
                is_dir(dxi, dyi),
                0 <= k,
                cx as int == along(xi, dxi, k),
                cy as int == along(yi, dyi, k),
                in_field(cx as int, cy as int),
                found == (k >= 1),
                forall|j: int|
                    1 <= j <= k ==> #[trigger] ray(b, xi, yi, dxi, dyi, j)
                        == p.spec_enemy().spec_place(),
            decreases 8 - k,
        {
            cx = cx + dx;
            cy = cy + dy;
            proof {
                k = k + 1;
            }
            if !Field::is_in_field(cx, cy) {
                proof {
                    lemma_first_stop(b, p, xi, yi, dxi, dyi, k);
                }
                return false;
            }
            let pos = self.at(cx, cy);
            if pos == Place::Void {
                proof {
                    lemma_first_stop(b, p, xi, yi, dxi, dyi, k);
                }
                return false;
            }
            if pos == p.place() {
                proof {
                    lemma_first_stop(b, p, xi, yi, dxi, dyi, k);
                }
                return found;
            }
            found = true;
        }
    }

    /// Whether `p` may move to `(x, y)`. A position off the board or an
    /// occupied cell is never a legal move.
    pub fn is_able_to_place(&self, p: Player, x: i8, y: i8) -> (r: bool)
        ensures
            r == legal(self@, p, x as int, y as int),
    {
        if !Field::is_in_field(x, y) {
            return false;
        }
        if self.at(x, y) != Place::Void {
            return false;
        }
        let mut e: usize = 0;
        while e < 8
            invariant
                e <= 8,
                in_field(x as int, y as int),
                look(self@, x as int, y as int) == Place::Void,
                forall|f: int|
                    0 <= f < e ==> !#[trigger] captures(
                        self@,
                        p,
                        x as int,
                        y as int,
                        compass_dx(f),
                        compass_dy(f),
                    ),
            decreases 8 - e,
        {
            let (dx, dy) = compass(e);
            if self.scan_captures(p, x, y, dx, dy) {
                assert(is_dir(dx as int, dy as int) && captures(self@, p, x as int, y as int, dx as int, dy as int));
                return true;
            }
            e = e + 1;
        }
        proof {
            assert forall|dx: int, dy: int| is_dir(dx, dy) implies !captures(
                self@,
                p,
                x as int,
                y as int,
                dx,
                dy,
            ) by {
                let f = lemma_compass_index(dx, dy);
                assert(!captures(self@, p, x as int, y as int, compass_dx(f), compass_dy(f)));
            }
        }
        false
    }
    /// Whether `p` has a legal move anywhere on the board.
    pub fn is_able_to_place_anywhere(&self, p: Player) -> (r: bool)
        ensures
            r == can_move(self@, p),
    {
        let mut x: i8 = 0;
        while x < FIELD_SIZE
            invariant
                0 <= x <= 8,
                forall|a: int, c: int| 0 <= a < x ==> !#[trigger] legal(self@, p, a, c),
            decreases 8 - x,
        {
            let mut y: i8 = 0;
            while y < FIELD_SIZE
                invariant
                    0 <= x < 8,
                    0 <= y <= 8,
                    forall|a: int, c: int| 0 <= a < x ==> !#[trigger] legal(self@, p, a, c),
                    forall|c: int| 0 <= c < y ==> !#[trigger] legal(self@, p, x as int, c),
                decreases 8 - y,
            {
                if self.at(x, y) == Place::Void && self.is_able_to_place(p, x, y) {
                    return true;
                }
                y = y + 1;
            }
            x = x + 1;
        }
        false
    }

    /// The number of discs of `p` on the board.
    pub fn count_of(&self, p: Player) -> (r: usize)
        ensures
            r == count(self@, p.spec_place()),
    {
        let place = p.place();
        let mut n: usize = 0;
        let mut i: usize = 0;
        while i < 64
            invariant
                i <= 64,
                n == count_in(self@, place, i as int),
                n <= i,
            decreases 64 - i,
        {
            if self.fields[i] == place {
                n = n + 1;
            }
            i = i + 1;
        }
        n
    }
    /// Turns over the enemy discs that a disc of `p` at `(x, y)` captures in
    /// direction `(dx, dy)`; nothing changes when that direction captures
    /// nothing.
    fn reverse_direction(&mut self, p: Player, x: i8, y: i8, dx: i8, dy: i8)
        requires
            in_field(x as int, y as int),
            is_dir(dx as int, dy as int),
        ensures
            forall|i: int|
                0 <= i < 64 ==> final(self)@[i] == (if on_run(
                    old(self)@,
                    p,
                    x as int,
                    y as int,
                    dx as int,
                    dy as int,
                    i,
                ) {
                    p.spec_place()
                } else {
                    old(self)@[i]
                }),
    {
        let ghost b = self@;
        let ghost xi = x as int;
        let ghost yi = y as int;
        let ghost dxi = dx as int;
        let ghost dyi = dy as int;
        if !self.scan_captures(p, x, y, dx, dy) {
            return;
        }
        let ghost n = choose|n: int| run_to(b, p, xi, yi, dxi, dyi, n);
        let own = p.place();
        let mut cx: i8 = x + dx;
        let mut cy: i8 = y + dy;
        let ghost mut k: int = 1;
        loop
            invariant
                xi == x as int,
                yi == y as int,
                dxi == dx as int,
                dyi == dy as int,
                in_field(xi, yi),
                is_dir(dxi, dyi),
                own == p.spec_place(),
                run_to(b, p, xi, yi, dxi, dyi, n),
                1 <= k <= n + 1,
                cx as int == along(xi, dxi, k),
                cy as int == along(yi, dyi, k),
                self@.len() == 64,
                forall|i: int|
                    0 <= i < 64 ==> self@[i] == (if exists|j: int|
                        1 <= j < k && #[trigger] ray_index(xi, yi, dxi, dyi, j) == i {
                        own
                    } else {
                        b[i]
                    }),
            ensures
                k == n + 1,
                self@.len() == 64,
                forall|i: int|
                    0 <= i < 64 ==> self@[i] == (if exists|j: int|
                        1 <= j < k && #[trigger] ray_index(xi, yi, dxi, dyi, j) == i {
                        own
                    } else {
                        b[i]
                    }),
            decreases n + 1 - k,
        {
            proof {
                if k <= n {
                    assert(ray(b, xi, yi, dxi, dyi, k) == p.spec_enemy().spec_place());
                }
                assert(ray_in_field(xi, yi, dxi, dyi, k));
                let ik = ray_index(xi, yi, dxi, dyi, k);
                if exists|j: int| 1 <= j < k && #[trigger] ray_index(xi, yi, dxi, dyi, j) == ik {
                    let j = choose|j: int|
                        1 <= j < k && #[trigger] ray_index(xi, yi, dxi, dyi, j) == ik;
                    assert(ray(b, xi, yi, dxi, dyi, j) == p.spec_enemy().spec_place());
                    lemma_ray_positions(xi, yi, dxi, dyi, j, dxi, dyi, k);
                }
            }
            let pos = self.at(cx, cy);
            if pos == own {
                break;
            }
            self.set(own, cx, cy);
            cx = cx + dx;
            cy = cy + dy;
            proof {
                k = k + 1;
            }
        }
        proof {
            assert forall|i: int| 0 <= i < 64 implies on_run(b, p, xi, yi, dxi, dyi, i) == (exists|j: int|
                1 <= j < k && #[trigger] ray_index(xi, yi, dxi, dyi, j) == i) by {
                if on_run(b, p, xi, yi, dxi, dyi, i) {
                    let (n2, k2) = choose|n2: int, k2: int|
                        run_to(b, p, xi, yi, dxi, dyi, n2) && 1 <= k2 <= n2 && ray_index(
                            xi,
                            yi,
                            dxi,
                            dyi,
                            k2,
                        ) == i;
                    lemma_run_unique(b, p, xi, yi, dxi, dyi, n, n2);
                }
            }
        }
    }
    /// Moves for `p` at `(x, y)` if that is legal: the target cell takes a
    /// disc of `p`, and every enemy run it captures, in each of the eight
    /// directions, is turned over. An illegal move changes nothing and
    /// returns false.
    pub fn place(&mut self, p: Player, x: i8, y: i8) -> (r: bool)
        ensures
            r == legal(old(self)@, p, x as int, y as int),
            final(self)@ == after_place(old(self)@, p, x as int, y as int),
    {
        if !self.is_able_to_place(p, x, y) {
            return false;
        }
        let ghost b = self@;
        let ghost xi = x as int;
        let ghost yi = y as int;
        let own = p.place();
        self.set(own, x, y);
        let mut e: usize = 0;
        while e < 8
            invariant
                e <= 8,
                xi == x as int,
                yi == y as int,
                in_field(xi, yi),
                own == p.spec_place(),
                b.len() == 64,
                self@.len() == 64,
                forall|i: int|
                    0 <= i < 64 ==> self@[i] == (if i == cell_index(xi, yi) || exists|f: int|
                        0 <= f < e && #[trigger] on_run(
                            b,
                            p,
                            xi,
                            yi,
                            compass_dx(f),
                            compass_dy(f),
                            i,
                        ) {
                        own
                    } else {
                        b[i]
                    }),
            decreases 8 - e,
        {
            let (dx, dy) = compass(e);
            let ghost dxi = dx as int;
            let ghost dyi = dy as int;
            let ghost cur = self@;
            proof {
                assert forall|k: int| k >= 1 implies #[trigger] ray(cur, xi, yi, dxi, dyi, k) == ray(
                    b,
                    xi,
                    yi,
                    dxi,
                    dyi,
                    k,
                ) by {
                    if ray_in_field(xi, yi, dxi, dyi, k) {
                        let i = ray_index(xi, yi, dxi, dyi, k);
                        assert(ray_index(xi, yi, dxi, dyi, 0) == cell_index(xi, yi));
                        if i == cell_index(xi, yi) {
                            lemma_ray_positions(xi, yi, dxi, dyi, k, dxi, dyi, 0);
                        }
                        if exists|f: int|
                            0 <= f < e && #[trigger] on_run(
                                b,
                                p,
                                xi,
                                yi,
                                compass_dx(f),
                                compass_dy(f),
                                i,
                            ) {
                            let f = choose|f: int|
                                0 <= f < e && #[trigger] on_run(
                                    b,
                                    p,
                                    xi,
                                    yi,
                                    compass_dx(f),
                                    compass_dy(f),
                                    i,
                                );
                            let fx = compass_dx(f);
                            let fy = compass_dy(f);
                            let (n2, k2) = choose|n2: int, k2: int|
                                run_to(b, p, xi, yi, fx, fy, n2) && 1 <= k2 <= n2 && ray_index(
                                    xi,
                                    yi,
                                    fx,
                                    fy,
                                    k2,
                                ) == i;
                            assert(ray(b, xi, yi, fx, fy, k2) == p.spec_enemy().spec_place());
                            lemma_ray_positions(xi, yi, dxi, dyi, k, fx, fy, k2);
                        }
                    }
                }
                lemma_ray_frame(cur, b, p, xi, yi, dxi, dyi);
            }
            self.reverse_direction(p, x, y, dx, dy);
            proof {
                assert forall|i: int| 0 <= i < 64 implies self@[i] == (if i == cell_index(xi, yi)
                    || exists|f: int|
                    0 <= f < e + 1 && #[trigger] on_run(
                        b,
                        p,
                        xi,
                        yi,
                        compass_dx(f),
                        compass_dy(f),
                        i,
                    ) {
                    own
                } else {
                    b[i]
                }) by {
                    assert(on_run(cur, p, xi, yi, dxi, dyi, i) == on_run(
                        b,
                        p,
                        xi,
                        yi,
                        compass_dx(e as int),
                        compass_dy(e as int),
                        i,
                    ));
                }
            }
            e = e + 1;
        }
        proof {
            assert forall|i: int| 0 <= i < 64 implies self@[i] == after_place(b, p, xi, yi)[i] by {
                if flipped(b, p, xi, yi, i) {
                    let (dx, dy) = choose|dx: int, dy: int|
                        is_dir(dx, dy) && #[trigger] on_run(b, p, xi, yi, dx, dy, i);
                    let f = lemma_compass_index(dx, dy);
                    assert(on_run(b, p, xi, yi, compass_dx(f), compass_dy(f), i));
                }
                if exists|f: int|
                    0 <= f < 8 && #[trigger] on_run(
                        b,
                        p,
                        xi,
                        yi,
                        compass_dx(f),
                        compass_dy(f),
                        i,
                    ) {
                    let f = choose|f: int|
                        0 <= f < 8 && #[trigger] on_run(
                            b,
                            p,
                            xi,
                            yi,
                            compass_dx(f),
                            compass_dy(f),
                            i,
                        );
                    assert(is_dir(compass_dx(f), compass_dy(f)));
                }
            }
            assert(self@ =~= after_place(b, p, xi, yi));
        }
        true
    }
}

} // verus!
