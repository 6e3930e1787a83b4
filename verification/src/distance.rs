//! Distance over the board in steps between neighbouring cells, and what the search in rings
//! has to do with it.

use vstd::prelude::*;
use crate::board::BoardView;
use crate::coordinate::{CubeDirection, Hex};
use crate::field::FieldType;
use crate::search::{lemma_expand_keeps, lemma_wave_bounds, lemma_wave_tidy};

verus! {

/// Whether `h` lies one step from `g` in one of the first `n` directions of the clockwise
/// order.
pub open spec fn adjacent_within(g: Hex, h: Hex, n: int) -> bool {
    exists|i: int| 0 <= i < n && h == g.plus(#[trigger] CubeDirection::at(i).unit())
}

/// Whether `h` lies one step from `g`.
pub open spec fn adjacent(g: Hex, h: Hex) -> bool {
    adjacent_within(g, h, 6)
}

/// Whether `h` lies one step from one of the cells `cells[from..upto]`.
pub open spec fn next_to(cells: Seq<Hex>, from: int, upto: int, h: Hex) -> bool {
    exists|j: int| from <= j < upto && adjacent(#[trigger] cells[j], h)
}

impl BoardView {
    /// Whether `n` steps lead from `origin` to `h`, each to a neighbouring cell on the board.
    pub open spec fn reaches(self, origin: Hex, h: Hex, n: nat) -> bool
        decreases n,
    {
        if n == 0 {
            h == origin
        } else {
            &&& self.on_board(h)
            &&& exists|i: int|
                0 <= i < 6 && self.reaches(
                    origin,
                    h.minus(#[trigger] CubeDirection::at(i).unit()),
                    (n - 1) as nat,
                )
        }
    }

    /// Whether `n` steps or fewer lead from `origin` to `h`.
    pub open spec fn within(self, origin: Hex, h: Hex, n: nat) -> bool
        decreases n,
    {
        self.reaches(origin, h, n) || (n > 0 && self.within(origin, h, (n - 1) as nat))
    }

    /// Whether `n` is the distance of `h` from `origin`: `n` steps lead there and fewer do
    /// not.
    pub open spec fn at_distance(self, origin: Hex, h: Hex, n: nat) -> bool {
        self.reaches(origin, h, n) && (n > 0 ==> !self.within(origin, h, (n - 1) as nat))
    }

    /// Whether `h` is one of the fields of type `t` nearest to `origin`: it has a distance
    /// from `origin`, and no field of type `t` has a smaller one.
    pub open spec fn is_nearest(self, origin: Hex, t: FieldType, h: Hex) -> bool {
        &&& self.has_type(h, t)
        &&& exists|n: nat|
            {
                &&& #[trigger] self.at_distance(origin, h, n)
                &&& forall|g: Hex, m: nat|
                    m < n && #[trigger] self.at_distance(origin, g, m) ==> !self.has_type(g, t)
            }
    }
}

/// One step on from a cell that `m` steps or fewer lead to, `m + 1` steps or fewer lead.
pub proof fn lemma_within_step(b: BoardView, origin: Hex, g: Hex, h: Hex, m: nat)
    requires
        b.within(origin, g, m),
        b.on_board(h),
        adjacent(g, h),
    ensures
        b.within(origin, h, m + 1),
    decreases m,
{
    let i = choose|i: int| 0 <= i < 6 && h == g.plus(#[trigger] CubeDirection::at(i).unit());
    assert(h.minus(CubeDirection::at(i).unit()) == g);
    if b.reaches(origin, g, m) {
        assert(b.reaches(origin, h, m + 1));
    } else {
        lemma_within_step(b, origin, g, h, (m - 1) as nat);
    }
}

/// What a look around `g` in the first `n` directions leaves in the list: what was there,
/// and the cells on the board one step from `g` in one of these directions.
pub proof fn lemma_discover_around_contains(b: BoardView, seen: Seq<Hex>, g: Hex, n: nat, h: Hex)
    ensures
        b.discover_around(seen, g, n).contains(h) <==> seen.contains(h) || (b.on_board(h)
            && adjacent_within(g, h, n as int)),
    decreases n,
{
    if n > 0 {
        lemma_discover_around_contains(b, seen, g, (n - 1) as nat, h);
        let before = b.discover_around(seen, g, (n - 1) as nat);
        let after = b.discover_around(seen, g, n);
        let x = g.plus(CubeDirection::at(n - 1).unit());
        if b.on_board(x) && !before.contains(x) {
            assert(after == before.push(x));
            assert(after[after.len() - 1] == x);
            assert forall|k: int| 0 <= k < before.len() implies after[k] == before[k] by {}
            if before.contains(h) {
                let k = choose|k: int| 0 <= k < before.len() && before[k] == h;
                assert(after[k] == h);
            }
        } else {
            assert(after == before);
        }
        if adjacent_within(g, h, n as int) && !adjacent_within(g, h, n - 1) {
            let i = choose|i: int|
                0 <= i < n && h == g.plus(#[trigger] CubeDirection::at(i).unit());
            assert(i == n - 1);
            assert(h == x);
        }
        if adjacent_within(g, h, n - 1) {
            let i = choose|i: int|
                0 <= i < n - 1 && h == g.plus(#[trigger] CubeDirection::at(i).unit());
            assert(0 <= i < n && h == g.plus(CubeDirection::at(i).unit()));
        }
        if h == x {
            assert(0 <= n - 1 < n && h == g.plus(CubeDirection::at(n - 1).unit()));
        }
    } else {
        assert(!adjacent_within(g, h, 0));
    }
}

/// What looks around the cells `seen[from..upto]` leave in the list: what was there, and
/// the cells on the board one step from one of them.
pub proof fn lemma_expand_contains(b: BoardView, seen: Seq<Hex>, from: int, upto: int, h: Hex)
    requires
        0 <= from,
        upto <= seen.len(),
    ensures
        b.expand(seen, from, upto).contains(h) <==> seen.contains(h) || (b.on_board(h)
            && next_to(seen, from, upto, h)),
    decreases upto - from,
{
    if upto > from {
        lemma_expand_contains(b, seen, from, upto - 1, h);
        lemma_discover_around_contains(b, b.expand(seen, from, upto - 1), seen[upto - 1], 6, h);
        if next_to(seen, from, upto, h) && !next_to(seen, from, upto - 1, h) {
            let j = choose|j: int| from <= j < upto && adjacent(#[trigger] seen[j], h);
            assert(j == upto - 1);
        }
        if next_to(seen, from, upto - 1, h) {
            let j = choose|j: int| from <= j < upto - 1 && adjacent(#[trigger] seen[j], h);
            assert(from <= j < upto && adjacent(seen[j], h));
        }
        if adjacent(seen[upto - 1], h) {
            assert(from <= upto - 1 < upto && adjacent(seen[upto - 1], h));
        }
    } else {
        assert(!next_to(seen, from, upto, h));
    }
}

/// The search in rings goes by distance: after `k` rings beyond the origin it has seen
/// exactly the cells that `k` steps or fewer lead to, and the ring discovered last holds
/// exactly the cells at distance `k`.
pub proof fn lemma_wave_distance(b: BoardView, origin: Hex, k: nat)
    ensures
        forall|h: Hex| #[trigger] b.wave(origin, k).seen.contains(h) <==> b.within(origin, h, k),
        forall|h: Hex| #[trigger]
            b.wave(origin, k).ring().contains(h) <==> b.at_distance(origin, h, k),
    decreases k,
{
    let w = b.wave(origin, k);
    if k == 0 {
        assert(w.ring() =~= w.seen);
        assert(w.seen[0] == origin);
    } else {
        let p = b.wave(origin, (k - 1) as nat);
        let len = p.seen.len() as int;
        lemma_wave_distance(b, origin, (k - 1) as nat);
        lemma_wave_bounds(b, origin, (k - 1) as nat);
        lemma_wave_bounds(b, origin, k);
        lemma_wave_tidy(b, origin, k);
        lemma_expand_keeps(b, p.seen, p.start, len);
        assert forall|h: Hex| #[trigger] w.seen.contains(h) <==> b.within(origin, h, k) by {
            lemma_expand_contains(b, p.seen, p.start, len, h);
            if b.on_board(h) && next_to(p.seen, p.start, len, h) {
                let j = choose|j: int| p.start <= j < len && adjacent(#[trigger] p.seen[j], h);
                let g = p.seen[j];
                assert(p.ring()[j - p.start] == g);
                assert(p.ring().contains(g));
                let i = choose|i: int|
                    0 <= i < 6 && h == g.plus(#[trigger] CubeDirection::at(i).unit());
                assert(h.minus(CubeDirection::at(i).unit()) == g);
                assert(b.reaches(origin, h, k));
            }
            if b.within(origin, h, k) && !p.seen.contains(h) {
                assert(b.reaches(origin, h, k));
                let i = choose|i: int|
                    0 <= i < 6 && b.reaches(
                        origin,
                        h.minus(#[trigger] CubeDirection::at(i).unit()),
                        (k - 1) as nat,
                    );
                let g = h.minus(CubeDirection::at(i).unit());
                assert(h == g.plus(CubeDirection::at(i).unit()));
                assert(adjacent(g, h));
                assert(p.seen.contains(g));
                if p.ring().contains(g) {
                    let r = choose|r: int| 0 <= r < p.ring().len() && p.ring()[r] == g;
                    assert(p.seen[p.start + r] == g);
                    assert(next_to(p.seen, p.start, len, h));
                } else {
                    assert(!b.at_distance(origin, g, (k - 1) as nat));
                    lemma_within_step(b, origin, g, h, (k - 2) as nat);
                    assert(false);
                }
            }
        }
        assert forall|h: Hex| #[trigger]
            w.ring().contains(h) <==> b.at_distance(origin, h, k) by {
            if w.ring().contains(h) {
                let r = choose|r: int| 0 <= r < w.ring().len() && w.ring()[r] == h;
                assert(w.seen[len + r] == h);
                assert(w.seen.contains(h));
                if p.seen.contains(h) {
                    let m = choose|m: int| 0 <= m < len && p.seen[m] == h;
                    assert(w.seen[m] == h);
                    assert(false);
                }
            }
            if b.at_distance(origin, h, k) {
                assert(w.seen.contains(h));
                let m = choose|m: int| 0 <= m < w.seen.len() && w.seen[m] == h;
                if m < len {
                    assert(p.seen[m] == h);
                    assert(p.seen.contains(h));
                    assert(false);
                }
                assert(w.ring()[m - len] == h);
            }
        }
    }
}

/// The cells picked from a list by the type of their field are the cells of the list with a
/// field of that type.
pub proof fn lemma_matching_contains(b: BoardView, cells: Seq<Hex>, t: FieldType, h: Hex)
    ensures
        b.matching(cells, t).contains(h) <==> cells.contains(h) && b.has_type(h, t),
    decreases cells.len(),
{
    if cells.len() > 0 {
        let rest = cells.drop_last();
        lemma_matching_contains(b, rest, t, h);
        let picked = b.matching(rest, t);
        if cells.contains(h) {
            let i = choose|i: int| 0 <= i < cells.len() && cells[i] == h;
            if i < rest.len() {
                assert(rest[i] == h);
            }
        }
        if rest.contains(h) {
            let i = choose|i: int| 0 <= i < rest.len() && rest[i] == h;
            assert(cells[i] == h);
        }
        assert(cells[cells.len() - 1] == cells.last());
        if b.has_type(cells.last(), t) {
            let all = picked.push(cells.last());
            assert(all[all.len() - 1] == cells.last());
            if picked.contains(h) {
                let i = choose|i: int| 0 <= i < picked.len() && picked[i] == h;
                assert(all[i] == h);
            }
        }
    }
}

/// Picking by type from a list that names no cell twice gives a list that names none twice.
pub proof fn lemma_matching_no_duplicates(b: BoardView, cells: Seq<Hex>, t: FieldType)
    requires
        cells.no_duplicates(),
    ensures
        b.matching(cells, t).no_duplicates(),
    decreases cells.len(),
{
    if cells.len() > 0 {
        let rest = cells.drop_last();
        lemma_matching_no_duplicates(b, rest, t);
        lemma_matching_contains(b, rest, t, cells.last());
        if rest.contains(cells.last()) {
            let i = choose|i: int| 0 <= i < rest.len() && rest[i] == cells.last();
            assert(cells[i] == cells[cells.len() - 1]);
        }
    }
}

/// Where some ring holds a field of the type, some ring is the first to hold one.
pub proof fn lemma_least_hit(b: BoardView, origin: Hex, t: FieldType, n: nat) -> (k: nat)
    requires
        b.hits(origin, t, n).len() > 0,
    ensures
        k <= n,
        b.first_hit(origin, t, k),
    decreases n,
{
    if forall|j: nat| j < n ==> (#[trigger] b.hits(origin, t, j)).len() == 0 {
        n
    } else {
        let j = choose|j: nat| j < n && (#[trigger] b.hits(origin, t, j)).len() != 0;
        lemma_least_hit(b, origin, t, j)
    }
}

/// The search finds the nearest fields of the type, each once: a cell is in its result
/// exactly when its field is of the type, it has a distance from the origin, and no field
/// of the type has a smaller one.
pub proof fn lemma_nearest_is_nearest(b: BoardView, origin: Hex, t: FieldType)
    ensures
        b.nearest(origin, t).no_duplicates(),
        forall|h: Hex| #[trigger] b.nearest(origin, t).contains(h) <==> b.is_nearest(origin, t, h),
{
    let found = b.nearest(origin, t);
    if exists|k: nat| b.first_hit(origin, t, k) {
        let k = choose|k: nat| b.first_hit(origin, t, k);
        let ring = b.wave(origin, k).ring();
        lemma_wave_distance(b, origin, k);
        lemma_wave_tidy(b, origin, k);
        lemma_wave_bounds(b, origin, k);
        lemma_matching_no_duplicates(b, ring, t);
        assert forall|h: Hex| #[trigger] found.contains(h) <==> b.is_nearest(origin, t, h) by {
            lemma_matching_contains(b, ring, t, h);
            if found.contains(h) {
                assert(b.at_distance(origin, h, k));
                assert forall|g: Hex, m: nat|
                    m < k && #[trigger] b.at_distance(origin, g, m) implies !b.has_type(g, t) by {
                    lemma_wave_distance(b, origin, m);
                    lemma_matching_contains(b, b.wave(origin, m).ring(), t, g);
                    assert(b.hits(origin, t, m).len() == 0);
                    if b.has_type(g, t) {
                        assert(b.hits(origin, t, m).contains(g));
                    }
                }
            }
            if b.is_nearest(origin, t, h) {
                let n = choose|n: nat|
                    {
                        &&& #[trigger] b.at_distance(origin, h, n)
                        &&& forall|g: Hex, m: nat|
                            m < n && #[trigger] b.at_distance(origin, g, m) ==> !b.has_type(g, t)
                    };
                lemma_wave_distance(b, origin, n);
                lemma_matching_contains(b, b.wave(origin, n).ring(), t, h);
                assert(b.hits(origin, t, n).contains(h));
                if k < n {
                    let g = b.hits(origin, t, k)[0];
                    lemma_matching_contains(b, ring, t, g);
                    assert(b.hits(origin, t, k).contains(g));
                    assert(b.at_distance(origin, g, k));
                    assert(false);
                }
                if n < k {
                    assert(b.hits(origin, t, n).len() == 0);
                    assert(false);
                }
            }
        }
    } else {
        assert forall|h: Hex| #[trigger] found.contains(h) <==> b.is_nearest(origin, t, h) by {
            if b.is_nearest(origin, t, h) {
                let n = choose|n: nat| #[trigger] b.at_distance(origin, h, n);
                lemma_wave_distance(b, origin, n);
                lemma_matching_contains(b, b.wave(origin, n).ring(), t, h);
                assert(b.hits(origin, t, n).contains(h));
                let k = lemma_least_hit(b, origin, t, n);
                assert(false);
            }
        }
    }
}

/// A type that no field of the board has is found nowhere.
pub proof fn lemma_absent_type_is_not_found(b: BoardView, origin: Hex, t: FieldType)
    requires
        forall|h: Hex| !b.has_type(h, t),
    ensures
        b.nearest(origin, t) == Seq::<Hex>::empty(),
{
    assert forall|k: nat| !b.first_hit(origin, t, k) by {
        let found = b.hits(origin, t, k);
        if found.len() > 0 {
            lemma_matching_contains(b, b.wave(origin, k).ring(), t, found[0]);
            assert(found.contains(found[0]));
        }
    }
}

} // verus!
