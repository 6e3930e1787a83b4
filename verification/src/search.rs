//! Search for the nearest fields of a type, outwards from a cell in rings of equal distance.

use vstd::prelude::*;
use crate::board::{Board, BoardView};
use crate::coordinate::{cells_of, CubeCoordinates, CubeDirection, Hex};
use crate::distance::lemma_nearest_is_nearest;
use crate::field::FieldType;
use crate::segment::SegmentView;

verus! {

/// The cells discovered so far, in the order of their discovery. The cells from index `start`
/// on form the ring discovered last.
pub struct Wave {
    pub seen: Seq<Hex>,
    pub start: int,
}

impl Wave {
    /// The ring discovered last.
    pub open spec fn ring(self) -> Seq<Hex> {
        self.seen.subrange(self.start, self.seen.len() as int)
    }
}

impl BoardView {
    /// Whether the field at `h` is of type `t`.
    pub open spec fn has_type(self, h: Hex, t: FieldType) -> bool {
        self.field_at(h) matches Some(f) && f.field_type == t
    }

    /// The cells of `cells`, in their order, whose field is of type `t`.
    pub open spec fn matching(self, cells: Seq<Hex>, t: FieldType) -> Seq<Hex>
        decreases cells.len(),
    {
        if cells.len() == 0 {
            Seq::empty()
        } else if self.has_type(cells.last(), t) {
            self.matching(cells.drop_last(), t).push(cells.last())
        } else {
            self.matching(cells.drop_last(), t)
        }
    }

    /// `seen` after a look from `h` in direction `i` of the clockwise order: a neighbour on
    /// the board that was not seen before is added at the end.
    pub open spec fn discover(self, seen: Seq<Hex>, h: Hex, i: int) -> Seq<Hex> {
        match self.neighbor_toward(CubeDirection::at(i), h) {
            Some(n) => if seen.contains(n) {
                seen
            } else {
                seen.push(n)
            },
            None => seen,
        }
    }

    /// `seen` after looks from `h` in the first `n` directions of the clockwise order.
    pub open spec fn discover_around(self, seen: Seq<Hex>, h: Hex, n: nat) -> Seq<Hex>
        decreases n,
    {
        if n == 0 {
            seen
        } else {
            self.discover(self.discover_around(seen, h, (n - 1) as nat), h, n - 1)
        }
    }

    /// `seen` after looks in all six directions from each of the cells `seen[from..upto]`, in
    /// their order.
    pub open spec fn expand(self, seen: Seq<Hex>, from: int, upto: int) -> Seq<Hex>
        decreases upto - from,
    {
        if upto <= from {
            seen
        } else {
            self.discover_around(self.expand(seen, from, upto - 1), seen[upto - 1], 6)
        }
    }

    /// The search from `origin` after `k` rings beyond the origin were discovered.
    pub open spec fn wave(self, origin: Hex, k: nat) -> Wave
        decreases k,
    {
        if k == 0 {
            Wave { seen: seq![origin], start: 0 }
        } else {
            let before = self.wave(origin, (k - 1) as nat);
            Wave {
                seen: self.expand(before.seen, before.start, before.seen.len() as int),
                start: before.seen.len() as int,
            }
        }
    }

    /// The cells of ring `k` around `origin` whose field is of type `t`, in the order of
    /// their discovery.
    pub open spec fn hits(self, origin: Hex, t: FieldType, k: nat) -> Seq<Hex> {
        self.matching(self.wave(origin, k).ring(), t)
    }

    /// Whether ring `k` around `origin` is the first that holds a field of type `t`.
    pub open spec fn first_hit(self, origin: Hex, t: FieldType, k: nat) -> bool {
        &&& self.hits(origin, t, k).len() > 0
        &&& forall|j: nat| j < k ==> (#[trigger] self.hits(origin, t, j)).len() == 0
    }

    /// The cells of the first ring around `origin` that holds a field of type `t` whose field
    /// is of that type, in the order of their discovery; empty where no ring holds one.
    pub open spec fn nearest(self, origin: Hex, t: FieldType) -> Seq<Hex> {
        if exists|k: nat| self.first_hit(origin, t, k) {
            self.hits(origin, t, choose|k: nat| self.first_hit(origin, t, k))
        } else {
            Seq::empty()
        }
    }
}

/// Looking around a cell only adds cells at the end.
pub proof fn lemma_discover_around_keeps(b: BoardView, seen: Seq<Hex>, h: Hex, n: nat)
    ensures
        b.discover_around(seen, h, n).len() >= seen.len(),
        forall|i: int| 0 <= i < seen.len() ==> b.discover_around(seen, h, n)[i] == seen[i],
    decreases n,
{
    if n > 0 {
        lemma_discover_around_keeps(b, seen, h, (n - 1) as nat);
    }
}

/// Looking around several cells only adds cells at the end.
pub proof fn lemma_expand_keeps(b: BoardView, seen: Seq<Hex>, from: int, upto: int)
    ensures
        b.expand(seen, from, upto).len() >= seen.len(),
        forall|i: int| 0 <= i < seen.len() ==> b.expand(seen, from, upto)[i] == seen[i],
    decreases upto - from,
{
    if upto > from {
        lemma_expand_keeps(b, seen, from, upto - 1);
        lemma_discover_around_keeps(b, b.expand(seen, from, upto - 1), seen[upto - 1], 6);
    }
}

/// Once a ring is empty, every later ring is empty and nothing more is discovered.
pub proof fn lemma_empty_ring_stays(b: BoardView, origin: Hex, k: nat, m: nat)
    requires
        k <= m,
        b.wave(origin, k).ring().len() == 0,
        0 <= b.wave(origin, k).start <= b.wave(origin, k).seen.len(),
    ensures
        b.wave(origin, m).ring().len() == 0,
        b.wave(origin, m).seen == b.wave(origin, k).seen,
        b.wave(origin, m).start == b.wave(origin, k).start,
    decreases m,
{
    if k < m {
        lemma_empty_ring_stays(b, origin, k, (m - 1) as nat);
    }
}

/// The start of the last ring lies within the cells seen.
pub proof fn lemma_wave_bounds(b: BoardView, origin: Hex, k: nat)
    ensures
        0 <= b.wave(origin, k).start <= b.wave(origin, k).seen.len(),
        b.wave(origin, k).seen.len() > 0,
    decreases k,
{
    if k > 0 {
        lemma_wave_bounds(b, origin, (k - 1) as nat);
        let before = b.wave(origin, (k - 1) as nat);
        lemma_expand_keeps(b, before.seen, before.start, before.seen.len() as int);
    }
}

impl SegmentView {
    /// The places on the plane of the first `n` cells of column `x` of the grid.
    pub open spec fn column_cells(self, x: int, n: nat) -> Set<Hex>
        decreases n,
    {
        if n == 0 {
            Set::empty()
        } else {
            self.column_cells(x, (n - 1) as nat).insert(self.position_of(x, n - 1))
        }
    }

    /// The places on the plane of the cells of the first `m` columns of the grid.
    pub open spec fn grid_cells(self, m: nat) -> Set<Hex>
        decreases m,
    {
        if m == 0 {
            Set::empty()
        } else {
            self.grid_cells((m - 1) as nat).union(
                self.column_cells(m - 1, self.fields[m - 1].len()),
            )
        }
    }
}

impl BoardView {
    /// The places on the plane of the cells of the first `n` segments.
    pub open spec fn cells_before(self, n: nat) -> Set<Hex>
        decreases n,
    {
        if n == 0 {
            Set::empty()
        } else {
            self.cells_before((n - 1) as nat).union(
                self.segments[n - 1].grid_cells(self.segments[n - 1].fields.len()),
            )
        }
    }

    /// The places on the plane of all cells of all segments.
    pub open spec fn cells(self) -> Set<Hex> {
        self.cells_before(self.segments.len())
    }

    /// Whether `seen` names no cell twice and only cells of the board, but for `origin`.
    pub open spec fn tidy(self, origin: Hex, seen: Seq<Hex>) -> bool {
        &&& seen.no_duplicates()
        &&& forall|i: int| 0 <= i < seen.len() ==> seen[i] == origin || self.on_board(seen[i])
    }
}

proof fn lemma_column_cells(seg: SegmentView, x: int, n: nat, y: int)
    ensures
        seg.column_cells(x, n).finite(),
        0 <= y < n ==> seg.column_cells(x, n).contains(seg.position_of(x, y)),
    decreases n,
{
    if n > 0 {
        lemma_column_cells(seg, x, (n - 1) as nat, y);
    }
}

proof fn lemma_grid_cells(seg: SegmentView, m: nat, x: int, y: int)
    requires
        m <= seg.fields.len(),
    ensures
        seg.grid_cells(m).finite(),
        0 <= x < m && 0 <= y < seg.fields[x].len() ==> seg.grid_cells(m).contains(
            seg.position_of(x, y),
        ),
    decreases m,
{
    if m > 0 {
        lemma_grid_cells(seg, (m - 1) as nat, x, y);
        lemma_column_cells(seg, m - 1, seg.fields[m - 1].len(), y);
    }
}

proof fn lemma_cells_before(b: BoardView, n: nat, i: int, h: Hex)
    requires
        n <= b.segments.len(),
    ensures
        b.cells_before(n).finite(),
        0 <= i < n && b.segments[i].contains(h) ==> b.cells_before(n).contains(h),
    decreases n,
{
    if n > 0 {
        lemma_cells_before(b, (n - 1) as nat, i, h);
        let seg = b.segments[n - 1];
        let local = seg.to_local(h);
        lemma_grid_cells(seg, seg.fields.len(), local.grid_x(), local.grid_y());
        if i == n - 1 && seg.contains(h) {
            crate::segment::lemma_local_global_round_trip(seg, h);
            crate::coordinate::lemma_grid_round_trip(local, 0, 0);
            assert(seg.position_of(local.grid_x(), local.grid_y()) == h);
        }
    }
}

/// The cells of a board are finitely many, and every cell on the board is among them.
pub proof fn lemma_cells(b: BoardView, h: Hex)
    ensures
        b.cells().finite(),
        b.on_board(h) ==> b.cells().contains(h),
{
    crate::board::lemma_first_cover(b, h, b.segments.len());
    lemma_cells_before(b, b.segments.len(), 0, h);
    if b.on_board(h) {
        lemma_cells_before(b, b.segments.len(), b.segment_index(h)->0, h);
    }
}

/// A list that names no cell twice, and only the origin and cells of the board, is no longer
/// than the board has cells, the origin counted.
pub proof fn lemma_tidy_is_short(b: BoardView, origin: Hex, seen: Seq<Hex>)
    requires
        b.tidy(origin, seen),
    ensures
        b.cells().insert(origin).finite(),
        seen.len() <= b.cells().insert(origin).len(),
{
    lemma_cells(b, origin);
    let all = b.cells().insert(origin);
    assert forall|h: Hex| seen.to_set().contains(h) implies all.contains(h) by {
        let i = choose|i: int| 0 <= i < seen.len() && seen[i] == h;
        lemma_cells(b, h);
    }
    seen.unique_seq_to_set();
    vstd::set_lib::lemma_len_subset(seen.to_set(), all);
}

proof fn lemma_discover_around_tidy(b: BoardView, origin: Hex, seen: Seq<Hex>, h: Hex, n: nat)
    requires
        b.tidy(origin, seen),
    ensures
        b.tidy(origin, b.discover_around(seen, h, n)),
    decreases n,
{
    if n > 0 {
        lemma_discover_around_tidy(b, origin, seen, h, (n - 1) as nat);
    }
}

proof fn lemma_expand_tidy(b: BoardView, origin: Hex, seen: Seq<Hex>, from: int, upto: int)
    requires
        b.tidy(origin, seen),
    ensures
        b.tidy(origin, b.expand(seen, from, upto)),
    decreases upto - from,
{
    if upto > from {
        lemma_expand_tidy(b, origin, seen, from, upto - 1);
        lemma_discover_around_tidy(b, origin, b.expand(seen, from, upto - 1), seen[upto - 1], 6);
    }
}

/// The search names no cell twice, and only the origin and cells of the board.
pub proof fn lemma_wave_tidy(b: BoardView, origin: Hex, k: nat)
    ensures
        b.tidy(origin, b.wave(origin, k).seen),
    decreases k,
{
    if k > 0 {
        lemma_wave_tidy(b, origin, (k - 1) as nat);
        let before = b.wave(origin, (k - 1) as nat);
        lemma_expand_tidy(b, origin, before.seen, before.start, before.seen.len() as int);
    }
}

/// Tells whether `list` names the cell `c`.
pub fn names(list: &Vec<CubeCoordinates>, c: &CubeCoordinates) -> (b: bool)
    ensures
        b == cells_of(list@).contains(c@),
{
    let mut i: usize = 0;
    while i < list.len()
        invariant
            i <= list.len(),
            forall|k: int| 0 <= k < i ==> cells_of(list@)[k] != c@,
        decreases list.len() - i,
    {
        if list[i] == *c {
            assert(cells_of(list@)[i as int] == c@);
            return true;
        }
        proof {
            crate::coordinate::lemma_view_injective(list[i as int], *c);
        }
        i += 1;
    }
    false
}

impl Board {
    /// Returns the cells among `cells[from..]`, in their order, whose field is of type
    /// `field_type`.
    pub fn matches_from(&self, cells: &Vec<CubeCoordinates>, from: usize, field_type: FieldType) -> (found:
        Vec<CubeCoordinates>)
        requires
            from <= cells.len(),
        ensures
            cells_of(found@) == self@.matching(
                cells_of(cells@).subrange(from as int, cells.len() as int),
                field_type,
            ),
    {
        let mut found: Vec<CubeCoordinates> = Vec::new();
        let mut j: usize = from;
        assert(cells_of(found@) =~= Seq::<Hex>::empty());
        while j < cells.len()
            invariant
                from <= j <= cells.len(),
                cells_of(found@) == self@.matching(
                    cells_of(cells@).subrange(from as int, j as int),
                    field_type,
                ),
            decreases cells.len() - j,
        {
            let ghost part = cells_of(cells@).subrange(from as int, j + 1);
            assert(part.drop_last() =~= cells_of(cells@).subrange(from as int, j as int));
            assert(part.last() == cells[j as int]@);
            let hit = match self.get(&cells[j]) {
                Some(field) => field.field_type == field_type,
                None => false,
            };
            if hit {
                let ghost before = cells_of(found@);
                found.push(cells[j]);
                assert(cells_of(found@) =~= before.push(cells[j as int]@));
            }
            j += 1;
        }
        found
    }

    /// Looks from `cells[j]` in all six directions, clockwise from `Right`, and adds at the
    /// end of `cells` each neighbour on the board that `cells` does not name yet.
    pub fn discover_around(&self, cells: &mut Vec<CubeCoordinates>, j: usize)
        requires
            j < old(cells).len(),
        ensures
            cells_of(final(cells)@) == self@.discover_around(
                cells_of(old(cells)@),
                old(cells)@[j as int]@,
                6,
            ),
    {
        let center = cells[j];
        let directions = CubeDirection::VALUES;
        let mut i: usize = 0;
        while i < 6
            invariant
                i <= 6,
                directions == CubeDirection::VALUES,
                center == old(cells)@[j as int],
                cells_of(cells@) == self@.discover_around(
                    cells_of(old(cells)@),
                    center@,
                    i as nat,
                ),
            decreases 6 - i,
        {
            assert(directions[i as int] == CubeDirection::at(i as int));
            match self.neighbor_on_board(&directions[i], &center) {
                Some((c, _)) => {
                    if !names(cells, &c) {
                        let ghost before = cells_of(cells@);
                        cells.push(c);
                        assert(cells_of(cells@) =~= before.push(c@));
                    }
                },
                None => {},
            }
            i += 1;
        }
    }

    /// Returns all cells nearest to `start_coordinates`, counted in steps from cell to
    /// neighbouring cell over the board, whose field is of type `field_type`, in the order
    /// in which a search in rings around the start discovers them. The start itself counts,
    /// at distance zero, and need not be on the board. The result is empty where no such
    /// field can be reached.
    pub fn find_nearest_field_types(&self, start_coordinates: &CubeCoordinates, field_type: FieldType) -> (nearest:
        Vec<CubeCoordinates>)
        ensures
            cells_of(nearest@) == self@.nearest(start_coordinates@, field_type),
            cells_of(nearest@).no_duplicates(),
            forall|h: Hex| #[trigger]
                cells_of(nearest@).contains(h) <==> self@.is_nearest(
                    start_coordinates@,
                    field_type,
                    h,
                ),
    {
        let ghost origin = start_coordinates@;
        let mut seen: Vec<CubeCoordinates> = Vec::new();
        seen.push(*start_coordinates);
        let mut from: usize = 0;
        let ghost mut k: nat = 0;
        assert(cells_of(seen@) =~= seq![origin]);
        loop
            invariant
                origin == start_coordinates@,
                cells_of(seen@) == self@.wave(origin, k).seen,
                from == self@.wave(origin, k).start,
                forall|j: nat| j < k ==> (#[trigger] self@.hits(origin, field_type, j)).len() == 0,
            decreases
                    self@.cells().insert(origin).len() - seen.len(),
                    seen.len() - from,
        {
            proof {
                lemma_wave_bounds(self@, origin, k);
                lemma_wave_tidy(self@, origin, k);
                lemma_tidy_is_short(self@, origin, cells_of(seen@));
            }
            let found = self.matches_from(&seen, from, field_type);
            if found.len() > 0 {
                proof {
                    assert(self@.first_hit(origin, field_type, k));
                    let chosen = choose|c: nat| self@.first_hit(origin, field_type, c);
                    assert(chosen == k);
                    lemma_nearest_is_nearest(self@, origin, field_type);
                }
                return found;
            }
            let upto = seen.len();
            if from == upto {
                proof {
                    assert forall|c: nat| !self@.first_hit(origin, field_type, c) by {
                        if c >= k {
                            lemma_empty_ring_stays(self@, origin, k, c);
                            assert(self@.wave(origin, c).ring() =~= self@.wave(origin, k).ring());
                        }
                    }
                    assert(cells_of(found@) =~= Seq::<Hex>::empty());
                    lemma_nearest_is_nearest(self@, origin, field_type);
                }
                return found;
            }
            let ghost base = cells_of(seen@);
            let mut j: usize = from;
            while j < upto
                invariant
                    from <= j <= upto,
                    upto == base.len(),
                    cells_of(seen@) == self@.expand(base, from as int, j as int),
                decreases upto - j,
            {
                proof {
                    lemma_expand_keeps(self@, base, from as int, j as int);
                }
                self.discover_around(&mut seen, j);
                j += 1;
            }
            proof {
                lemma_wave_tidy(self@, origin, k + 1);
                lemma_tidy_is_short(self@, origin, cells_of(seen@));
                lemma_expand_keeps(self@, base, from as int, upto as int);
            }
            from = upto;
            proof {
                k = k + 1;
            }
        }
    }
}

} // verus!
