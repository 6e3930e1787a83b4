//! One piece of the course: a grid of cells placed on the plane by a centre and a direction.

use vstd::prelude::*;
use crate::coordinate::{CubeCoordinates, CubeDirection, Hex};
use crate::coordinate::rotate_axial;
use crate::coordinate::{lemma_full_turn, lemma_rotation_composes, lemma_turns_cancel};
use crate::field::Field;

verus! {

/// A grid of cells, `fields[x][y]`, turned to `direction` and anchored at `center`.
/// The cell at the centre is `fields[1][2]`.
#[derive(Debug, PartialEq, Eq, PartialOrd, Hash)]
pub struct Segment {
    pub direction: CubeDirection,
    pub center: CubeCoordinates,
    pub fields: Vec<Vec<Field>>,
}

/// What a segment is, as a mathematical value.
pub struct SegmentView {
    pub direction: CubeDirection,
    pub center: Hex,
    pub fields: Seq<Seq<Field>>,
}

impl SegmentView {
    /// The cell of the segment's own grid that lies at `global` on the plane.
    pub open spec fn to_local(self, global: Hex) -> Hex {
        global.minus(self.center).rotated(self.direction.turns_to(CubeDirection::Right))
    }

    /// Where on the plane the cell `local` of the segment's own grid lies.
    pub open spec fn to_global(self, local: Hex) -> Hex {
        local.rotated(CubeDirection::Right.turns_to(self.direction)).plus(self.center)
    }

    /// Whether the grid has a cell at index `(x, y)`.
    pub open spec fn has_index(self, x: int, y: int) -> bool {
        0 <= x < self.fields.len() && 0 <= y < self.fields[x].len()
    }

    /// Whether the segment covers the cell `global` of the plane.
    pub open spec fn contains(self, global: Hex) -> bool {
        let local = self.to_local(global);
        self.has_index(local.grid_x(), local.grid_y())
    }

    /// The field that the segment holds at `global`, if it covers that cell.
    pub open spec fn cell(self, global: Hex) -> Option<Field> {
        let local = self.to_local(global);
        if self.has_index(local.grid_x(), local.grid_y()) {
            Some(self.fields[local.grid_x()][local.grid_y()])
        } else {
            None
        }
    }

    /// Where on the plane the cell at index `(x, y)` of the grid lies.
    pub open spec fn position_of(self, x: int, y: int) -> Hex {
        self.to_global(Hex::at_grid(x, y))
    }
}

/// Going from the plane into a segment's grid and back, or the other way round, returns to
/// the cell one started from.
pub proof fn lemma_local_global_round_trip(seg: SegmentView, h: Hex)
    ensures
        seg.to_global(seg.to_local(h)) == h,
        seg.to_local(seg.to_global(h)) == h,
{
    let back = seg.direction.turns_to(CubeDirection::Right);
    let forth = CubeDirection::Right.turns_to(seg.direction);
    lemma_turns_cancel(seg.direction, CubeDirection::Right);
    lemma_rotation_composes(h.minus(seg.center), back, forth);
    lemma_full_turn(h.minus(seg.center), back + forth);
    lemma_rotation_composes(h, forth, back);
    lemma_full_turn(h, forth + back);
    assert(h.rotated(forth).plus(seg.center).minus(seg.center) == h.rotated(forth));
}

/// The cell at index `(x, y)` of a segment's grid is the one that the segment holds at the
/// position of that index, and no other index lies there.
pub proof fn lemma_position_of_index(seg: SegmentView, x: int, y: int)
    requires
        seg.has_index(x, y),
    ensures
        seg.cell(seg.position_of(x, y)) == Some(seg.fields[x][y]),
        forall|h: Hex| #[trigger]
            seg.to_local(h) == Hex::at_grid(x, y) ==> h == seg.position_of(x, y),
{
    lemma_local_global_round_trip(seg, Hex::at_grid(x, y));
    assert forall|h: Hex| #[trigger]
        seg.to_local(h) == Hex::at_grid(x, y) implies h == seg.position_of(x, y) by {
        lemma_local_global_round_trip(seg, h);
    }
}

impl View for Segment {
    type V = SegmentView;

    open spec fn view(&self) -> SegmentView {
        SegmentView {
            direction: self.direction,
            center: self.center@,
            fields: Seq::new(self.fields@.len(), |x: int| self.fields@[x]@),
        }
    }
}

impl Segment {
    pub fn new(direction: CubeDirection, center: CubeCoordinates, fields: Vec<Vec<Field>>) -> (seg:
        Segment)
        ensures
            seg.direction == direction,
            seg.center == center,
            seg.fields == fields,
    {
        Segment { direction, center, fields }
    }

    /// The axial pair of the cell of the segment's own grid that lies at `coordinates`.
    fn local_axial(&self, coordinates: CubeCoordinates) -> (local: (i64, i64))
        ensures
            (Hex { q: local.0 as int, r: local.1 as int }) == self@.to_local(coordinates@),
            -0x2_0000_0000 <= local.0 <= 0x2_0000_0000,
            -0x2_0000_0000 <= local.1 <= 0x2_0000_0000,
    {
        coordinates.recall_representable();
        self.center.recall_representable();
        let (q, r): (i128, i128) = rotate_axial(
            coordinates.q() as i128 - self.center.q() as i128,
            coordinates.r() as i128 - self.center.r() as i128,
            self.direction.turn_count_to(CubeDirection::Right),
        );
        (q as i64, r as i64)
    }

    /// The axial pair of the place on the plane of the cell `(q, r)` of the segment's own
    /// grid.
    fn global_axial(&self, q: i128, r: i128) -> (global: (i128, i128))
        requires
            -0x1_0000_0000_0000_0000_0000 <= q <= 0x1_0000_0000_0000_0000_0000,
            -0x1_0000_0000_0000_0000_0000 <= r <= 0x1_0000_0000_0000_0000_0000,
        ensures
            (Hex { q: global.0 as int, r: global.1 as int }) == self@.to_global(
                Hex { q: q as int, r: r as int },
            ),
    {
        let (tq, tr): (i128, i128) = rotate_axial(
            q,
            r,
            CubeDirection::Right.turn_count_to(self.direction),
        );
        (tq + self.center.q() as i128, tr + self.center.r() as i128)
    }

    /// The coordinate with the axial pair `(q, r)`, if its three axes fit 32 bits.
    fn checked_axial(q: i128, r: i128) -> (c: Option<CubeCoordinates>)
        ensures
            c is Some <==> (Hex { q: q as int, r: r as int }).representable(),
            c matches Some(v) ==> v@ == (Hex { q: q as int, r: r as int }),
    {
        if -2147483648 <= q && q <= 2147483647 && -2147483648 <= r && r <= 2147483647 {
            CubeCoordinates::checked_new(q as i64, r as i64)
        } else {
            None
        }
    }

    /// Returns the index in the grid of the cell that lies at `coordinates`, if the segment
    /// covers it.
    pub fn index_of(&self, coordinates: CubeCoordinates) -> (at: Option<(usize, usize)>)
        ensures
            at is Some <==> self@.contains(coordinates@),
            at matches Some((x, y)) ==> {
                &&& x == self@.to_local(coordinates@).grid_x()
                &&& y == self@.to_local(coordinates@).grid_y()
            },
    {
        let (q, r): (i64, i64) = self.local_axial(coordinates);
        let x: i64 = if r > 0 {
            q + r + 1
        } else {
            q + 1
        };
        let y: i64 = r + 2;
        if x < 0 || y < 0 {
            return None;
        }
        if x as u64 >= self.fields.len() as u64 {
            return None;
        }
        let column = &self.fields[x as usize];
        if y as u64 >= column.len() as u64 {
            return None;
        }
        Some((x as usize, y as usize))
    }

    /// Returns the field at `coordinates`, if the segment covers that cell.
    pub fn get(&self, coordinates: CubeCoordinates) -> (f: Option<Field>)
        ensures
            f == self@.cell(coordinates@),
    {
        match self.index_of(coordinates) {
            Some((x, y)) => Some(self.fields[x][y]),
            None => None,
        }
    }

    /// Tells whether the segment covers the cell at `coordinates`.
    pub fn contains(&self, coordinates: CubeCoordinates) -> (b: bool)
        ensures
            b == self@.contains(coordinates@),
    {
        self.index_of(coordinates).is_some()
    }

    /// Returns where on the plane the cell `coordinates` of the segment's own grid lies.
    pub fn local_to_global(&self, coordinates: CubeCoordinates) -> (c: CubeCoordinates)
        requires
            self@.to_global(coordinates@).representable(),
        ensures
            c@ == self@.to_global(coordinates@),
    {
        self.checked_local_to_global(coordinates).unwrap()
    }

    /// Returns where on the plane the cell `coordinates` of the segment's own grid lies, if
    /// that place can be written in 32 bits.
    pub fn checked_local_to_global(&self, coordinates: CubeCoordinates) -> (c: Option<
        CubeCoordinates,
    >)
        ensures
            c is Some <==> self@.to_global(coordinates@).representable(),
            c matches Some(v) ==> v@ == self@.to_global(coordinates@),
    {
        let (q, r): (i128, i128) = self.global_axial(
            coordinates.q() as i128,
            coordinates.r() as i128,
        );
        Segment::checked_axial(q, r)
    }

    /// Returns where on the plane the cell at index `(x, y)` of the grid lies, if that place
    /// can be written in 32 bits.
    pub fn position_at(&self, x: usize, y: usize) -> (c: Option<CubeCoordinates>)
        ensures
            c is Some <==> self@.position_of(x as int, y as int).representable(),
            c matches Some(v) ==> v@ == self@.position_of(x as int, y as int),
    {
        let r: i128 = y as i128 - 2;
        let q: i128 = if r > 0 {
            x as i128 - 1 - r
        } else {
            x as i128 - 1
        };
        let (gq, gr): (i128, i128) = self.global_axial(q, r);
        Segment::checked_axial(gq, gr)
    }

    /// Returns the cell of the segment's own grid that lies at `coordinates` on the plane.
    pub fn global_to_local(&self, coordinates: CubeCoordinates) -> (c: CubeCoordinates)
        requires
            self@.to_local(coordinates@).representable(),
        ensures
            c@ == self@.to_local(coordinates@),
    {
        let (q, r): (i64, i64) = self.local_axial(coordinates);
        CubeCoordinates::checked_new(q, r).unwrap()
    }
}

impl Clone for Segment {
    fn clone(&self) -> (copy: Segment)
        ensures
            copy@ == self@,
    {
        let mut fields: Vec<Vec<Field>> = Vec::new();
        let mut x: usize = 0;
        while x < self.fields.len()
            invariant
                x <= self.fields.len(),
                fields.len() == x,
                forall|i: int| 0 <= i < x ==> fields@[i]@ == self.fields@[i]@,
            decreases self.fields.len() - x,
        {
            let column = &self.fields[x];
            let mut copied: Vec<Field> = Vec::new();
            let mut y: usize = 0;
            while y < column.len()
                invariant
                    y <= column.len(),
                    copied.len() == y,
                    forall|j: int| 0 <= j < y ==> copied@[j] == column@[j],
                decreases column.len() - y,
            {
                copied.push(column[y]);
                y += 1;
            }
            assert(copied@ =~= column@);
            fields.push(copied);
            x += 1;
        }
        let copy = Segment { direction: self.direction, center: self.center, fields };
        assert(copy@.fields =~= self@.fields);
        copy
    }
}

} // verus!
