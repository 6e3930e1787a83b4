//! The course: segments in the order of travel, and the queries that locate a cell on them.

use vstd::prelude::*;
use crate::coordinate::{named, CubeCoordinates, CubeDirection, Hex};
use crate::field::{Field, FieldType};
use crate::game_state::GameState;
use crate::segment::{lemma_position_of_index, Segment, SegmentView};
use crate::ship::Ship;

verus! {

/// The segments of the course, the start first, and the direction that a segment after the
/// last one would have.
#[derive(Debug, PartialEq, Eq, PartialOrd, Hash)]
pub struct Board {
    pub segments: Vec<Segment>,
    pub next_direction: CubeDirection,
}

/// What a board is, as a mathematical value.
pub struct BoardView {
    pub segments: Seq<SegmentView>,
    pub next_direction: CubeDirection,
}

impl BoardView {
    /// Whether segment `i` holds the cell `h`, a cell that coordinates can name.
    pub open spec fn covers(self, i: int, h: Hex) -> bool {
        &&& 0 <= i < self.segments.len()
        &&& h.representable()
        &&& self.segments[i].contains(h)
    }

    /// The first of the segments before index `n` that holds `h`.
    pub open spec fn first_cover(self, h: Hex, n: nat) -> Option<int>
        decreases n,
    {
        if n == 0 {
            None
        } else {
            match self.first_cover(h, (n - 1) as nat) {
                Some(i) => Some(i),
                None => if self.covers(n - 1, h) {
                    Some(n - 1)
                } else {
                    None
                },
            }
        }
    }

    /// The first segment in course order that holds `h`.
    pub open spec fn segment_index(self, h: Hex) -> Option<int> {
        self.first_cover(h, self.segments.len())
    }

    /// Whether some segment holds `h`.
    pub open spec fn on_board(self, h: Hex) -> bool {
        self.segment_index(h) is Some
    }

    /// The field at `h`: the one that the first segment holding `h` keeps there.
    pub open spec fn field_at(self, h: Hex) -> Option<Field> {
        match self.segment_index(h) {
            Some(i) => self.segments[i].cell(h),
            None => None,
        }
    }

    /// The field one step from `h` in `direction`.
    pub open spec fn field_toward(self, direction: CubeDirection, h: Hex) -> Option<Field> {
        self.field_at(h.plus(direction.unit()))
    }

    /// The cell one step from `h` in `direction`, where it is on the board.
    pub open spec fn neighbor_toward(self, direction: CubeDirection, h: Hex) -> Option<Hex> {
        if self.on_board(h.plus(direction.unit())) {
            Some(h.plus(direction.unit()))
        } else {
            None
        }
    }

    /// The direction in which the course goes on after segment `i`.
    pub open spec fn direction_after(self, i: int) -> CubeDirection {
        if i + 1 < self.segments.len() {
            self.segments[i + 1].direction
        } else {
            self.next_direction
        }
    }

    /// Whether `h` is one of the four cells of the current of segment `i`: the cell behind the
    /// centre, the centre, and the two cells ahead of it towards the following segment.
    pub open spec fn in_current_of(self, i: int, h: Hex) -> bool {
        let seg = self.segments[i];
        let ahead = self.direction_after(i).unit();
        ||| h == seg.center.minus(seg.direction.unit())
        ||| h == seg.center
        ||| h == seg.center.plus(ahead)
        ||| h == seg.center.plus(ahead.times(2))
    }

    /// Whether a current runs over `h`.
    pub open spec fn has_stream(self, h: Hex) -> bool {
        match self.segment_index(h) {
            Some(i) => self.in_current_of(i, h),
            None => false,
        }
    }

    /// The speed at which a ship moves from where it is.
    pub open spec fn effective_speed(self, ship: Ship) -> int {
        if self.has_stream(ship.position@) {
            ship.speed - 1
        } else {
            ship.speed as int
        }
    }

    /// Whether a ship next to the cell one step from `h` in direction `i` of the clockwise
    /// order can take a passenger on board there.
    pub open spec fn offers_toward(self, i: int, h: Hex) -> bool {
        self.field_toward(CubeDirection::at(i), h) matches Some(f) && f.offers_passenger()
    }

    /// The first of the directions before index `n` of the clockwise order in which a
    /// passenger waits next to `h`.
    pub open spec fn first_offer(self, h: Hex, n: nat) -> Option<int>
        decreases n,
    {
        if n == 0 {
            None
        } else {
            match self.first_offer(h, (n - 1) as nat) {
                Some(i) => Some(i),
                None => if self.offers_toward(n - 1, h) {
                    Some(n - 1)
                } else {
                    None
                },
            }
        }
    }

    /// The board with the field at `h` replaced by `f`; unchanged where `h` is not on it.
    pub open spec fn with_field(self, h: Hex, f: Field) -> BoardView {
        match self.segment_index(h) {
            Some(i) => {
                let seg = self.segments[i];
                let x = seg.to_local(h).grid_x();
                let y = seg.to_local(h).grid_y();
                BoardView {
                    segments: self.segments.update(
                        i,
                        SegmentView {
                            direction: seg.direction,
                            center: seg.center,
                            fields: seg.fields.update(x, seg.fields[x].update(y, f)),
                        },
                    ),
                    next_direction: self.next_direction,
                }
            },
            None => self,
        }
    }

    /// Whether no cell is held by two segments.
    pub open spec fn exclusive(self) -> bool {
        forall|h: Hex, i: int, j: int|
            self.covers(i, h) && self.covers(j, h) ==> i == j
    }

    /// Whether a segment after segment `i` holds `h`.
    pub open spec fn held_after(self, i: int, h: Hex) -> bool {
        exists|j: int| i < j && #[trigger] self.covers(j, h)
    }

    /// Whether segment `i` holds `h` and a segment after it does too.
    pub open spec fn shared(self, i: int, h: Hex) -> bool {
        self.covers(i, h) && self.held_after(i, h)
    }
}

/// The first segment that holds a cell is one that holds it, and none before it does; where
/// there is none, no segment before `n` holds the cell.
pub proof fn lemma_first_cover(b: BoardView, h: Hex, n: nat)
    requires
        n <= b.segments.len(),
    ensures
        b.first_cover(h, n) matches Some(i) ==> 0 <= i < n && b.covers(i, h) && forall|j: int|
            0 <= j < i ==> !b.covers(j, h),
        b.first_cover(h, n) is None ==> forall|j: int| 0 <= j < n ==> !b.covers(j, h),
    decreases n,
{
    if n > 0 {
        lemma_first_cover(b, h, (n - 1) as nat);
    }
}

/// Once a segment that holds the cell is found, looking further does not change the answer.
pub proof fn lemma_first_cover_stays(b: BoardView, h: Hex, n: nat, m: nat)
    requires
        n <= m,
        b.first_cover(h, n) is Some,
    ensures
        b.first_cover(h, m) == b.first_cover(h, n),
    decreases m,
{
    if n < m {
        lemma_first_cover_stays(b, h, n, (m - 1) as nat);
    }
}

/// Once a direction in which a passenger waits is found, looking further does not change
/// the answer.
pub proof fn lemma_first_offer_stays(b: BoardView, h: Hex, n: nat, m: nat)
    requires
        n <= m,
        b.first_offer(h, n) is Some,
    ensures
        b.first_offer(h, m) == b.first_offer(h, n),
    decreases m,
{
    if n < m {
        lemma_first_offer_stays(b, h, n, (m - 1) as nat);
    }
}

/// The first direction in which a passenger waits is one in which one waits, and in none
/// before it does one; where there is none, no passenger waits in any direction before `n`.
pub proof fn lemma_first_offer(b: BoardView, h: Hex, n: nat)
    ensures
        b.first_offer(h, n) matches Some(i) ==> 0 <= i < n && b.offers_toward(i, h) && forall|
            j: int,
        |
            0 <= j < i ==> !b.offers_toward(j, h),
        b.first_offer(h, n) is None ==> forall|j: int| 0 <= j < n ==> !b.offers_toward(j, h),
    decreases n,
{
    if n > 0 {
        lemma_first_offer(b, h, (n - 1) as nat);
    }
}

/// A cell has a field exactly when it is on the board.
pub proof fn lemma_field_on_board(b: BoardView, h: Hex)
    ensures
        b.field_at(h) is Some <==> b.on_board(h),
        b.on_board(h) ==> h.representable(),
{
    lemma_first_cover(b, h, b.segments.len());
}

proof fn lemma_with_field_keeps_covers(b: BoardView, h: Hex, f: Field, g: Hex, n: nat)
    requires
        n <= b.segments.len(),
    ensures
        b.with_field(h, f).segments.len() == b.segments.len(),
        b.with_field(h, f).first_cover(g, n) == b.first_cover(g, n),
    decreases n,
{
    lemma_first_cover(b, h, b.segments.len());
    if n > 0 {
        lemma_with_field_keeps_covers(b, h, f, g, (n - 1) as nat);
        assert(b.with_field(h, f).covers(n - 1, g) == b.covers(n - 1, g));
    }
}

/// Replacing the field at a cell of the board changes the field there and nothing else:
/// every cell stays in its segment, and every other cell keeps its field.
pub proof fn lemma_with_field(b: BoardView, h: Hex, f: Field, g: Hex)
    requires
        b.on_board(h),
    ensures
        b.with_field(h, f).segment_index(g) == b.segment_index(g),
        b.with_field(h, f).field_at(g) == if g == h {
            Some(f)
        } else {
            b.field_at(g)
        },
{
    lemma_with_field_keeps_covers(b, h, f, g, b.segments.len());
    lemma_first_cover(b, h, b.segments.len());
    lemma_first_cover(b, g, b.segments.len());
    let i = b.segment_index(h)->0;
    let seg = b.segments[i];
    if b.segment_index(g) == Some(i) && g != h {
        crate::segment::lemma_local_global_round_trip(seg, g);
        crate::segment::lemma_local_global_round_trip(seg, h);
        crate::coordinate::lemma_grid_round_trip(seg.to_local(g), 0, 0);
        crate::coordinate::lemma_grid_round_trip(seg.to_local(h), 0, 0);
    }
}

/// On a board whose segments do not overlap, the field found at the position of an index
/// of a segment's grid is the field that the segment keeps at that index.
pub proof fn lemma_field_at_index(b: BoardView, i: int, x: int, y: int)
    requires
        b.exclusive(),
        0 <= i < b.segments.len(),
        b.segments[i].has_index(x, y),
        b.segments[i].position_of(x, y).representable(),
    ensures
        b.segment_index(b.segments[i].position_of(x, y)) == Some(i),
        b.field_at(b.segments[i].position_of(x, y)) == Some(b.segments[i].fields[x][y]),
{
    let h = b.segments[i].position_of(x, y);
    lemma_position_of_index(b.segments[i], x, y);
    lemma_first_cover(b, h, b.segments.len());
    assert(b.covers(i, h));
}

/// Containment is exclusive: on a board whose segments do not overlap, a segment holds a
/// cell exactly when it is the segment that the cell is found in.
pub proof fn lemma_containment_exclusive(b: BoardView, h: Hex, i: int)
    requires
        b.exclusive(),
    ensures
        b.covers(i, h) <==> b.segment_index(h) == Some(i),
{
    lemma_first_cover(b, h, b.segments.len());
}

impl View for Board {
    type V = BoardView;

    open spec fn view(&self) -> BoardView {
        BoardView {
            segments: Seq::new(self.segments@.len(), |i: int| self.segments@[i]@),
            next_direction: self.next_direction,
        }
    }
}

impl Clone for Board {
    fn clone(&self) -> (copy: Board)
        ensures
            copy@ == self@,
    {
        let mut segments: Vec<Segment> = Vec::new();
        let mut i: usize = 0;
        while i < self.segments.len()
            invariant
                i <= self.segments.len(),
                segments.len() == i,
                forall|k: int| 0 <= k < i ==> segments@[k]@ == self.segments@[k]@,
            decreases self.segments.len() - i,
        {
            segments.push(self.segments[i].clone());
            i += 1;
        }
        let copy = Board { segments, next_direction: self.next_direction };
        assert(copy@.segments =~= self@.segments);
        copy
    }
}

impl Board {
    pub fn new(segments: Vec<Segment>, next_direction: CubeDirection) -> (board: Board)
        ensures
            board.segments == segments,
            board.next_direction == next_direction,
    {
        Board { segments, next_direction }
    }

    /// Returns a copy of the segment at `index` of the course, if there is one.
    pub fn get_segment(&self, index: usize) -> (seg: Option<Segment>)
        ensures
            seg is Some <==> index < self@.segments.len(),
            seg matches Some(s) ==> s@ == self@.segments[index as int],
    {
        if index < self.segments.len() {
            Some(self.segments[index].clone())
        } else {
            None
        }
    }

    /// Returns the index of the first segment in course order that holds `coordinate`, or
    /// `None` where the cell is not on the board.
    pub fn segment_index(&self, coordinate: &CubeCoordinates) -> (index: Option<usize>)
        ensures
            index is Some <==> self@.on_board(coordinate@),
            index matches Some(i) ==> self@.segment_index(coordinate@) == Some(i as int),
            index matches Some(i) ==> i < self.segments.len() && self@.covers(
                i as int,
                coordinate@,
            ),
            index is None ==> forall|j: int| !self@.covers(j, coordinate@),
    {
        coordinate.recall_representable();
        proof {
            lemma_first_cover(self@, coordinate@, self@.segments.len());
        }
        let mut i: usize = 0;
        while i < self.segments.len()
            invariant
                i <= self.segments.len(),
                coordinate@.representable(),
                self@.first_cover(coordinate@, i as nat) is None,
            decreases self.segments.len() - i,
        {
            if self.segments[i].contains(*coordinate) {
                proof {
                    assert(self@.covers(i as int, coordinate@));
                    assert(self@.first_cover(coordinate@, (i + 1) as nat) == Some(i as int));
                    lemma_first_cover_stays(
                        self@,
                        coordinate@,
                        (i + 1) as nat,
                        self@.segments.len(),
                    );
                }
                return Some(i);
            }
            i += 1;
        }
        None
    }

    /// Returns the first segment that holds `coords`, with its index in the course.
    pub fn segment_with_index_at(&self, coords: CubeCoordinates) -> (found: Option<
        (usize, Segment),
    >)
        ensures
            found is Some <==> self@.on_board(coords@),
            found matches Some((i, s)) ==> self@.segment_index(coords@) == Some(i as int) && s@
                == self@.segments[i as int],
    {
        match self.segment_index(&coords) {
            Some(i) => {
                proof {
                    lemma_first_cover(self@, coords@, self@.segments.len());
                }
                Some((i, self.segments[i].clone()))
            },
            None => None,
        }
    }

    /// Returns a copy of the first segment that holds `coordinate`.
    pub fn find_segment(&self, coordinate: &CubeCoordinates) -> (seg: Option<Segment>)
        ensures
            seg is Some <==> self@.on_board(coordinate@),
            seg matches Some(s) ==> s@ == self@.segments[self@.segment_index(coordinate@)->0],
    {
        match self.segment_index(coordinate) {
            Some(i) => {
                proof {
                    lemma_first_cover(self@, coordinate@, self@.segments.len());
                }
                Some(self.segments[i].clone())
            },
            None => None,
        }
    }

    /// Returns the field at `coords`, or `None` where the cell is not on the board.
    pub fn get(&self, coords: &CubeCoordinates) -> (f: Option<Field>)
        ensures
            f == self@.field_at(coords@),
    {
        match self.segment_index(coords) {
            Some(i) => {
                proof {
                    lemma_first_cover(self@, coords@, self@.segments.len());
                }
                self.segments[i].get(*coords)
            },
            None => None,
        }
    }

    /// Returns how many segments lie between the segments of two cells, or `None` where one
    /// of the cells is not on the board.
    pub fn segment_distance(&self, coordinate1: &CubeCoordinates, coordinate2: &CubeCoordinates) -> (d:
        Option<usize>)
        ensures
            d is Some <==> self@.on_board(coordinate1@) && self@.on_board(coordinate2@),
            d matches Some(n) ==> {
                let i = self@.segment_index(coordinate1@)->0;
                let j = self@.segment_index(coordinate2@)->0;
                n == if i <= j {
                    j - i
                } else {
                    i - j
                }
            },
    {
        match (self.segment_index(coordinate1), self.segment_index(coordinate2)) {
            (Some(i), Some(j)) => if i <= j {
                Some(j - i)
            } else {
                Some(i - j)
            },
            _ => None,
        }
    }

    /// Returns the field one step from `coords` in `direction`.
    pub fn get_field_in_direction(&self, direction: &CubeDirection, coords: &CubeCoordinates) -> (f:
        Option<Field>)
        ensures
            f == self@.field_toward(*direction, coords@),
    {
        match self.neighbor_on_board(direction, coords) {
            Some((_, field)) => Some(field),
            None => None,
        }
    }

    /// Returns the cell one step from `coords` in `direction` with its field, where that cell
    /// is on the board.
    pub fn neighbor_on_board(&self, direction: &CubeDirection, coords: &CubeCoordinates) -> (n:
        Option<(CubeCoordinates, Field)>)
        ensures
            n is Some <==> self@.field_toward(*direction, coords@) is Some,
            n matches Some((c, f)) ==> c@ == coords@.plus(direction.unit()) && Some(f)
                == self@.field_toward(*direction, coords@),
            n is Some <==> self@.neighbor_toward(*direction, coords@) is Some,
    {
        let step = direction.vector();
        proof {
            lemma_field_on_board(self@, coords@.plus(direction.unit()));
        }
        match CubeCoordinates::checked_new(
            coords.q() as i64 + step.q() as i64,
            coords.r() as i64 + step.r() as i64,
        ) {
            Some(c) => match self.get(&c) {
                Some(f) => Some((c, f)),
                None => None,
            },
            None => None,
        }
    }

    /// Returns where on the plane the cell at index `(x_index, y_index)` of the grid of the
    /// segment `segment_index` lies.
    pub fn get_coordinate_by_index(&self, segment_index: usize, x_index: usize, y_index: usize) -> (c:
        CubeCoordinates)
        requires
            segment_index < self@.segments.len(),
            self@.segments[segment_index as int].position_of(
                x_index as int,
                y_index as int,
            ).representable(),
        ensures
            c@ == self@.segments[segment_index as int].position_of(x_index as int, y_index as int),
    {
        self.segments[segment_index].position_at(x_index, y_index).unwrap()
    }

    /// Returns the fields next to `coords`, one for each direction in the clockwise order from
    /// `Right`; `None` where the neighbouring cell is not on the board.
    pub fn neighboring_fields(&self, coords: &CubeCoordinates) -> (fields: Vec<Option<Field>>)
        ensures
            fields@.len() == 6,
            forall|i: int|
                0 <= i < 6 ==> fields@[i] == self@.field_toward(CubeDirection::at(i), coords@),
    {
        let directions = CubeDirection::VALUES;
        let mut fields: Vec<Option<Field>> = Vec::new();
        let mut i: usize = 0;
        while i < 6
            invariant
                i <= 6,
                directions == CubeDirection::VALUES,
                fields@.len() == i,
                forall|k: int|
                    0 <= k < i ==> fields@[k] == self@.field_toward(CubeDirection::at(k), coords@),
            decreases 6 - i,
        {
            fields.push(self.get_field_in_direction(&directions[i], coords));
            i += 1;
        }
        fields
    }

    /// Returns the cells next to `coords` that are on the board, one for each direction in the
    /// clockwise order from `Right`; `None` where the neighbouring cell is not on the board.
    pub fn neighboring_coordinates(&self, coords: &CubeCoordinates) -> (cells: Vec<
        Option<CubeCoordinates>,
    >)
        ensures
            cells@.len() == 6,
            forall|i: int|
                0 <= i < 6 ==> named(cells@[i]) == self@.neighbor_toward(
                    CubeDirection::at(i),
                    coords@,
                ),
    {
        let directions = CubeDirection::VALUES;
        let mut cells: Vec<Option<CubeCoordinates>> = Vec::new();
        let mut i: usize = 0;
        while i < 6
            invariant
                i <= 6,
                directions == CubeDirection::VALUES,
                cells@.len() == i,
                forall|k: int|
                    0 <= k < i ==> named(cells@[k]) == self@.neighbor_toward(
                        CubeDirection::at(k),
                        coords@,
                    ),
            decreases 6 - i,
        {
            let cell = match self.neighbor_on_board(&directions[i], coords) {
                Some((c, _)) => Some(c),
                None => None,
            };
            cells.push(cell);
            i += 1;
        }
        cells
    }

    /// Tells whether a current runs over the cell at `coords`.
    pub fn does_field_have_stream(&self, coords: &CubeCoordinates) -> (b: bool)
        ensures
            b == self@.has_stream(coords@),
    {
        match self.segment_index(coords) {
            Some(i) => {
                let seg = &self.segments[i];
                let ahead = if i + 1 < self.segments.len() {
                    self.segments[i + 1].direction.vector()
                } else {
                    self.next_direction.vector()
                };
                let back = seg.direction.vector();
                let q: i64 = coords.q() as i64 - seg.center.q() as i64;
                let r: i64 = coords.r() as i64 - seg.center.r() as i64;
                let aq: i64 = ahead.q() as i64;
                let ar: i64 = ahead.r() as i64;
                (q == -(back.q() as i64) && r == -(back.r() as i64)) || (q == 0 && r == 0) || (q
                    == aq && r == ar) || (q == 2 * aq && r == 2 * ar)
            },
            None => false,
        }
    }

    /// Returns the speed at which `ship` moves from where it is: one less than its own speed
    /// on a current, its own speed elsewhere. The result may be negative.
    pub fn effective_speed(&self, ship: &Ship) -> (speed: i32)
        requires
            self@.has_stream(ship.position@) ==> ship.speed > i32::MIN,
        ensures
            speed == self@.effective_speed(*ship),
            self@.has_stream(ship.position@) ==> speed == ship.speed - 1,
            !self@.has_stream(ship.position@) ==> speed == ship.speed,
    {
        if self.does_field_have_stream(&ship.position) {
            ship.speed - 1
        } else {
            ship.speed
        }
    }

    /// Puts `field` in the place of the field at `coords`. Returns whether the cell is on the
    /// board; where it is not, the board stays as it is.
    pub fn replace_field(&mut self, coords: &CubeCoordinates, field: Field) -> (done: bool)
        ensures
            done == old(self)@.on_board(coords@),
            final(self)@ == old(self)@.with_field(coords@, field),
    {
        match self.segment_index(coords) {
            Some(i) => match self.segments[i].index_of(*coords) {
                Some((x, y)) => {
                    let ghost before = self@;
                    self.segments[i].fields[x][y] = field;
                    proof {
                        let seg = before.segments[i as int];
                        let want = before.with_field(coords@, field);
                        assert(self@.segments[i as int].fields[x as int] =~= seg.fields[x as int].update(
                            y as int,
                            field,
                        ));
                        assert(self@.segments[i as int].fields =~= want.segments[i as int].fields);
                        assert(self@.segments =~= want.segments);
                    }
                    true
                },
                None => false,
            },
            None => false,
        }
    }

    /// Returns a copy of `state` in which the current ship has taken one passenger on board,
    /// if it may and can: its effective speed on this board is below two, and next to it, on
    /// the board of `state`, a passenger waits. Of several such neighbours the first in the
    /// clockwise order from `Right` gives up the passenger. Otherwise the copy equals `state`.
    pub fn pickup_passenger(&self, state: &GameState) -> (next: GameState)
        requires
            self@.has_stream(state.current_ship.position@) ==> state.current_ship.speed > i32::MIN,
            state@.pickup_direction(self@) is Some ==> state.current_ship.passengers < i32::MAX,
        ensures
            next@ == state@.after_pickup(self@),
    {
        let mut next = state.clone();
        if self.effective_speed(&state.current_ship) >= 2 {
            return next;
        }
        match state.board.pickup_passenger_at_position(&state.current_ship.position) {
            Some((cell, field)) => {
                let taken = Field {
                    field_type: field.field_type,
                    passenger: Some(field.passenger.unwrap() - 1),
                };
                next.board.replace_field(&cell, taken);
                next.current_ship.passengers = next.current_ship.passengers + 1;
                next
            },
            None => next,
        }
    }

    /// Returns the first cell next to `pos`, in the clockwise order from `Right`, on which a
    /// passenger waits, with its field.
    pub fn pickup_passenger_at_position(&self, pos: &CubeCoordinates) -> (found: Option<
        (CubeCoordinates, Field),
    >)
        ensures
            found is Some <==> self@.first_offer(pos@, 6) is Some,
            found matches Some((cell, field)) ==> {
                &&& cell@ == pos@.plus(CubeDirection::at(self@.first_offer(pos@, 6)->0).unit())
                &&& self@.field_at(cell@) == Some(field)
                &&& field.offers_passenger()
            },
    {
        let directions = CubeDirection::VALUES;
        let mut i: usize = 0;
        while i < 6
            invariant
                i <= 6,
                directions == CubeDirection::VALUES,
                self@.first_offer(pos@, i as nat) is None,
            decreases 6 - i,
        {
            match self.neighbor_on_board(&directions[i], pos) {
                Some((cell, field)) => {
                    if field.has_waiting_passenger() {
                        proof {
                            assert(directions[i as int] == CubeDirection::at(i as int));
                            assert(self@.offers_toward(i as int, pos@));
                            assert(self@.first_offer(pos@, (i + 1) as nat) == Some(i as int));
                            lemma_first_offer_stays(self@, pos@, (i + 1) as nat, 6);
                        }
                        return Some((cell, field));
                    }
                },
                None => {},
            }
            proof {
                assert(directions[i as int] == CubeDirection::at(i as int));
                assert(!self@.offers_toward(i as int, pos@));
            }
            i += 1;
        }
        None
    }

    /// Tells whether a segment after segment `i` holds the cell at `coords`.
    pub fn held_after(&self, i: usize, coords: &CubeCoordinates) -> (b: bool)
        requires
            i < self.segments.len(),
        ensures
            b == self@.held_after(i as int, coords@),
    {
        coords.recall_representable();
        let mut j: usize = i + 1;
        while j < self.segments.len()
            invariant
                i < j <= self.segments.len(),
                coords@.representable(),
                forall|k: int| i < k < j ==> !self@.covers(k, coords@),
            decreases self.segments.len() - j,
        {
            if self.segments[j].contains(*coords) {
                assert(self@.covers(j as int, coords@));
                return true;
            }
            j += 1;
        }
        false
    }

    /// Tells whether segment `i` shares a cell with a segment after it.
    pub fn overlaps_later(&self, i: usize) -> (b: bool)
        requires
            i < self.segments.len(),
        ensures
            b == exists|h: Hex| self@.shared(i as int, h),
    {
        let seg = &self.segments[i];
        let mut x: usize = 0;
        while x < seg.fields.len()
            invariant
                i < self.segments.len(),
                seg == &self.segments[i as int],
                x <= seg.fields.len(),
                forall|h: Hex|
                    self@.shared(i as int, h) ==> seg@.to_local(h).grid_x() >= x,
            decreases seg.fields.len() - x,
        {
            let mut y: usize = 0;
            while y < seg.fields[x].len()
                invariant
                    i < self.segments.len(),
                    seg == &self.segments[i as int],
                    x < seg.fields.len(),
                    y <= seg.fields[x as int].len(),
                    forall|h: Hex|
                        self@.shared(i as int, h) ==> seg@.to_local(h).grid_x() >= x,
                    forall|h: Hex|
                        self@.shared(i as int, h) && seg@.to_local(h).grid_x() == x
                            ==> seg@.to_local(h).grid_y() >= y,
                decreases seg.fields[x as int].len() - y,
            {
                proof {
                    lemma_position_of_index(seg@, x as int, y as int);
                }
                match seg.position_at(x, y) {
                    Some(c) => {
                        if self.held_after(i, &c) {
                            assert(self@.shared(i as int, c@));
                            return true;
                        }
                    },
                    None => {},
                }
                y += 1;
            }
            x += 1;
        }
        proof {
            assert forall|h: Hex| !self@.shared(i as int, h) by {}
        }
        false
    }

    /// Tells whether no cell is held by two segments.
    pub fn segments_are_disjoint(&self) -> (b: bool)
        ensures
            b == self@.exclusive(),
    {
        let mut i: usize = 0;
        while i < self.segments.len()
            invariant
                i <= self.segments.len(),
                forall|h: Hex, k: int| 0 <= k < i ==> !self@.shared(k, h),
            decreases self.segments.len() - i,
        {
            if self.overlaps_later(i) {
                proof {
                    let h = choose|h: Hex| self@.shared(i as int, h);
                    let j = choose|j: int| i < j && #[trigger] self@.covers(j, h);
                    assert(self@.covers(i as int, h) && self@.covers(j, h));
                }
                return false;
            }
            i += 1;
        }
        proof {
            assert forall|h: Hex, a: int, c: int|
                self@.covers(a, h) && self@.covers(c, h) implies a == c by {
                if a < c {
                    assert(self@.shared(a, h));
                }
                if c < a {
                    assert(self@.shared(c, h));
                }
            }
        }
        true
    }

    /// Tells whether the field at `coords` is a sandbank.
    pub fn is_sandbank(&self, coords: &CubeCoordinates) -> (b: bool)
        ensures
            b <==> (self@.field_at(coords@) matches Some(f) && f.field_type == FieldType::Sandbank),
    {
        match self.get(coords) {
            Some(field) => match field.field_type {
                FieldType::Sandbank => true,
                _ => false,
            },
            None => false,
        }
    }
}

} // verus!
