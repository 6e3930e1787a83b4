//! Cube coordinates, grid indices and the six directions of the hex compass.

use vstd::prelude::*;

verus! {

/// A cell of the unbounded hexagonal plane, named by two of its three cube axes.
/// The third axis is `-q - r`, so the three always sum to zero.
pub struct Hex {
    pub q: int,
    pub r: int,
}

impl Hex {
    /// The third cube axis.
    pub open spec fn s(self) -> int {
        -self.q - self.r
    }

    /// The sum, axis by axis.
    pub open spec fn plus(self, other: Hex) -> Hex {
        Hex { q: self.q + other.q, r: self.r + other.r }
    }

    /// The difference, axis by axis.
    pub open spec fn minus(self, other: Hex) -> Hex {
        Hex { q: self.q - other.q, r: self.r - other.r }
    }

    /// Every axis multiplied by `count`.
    pub open spec fn times(self, count: int) -> Hex {
        Hex { q: self.q * count, r: self.r * count }
    }

    /// Every axis negated.
    pub open spec fn negated(self) -> Hex {
        Hex { q: -self.q, r: -self.r }
    }

    /// The cell turned about the origin by `turns` sixths of a full clockwise turn.
    pub open spec fn rotated(self, turns: int) -> Hex {
        let t = turns % 6;
        if t == 0 {
            self
        } else if t == 1 {
            Hex { q: -self.r, r: self.q + self.r }
        } else if t == 2 {
            Hex { q: -self.q - self.r, r: self.q }
        } else if t == 3 {
            Hex { q: -self.q, r: -self.r }
        } else if t == 4 {
            Hex { q: self.r, r: -self.q - self.r }
        } else {
            Hex { q: self.q + self.r, r: -self.q }
        }
    }

    /// Whether all three axes fit a signed 32-bit integer.
    pub open spec fn representable(self) -> bool {
        &&& i32::MIN <= self.q <= i32::MAX
        &&& i32::MIN <= self.r <= i32::MAX
        &&& i32::MIN <= self.s() <= i32::MAX
    }

    /// First index of the cell in a segment's grid, when the cell is local to it.
    pub open spec fn grid_x(self) -> int {
        if self.r > 0 {
            self.q + self.r + 1
        } else {
            self.q + 1
        }
    }

    /// Second index of the cell in a segment's grid, when the cell is local to it.
    pub open spec fn grid_y(self) -> int {
        self.r + 2
    }

    /// The local cell that a segment keeps at index `(x, y)` of its grid.
    pub open spec fn at_grid(x: int, y: int) -> Hex {
        let r = y - 2;
        Hex { q: if r > 0 { x - 1 - r } else { x - 1 }, r }
    }
}

/// Turning by `a` and then by `b` is turning by `a + b`.
pub proof fn lemma_rotation_composes(h: Hex, a: int, b: int)
    ensures
        h.rotated(a).rotated(b) == h.rotated(a + b),
{
    assert((a % 6 + b % 6) % 6 == (a + b) % 6) by (nonlinear_arith);
}

/// Turning by a multiple of six changes nothing.
pub proof fn lemma_full_turn(h: Hex, a: int)
    requires
        a % 6 == 0,
    ensures
        h.rotated(a) == h,
{
}

/// A cell and its grid index determine each other.
pub proof fn lemma_grid_round_trip(h: Hex, x: int, y: int)
    ensures
        Hex::at_grid(h.grid_x(), h.grid_y()) == h,
        Hex::at_grid(x, y).grid_x() == x,
        Hex::at_grid(x, y).grid_y() == y,
{
}

/// An index into a segment's grid.
#[derive(Clone, Copy, Debug, PartialEq, Eq, PartialOrd, Structural, Hash)]
pub struct CartesianCoordinate {
    pub x: i32,
    pub y: i32,
}

/// A cell of the plane in cube coordinates, all three axes within 32 bits. The three axes sum
/// to zero, so only `q` and `r` are kept and `s` is computed from them.
#[derive(Clone, Copy, Debug, PartialEq, Eq, PartialOrd, Structural, Hash)]
pub struct CubeCoordinates {
    q: i32,
    r: i32,
}

impl View for CubeCoordinates {
    type V = Hex;

    closed spec fn view(&self) -> Hex {
        Hex { q: self.q as int, r: self.r as int }
    }
}

impl CubeCoordinates {
    #[verifier::type_invariant]
    spec fn third_axis_fits(self) -> bool {
        i32::MIN <= -(self.q as int) - (self.r as int) <= i32::MAX
    }

    /// The cell with the given first two axes.
    pub fn new(q: i32, r: i32) -> (c: CubeCoordinates)
        requires
            (Hex { q: q as int, r: r as int }).representable(),
        ensures
            c@ == (Hex { q: q as int, r: r as int }),
    {
        CubeCoordinates { q, r }
    }

    /// The cell with the given first two axes, if its three axes fit 32 bits.
    pub fn checked_new(q: i64, r: i64) -> (c: Option<CubeCoordinates>)
        ensures
            c is Some <==> (Hex { q: q as int, r: r as int }).representable(),
            c matches Some(v) ==> v@ == (Hex { q: q as int, r: r as int }),
    {
        if -2147483648 <= q && q <= 2147483647 && -2147483648 <= r && r <= 2147483647 {
            let s: i64 = -q - r;
            if -2147483648 <= s && s <= 2147483647 {
                return Some(CubeCoordinates { q: q as i32, r: r as i32 });
            }
        }
        None
    }

    /// Recalls that the three axes of a coordinate fit 32 bits.
    pub(crate) fn recall_representable(&self)
        ensures
            self@.representable(),
    {
        proof {
            use_type_invariant(self);
        }
    }

    /// The first axis.
    pub fn q(&self) -> (v: i32)
        ensures
            v == self@.q,
    {
        self.q
    }

    /// The second axis.
    pub fn r(&self) -> (v: i32)
        ensures
            v == self@.r,
    {
        self.r
    }

    /// The third axis, `-q - r`.
    pub fn s(&self) -> (v: i32)
        ensures
            v == self@.s(),
    {
        proof {
            use_type_invariant(self);
        }
        let s: i64 = -(self.q as i64) - (self.r as i64);
        s as i32
    }

    /// Component-wise sum.
    pub fn plus(&self, other: &CubeCoordinates) -> (c: CubeCoordinates)
        requires
            self@.plus(other@).representable(),
        ensures
            c@ == self@.plus(other@),
    {
        CubeCoordinates { q: self.q + other.q, r: self.r + other.r }
    }

    /// Component-wise difference.
    pub fn minus(&self, other: &CubeCoordinates) -> (c: CubeCoordinates)
        requires
            self@.minus(other@).representable(),
        ensures
            c@ == self@.minus(other@),
    {
        CubeCoordinates { q: self.q - other.q, r: self.r - other.r }
    }

    /// Every component multiplied by `count`.
    pub fn times(&self, count: i32) -> (c: CubeCoordinates)
        requires
            self@.times(count as int).representable(),
        ensures
            c@ == self@.times(count as int),
    {
        CubeCoordinates { q: self.q * count, r: self.r * count }
    }

    /// Every component negated.
    pub fn unary_minus(&self) -> (c: CubeCoordinates)
        requires
            self@.negated().representable(),
        ensures
            c@ == self@.negated(),
    {
        CubeCoordinates { q: -self.q, r: -self.r }
    }

    /// The cell turned about the origin by `turns` sixths of a full clockwise turn.
    pub fn rotated_by(&self, turns: i32) -> (c: CubeCoordinates)
        requires
            self@.rotated(turns as int).representable(),
        ensures
            c@ == self@.rotated(turns as int),
    {
        proof {
            use_type_invariant(self);
        }
        let (q, r): (i128, i128) = rotate_axial(self.q as i128, self.r as i128, turns);
        CubeCoordinates { q: q as i32, r: r as i32 }
    }

    /// The index at which a segment keeps this cell in its grid, the cell taken as local to it.
    pub fn to_cartesian(&self) -> (g: CartesianCoordinate)
        requires
            i32::MIN <= self@.grid_x() <= i32::MAX,
            i32::MIN <= self@.grid_y() <= i32::MAX,
        ensures
            g.x == self@.grid_x(),
            g.y == self@.grid_y(),
    {
        let x: i64 = if self.r > 0 {
            self.q as i64 + self.r as i64 + 1
        } else {
            self.q as i64 + 1
        };
        CartesianCoordinate { x: x as i32, y: self.r + 2 }
    }
}

/// The cell that an optional coordinate names.
pub open spec fn named(c: Option<CubeCoordinates>) -> Option<Hex> {
    match c {
        Some(v) => Some(v@),
        None => None,
    }
}

/// The cells that a list of coordinates names, in its order.
pub open spec fn cells_of(list: Seq<CubeCoordinates>) -> Seq<Hex> {
    Seq::new(list.len(), |i: int| list[i]@)
}

/// `turns` reduced to the six distinct turns.
pub fn turns_mod_six(turns: i32) -> (t: i32)
    ensures
        t == (turns as int) % 6,
{
    let t: i32 = turns % 6;
    if t < 0 {
        t + 6
    } else {
        t
    }
}

/// The axial pair `(q, r)` turned about the origin by `turns` sixths of a full clockwise turn.
pub(crate) fn rotate_axial(q: i128, r: i128, turns: i32) -> (turned: (i128, i128))
    requires
        -0x1_0000_0000_0000_0000_0000 <= q <= 0x1_0000_0000_0000_0000_0000,
        -0x1_0000_0000_0000_0000_0000 <= r <= 0x1_0000_0000_0000_0000_0000,
    ensures
        (Hex { q: turned.0 as int, r: turned.1 as int }) == (Hex { q: q as int, r: r as int }).rotated(
            turns as int,
        ),
{
    let t: i32 = turns_mod_six(turns);
    if t == 0 {
        (q, r)
    } else if t == 1 {
        (-r, q + r)
    } else if t == 2 {
        (-q - r, q)
    } else if t == 3 {
        (-q, -r)
    } else if t == 4 {
        (r, -q - r)
    } else {
        (q + r, -q)
    }
}

impl CartesianCoordinate {
    pub fn new(x: i32, y: i32) -> (g: CartesianCoordinate)
        ensures
            g.x == x,
            g.y == y,
    {
        CartesianCoordinate { x, y }
    }

    /// The local cell that a segment keeps at this index of its grid.
    pub fn to_cube(&self) -> (c: CubeCoordinates)
        requires
            Hex::at_grid(self.x as int, self.y as int).representable(),
        ensures
            c@ == Hex::at_grid(self.x as int, self.y as int),
    {
        let r: i64 = self.y as i64 - 2;
        let q: i64 = if r > 0 {
            self.x as i64 - 1 - r
        } else {
            self.x as i64 - 1
        };
        CubeCoordinates { q: q as i32, r: r as i32 }
    }
}

/// Two coordinates are the same value exactly when they name the same cell.
pub proof fn lemma_view_injective(a: CubeCoordinates, b: CubeCoordinates)
    ensures
        a@ == b@ <==> a == b,
{
}

/// The six directions of the hex compass, clockwise from `Right`.
#[derive(Clone, Copy, Debug, PartialEq, Eq, PartialOrd, Structural, Hash)]
pub enum CubeDirection {
    Right,
    DownRight,
    DownLeft,
    Left,
    UpLeft,
    UpRight,
}

impl CubeDirection {
    /// All six directions in the order in which neighbours are visited.
    pub const VALUES: [CubeDirection; 6] = [
        CubeDirection::Right,
        CubeDirection::DownRight,
        CubeDirection::DownLeft,
        CubeDirection::Left,
        CubeDirection::UpLeft,
        CubeDirection::UpRight,
    ];

    /// Position of the direction in the clockwise order, from 0 for `Right`.
    pub open spec fn index(self) -> int {
        match self {
            CubeDirection::Right => 0,
            CubeDirection::DownRight => 1,
            CubeDirection::DownLeft => 2,
            CubeDirection::Left => 3,
            CubeDirection::UpLeft => 4,
            CubeDirection::UpRight => 5,
        }
    }

    /// The direction at position `i % 6` of the clockwise order.
    pub open spec fn at(i: int) -> CubeDirection {
        let t = i % 6;
        if t == 0 {
            CubeDirection::Right
        } else if t == 1 {
            CubeDirection::DownRight
        } else if t == 2 {
            CubeDirection::DownLeft
        } else if t == 3 {
            CubeDirection::Left
        } else if t == 4 {
            CubeDirection::UpLeft
        } else {
            CubeDirection::UpRight
        }
    }

    /// The step of length one in this direction.
    pub open spec fn unit(self) -> Hex {
        match self {
            CubeDirection::Right => Hex { q: 1, r: 0 },
            CubeDirection::DownRight => Hex { q: 0, r: 1 },
            CubeDirection::DownLeft => Hex { q: -1, r: 1 },
            CubeDirection::Left => Hex { q: -1, r: 0 },
            CubeDirection::UpLeft => Hex { q: 0, r: -1 },
            CubeDirection::UpRight => Hex { q: 1, r: -1 },
        }
    }

    /// The signed number of clockwise steps, between -2 and 3, that leads from `self` to `target`.
    pub open spec fn turns_to(self, target: CubeDirection) -> int {
        let d = (target.index() - self.index()) % 6;
        if d > 3 {
            d - 6
        } else {
            d
        }
    }

    /// Returns the position of the direction in the clockwise order, from 0 for `Right`.
    pub fn ordinal(&self) -> (i: i32)
        ensures
            i == self.index(),
    {
        match self {
            CubeDirection::Right => 0,
            CubeDirection::DownRight => 1,
            CubeDirection::DownLeft => 2,
            CubeDirection::Left => 3,
            CubeDirection::UpLeft => 4,
            CubeDirection::UpRight => 5,
        }
    }

    /// Returns the step of length one in this direction.
    pub fn vector(&self) -> (c: CubeCoordinates)
        ensures
            c@ == self.unit(),
    {
        match self {
            CubeDirection::Right => CubeCoordinates::new(1, 0),
            CubeDirection::DownRight => CubeCoordinates::new(0, 1),
            CubeDirection::DownLeft => CubeCoordinates::new(-1, 1),
            CubeDirection::Left => CubeCoordinates::new(-1, 0),
            CubeDirection::UpLeft => CubeCoordinates::new(0, -1),
            CubeDirection::UpRight => CubeCoordinates::new(1, -1),
        }
    }

    /// Returns the direction reached after `turns` clockwise steps; a negative count turns
    /// counter-clockwise.
    pub fn rotated_by(&self, turns: i32) -> (d: CubeDirection)
        ensures
            d == CubeDirection::at(self.index() + turns),
    {
        let t: i32 = turns_mod_six(turns);
        let i: i32 = (self.ordinal() + t) % 6;
        assert((self.index() + (turns as int) % 6) % 6 == (self.index() + turns) % 6)
            by (nonlinear_arith);
        if i == 0 {
            CubeDirection::Right
        } else if i == 1 {
            CubeDirection::DownRight
        } else if i == 2 {
            CubeDirection::DownLeft
        } else if i == 3 {
            CubeDirection::Left
        } else if i == 4 {
            CubeDirection::UpLeft
        } else {
            CubeDirection::UpRight
        }
    }

    /// Returns the direction that points the other way.
    pub fn opposite(&self) -> (d: CubeDirection)
        ensures
            d == CubeDirection::at(self.index() + 3),
            d.unit() == self.unit().negated(),
    {
        self.rotated_by(3)
    }

    /// Returns the signed number of clockwise steps, between -2 and 3, that leads from `self`
    /// to `target`.
    pub fn turn_count_to(&self, target: CubeDirection) -> (t: i32)
        ensures
            t == self.turns_to(target),
            -2 <= t <= 3,
    {
        let d: i32 = turns_mod_six(target.ordinal() - self.ordinal());
        if d > 3 {
            d - 6
        } else {
            d
        }
    }
}

/// Turning a direction turns its unit step.
pub proof fn lemma_rotated_unit(d: CubeDirection, turns: int)
    ensures
        CubeDirection::at(d.index() + turns).unit() == d.unit().rotated(turns),
        CubeDirection::at(d.index()) == d,
{
    assert((d.index() + turns % 6) % 6 == (d.index() + turns) % 6) by (nonlinear_arith);
}

/// The way from one direction to another and the way back cancel.
pub proof fn lemma_turns_cancel(a: CubeDirection, b: CubeDirection)
    ensures
        (a.turns_to(b) + b.turns_to(a)) % 6 == 0,
        CubeDirection::at(a.index() + a.turns_to(b)) == b,
{
}

} // verus!
