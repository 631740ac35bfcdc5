use vstd::prelude::*;

verus! {

/// One axial coordinate.
pub type Coordinate = i32;

/// The three cube coordinates `(x, y, z)` of a position.
pub type Coordinates = (i32, i32, i32);

/// A signed number of steps.
pub type Distance = i32;

/// Whether a mathematical integer is representable as an `i32`.
pub open spec fn fits(v: int) -> bool {
    i32::MIN <= v <= i32::MAX
}

/// Absolute value over the integers.
pub open spec fn abs(v: int) -> int {
    if v < 0 {
        -v
    } else {
        v
    }
}

/// The largest of three integers.
pub open spec fn max3(a: int, b: int, c: int) -> int {
    if a >= b && a >= c {
        a
    } else if b >= c {
        b
    } else {
        c
    }
}

/// Hex distance of the vector `(x, y, -x-y)` from the zero position.
pub open spec fn hex_norm(x: int, y: int) -> int {
    max3(abs(x), abs(y), abs(-x - y))
}

/// A position on the hexagonal grid. Only `x` and `y` are stored; the third
/// cube coordinate is `z = -x - y`, so `x + y + z == 0` holds by construction.
#[derive(Debug, Clone, Copy, PartialEq, Eq, Hash, Structural)]
pub struct Position(pub Coordinate, pub Coordinate);

impl View for Position {
    type V = (int, int);

    open spec fn view(&self) -> (int, int) {
        (self.0 as int, self.1 as int)
    }
}

/// The position `k` steps from `(x, y)` in direction `d`.
pub open spec fn walk(x: int, y: int, d: Direction, k: int) -> (int, int) {
    (x + step_x(d, k), y + step_y(d, k))
}

/// Whether `(x, y)` names a position whose coordinates are all representable.
pub open spec fn valid_view(v: (int, int)) -> bool {
    fits(v.0) && fits(v.1) && fits(-v.0 - v.1)
}

/// Whether every position within hex distance `r` of `o` has representable
/// coordinates.
pub open spec fn box_fits(o: Position, r: int) -> bool {
    &&& fits(o.px() - r)
    &&& fits(o.px() + r)
    &&& fits(o.py() - r)
    &&& fits(o.py() + r)
    &&& fits(o.pz() - r)
    &&& fits(o.pz() + r)
}

/// Hex distance between the position `v` and `o`.
pub open spec fn hex_dist(v: (int, int), o: Position) -> int {
    hex_norm(v.0 - o.px(), v.1 - o.py())
}

/// A position near a centre whose surroundings fit is representable.
pub proof fn lemma_near_valid(v: (int, int), o: Position, r: int)
    requires
        box_fits(o, r),
        hex_dist(v, o) <= r,
    ensures
        valid_view(v),
{
}

/// `k` steps in direction `d`, as a pair of `i64` offsets.
pub fn step(d: Direction, k: i64) -> (r: (i64, i64))
    requires
        k > i64::MIN,
    ensures
        r.0 == step_x(d, k as int),
        r.1 == step_y(d, k as int),
{
    match d {
        Direction::XY => (k, -k),
        Direction::XZ => (k, 0),
        Direction::YX => (-k, k),
        Direction::YZ => (0, k),
        Direction::ZX => (-k, 0),
        Direction::ZY => (0, -k),
    }
}

/// Why a position could not be built.
#[derive(Debug, Clone, Copy, PartialEq, Eq)]
pub enum PositionError {
    InvalidCoordinates(Coordinates),
}

impl Position {
    /// The derived coordinate `z` is representable too.
    pub open spec fn valid(self) -> bool {
        fits(-(self.0 as int) - (self.1 as int))
    }

    pub open spec fn px(self) -> int {
        self.0 as int
    }

    pub open spec fn py(self) -> int {
        self.1 as int
    }

    pub open spec fn pz(self) -> int {
        -(self.0 as int) - (self.1 as int)
    }

    /// Hex distance of this position from the zero position.
    pub open spec fn norm(self) -> int {
        hex_norm(self.px(), self.py())
    }

    /// Whether `(x, y)` names a position whose derived `z` is representable.
    pub open spec fn valid_xy(x: int, y: int) -> bool {
        fits(x) && fits(y) && fits(-x - y)
    }

    /// The position with coordinates `(x, y)`, for `valid_xy(x, y)`.
    pub open spec fn at(x: int, y: int) -> Position {
        Position(x as i32, y as i32)
    }

    /// Builds the position `(x, y)` from values known to be valid.
    pub fn from_xy(x: i64, y: i64) -> (r: Position)
        requires
            Self::valid_xy(x as int, y as int),
        ensures
            r.px() == x,
            r.py() == y,
            r@ == (x as int, y as int),
            r.valid(),
    {
        Position(x as i32, y as i32)
    }

    pub fn zero() -> (r: Position)
        ensures
            r.px() == 0,
            r.py() == 0,
            r.pz() == 0,
            r.valid(),
    {
        Position(0, 0)
    }

    /// Builds a position from cube coordinates, which must sum to zero.
    pub fn new(coordinates: Coordinates) -> (r: Result<Position, PositionError>)
        ensures
            r is Ok <==> coordinates.0 + coordinates.1 + coordinates.2 == 0,
            r matches Ok(p) ==> p.px() == coordinates.0 && p.py() == coordinates.1 && p.pz()
                == coordinates.2 && p.valid(),
            r matches Err(e) ==> e == PositionError::InvalidCoordinates(coordinates),
    {
        let (x, y, z) = coordinates;
        if x as i64 + y as i64 + z as i64 != 0 {
            Err(PositionError::InvalidCoordinates(coordinates))
        } else {
            Ok(Position(x, y))
        }
    }

    pub fn x(&self) -> (r: Coordinate)
        ensures
            r == self.px(),
    {
        self.0
    }

    pub fn y(&self) -> (r: Coordinate)
        ensures
            r == self.py(),
    {
        self.1
    }

    pub fn z(&self) -> (r: Coordinate)
        requires
            self.valid(),
        ensures
            r == self.pz(),
    {
        (-(self.0 as i64) - (self.1 as i64)) as i32
    }

    /// The value of one cube coordinate.
    pub open spec fn axis_value(self, axis: Axis) -> int {
        match axis {
            Axis::X => self.px(),
            Axis::Y => self.py(),
            Axis::Z => self.pz(),
        }
    }

    pub fn axis(&self, axis: Axis) -> (r: Coordinate)
        requires
            self.valid(),
        ensures
            r == self.axis_value(axis),
    {
        match axis {
            Axis::X => self.x(),
            Axis::Y => self.y(),
            Axis::Z => self.z(),
        }
    }

    /// Hex distance from the zero position: the largest absolute coordinate.
    pub fn distance(&self) -> (r: Distance)
        requires
            self.valid(),
            self.px() > i32::MIN,
            self.py() > i32::MIN,
            self.pz() > i32::MIN,
        ensures
            r == self.norm(),
    {
        let x = self.x();
        let y = self.y();
        let z = self.z();
        let ax = if x < 0 { -x } else { x };
        let ay = if y < 0 { -y } else { y };
        let az = if z < 0 { -z } else { z };
        let m = if ax >= ay { ax } else { ay };
        if m >= az { m } else { az }
    }

    /// The cube coordinates `(x, y, z)`; they always sum to zero.
    pub fn coordinates(&self) -> (r: Coordinates)
        requires
            self.valid(),
        ensures
            r == (self.px() as i32, self.py() as i32, self.pz() as i32),
            r.0 + r.1 + r.2 == 0,
    {
        (self.x(), self.y(), self.z())
    }

    /// Component-wise sum.
    pub fn add(self, other: Position) -> (r: Position)
        requires
            Self::valid_xy(self.px() + other.px(), self.py() + other.py()),
        ensures
            r.px() == self.px() + other.px(),
            r.py() == self.py() + other.py(),
            r.valid(),
    {
        Position(self.0 + other.0, self.1 + other.1)
    }

    /// The position mirrored through zero.
    pub fn neg(self) -> (r: Position)
        requires
            Self::valid_xy(-self.px(), -self.py()),
        ensures
            r.px() == -self.px(),
            r.py() == -self.py(),
            r.valid(),
    {
        Position(-self.0, -self.1)
    }

    /// Component-wise difference.
    pub fn sub(self, other: Position) -> (r: Position)
        requires
            Self::valid_xy(self.px() - other.px(), self.py() - other.py()),
        ensures
            r.px() == self.px() - other.px(),
            r.py() == self.py() - other.py(),
            r.valid(),
    {
        Position(self.0 - other.0, self.1 - other.1)
    }

    /// Each coordinate multiplied by `factor`.
    pub fn mul(self, factor: Distance) -> (r: Position)
        requires
            Self::valid_xy(self.px() * factor, self.py() * factor),
        ensures
            r.px() == self.px() * factor,
            r.py() == self.py() * factor,
            r.valid(),
    {
        Position(self.0 * factor, self.1 * factor)
    }
}

/// Every position's cube coordinates sum to zero.
pub proof fn lemma_coordinates_sum_to_zero(p: Position)
    ensures
        p.px() + p.py() + p.pz() == 0,
{
}

impl From<Position> for (i32, i32, i32) {
    fn from(position: Position) -> (r: (i32, i32, i32)) {
        (position.0, position.1, (-(position.0 as i64) - (position.1 as i64)) as i32)
    }
}

impl vstd::std_specs::convert::FromSpecImpl<Position> for (i32, i32, i32) {
    open spec fn obeys_from_spec() -> bool {
        true
    }

    open spec fn from_spec(position: Position) -> (i32, i32, i32) {
        (position.px() as i32, position.py() as i32, position.pz() as i32)
    }
}

/// One of the three cube-coordinate axes.
#[derive(Debug, Clone, Copy, PartialEq, Eq, Hash, Structural)]
pub enum Axis {
    X,
    Y,
    Z,
}

/// One of the six unit steps on the grid. The name gives the axis whose
/// coordinate grows and the axis whose coordinate shrinks.
#[derive(Debug, Clone, Copy, PartialEq, Eq, Hash, Structural)]
pub enum Direction {
    XY,
    XZ,
    YX,
    YZ,
    ZX,
    ZY,
}

/// The `x` step of a direction's unit vector.
pub open spec fn unit_x(d: Direction) -> int {
    match d {
        Direction::XY => 1,
        Direction::XZ => 1,
        Direction::YX => -1,
        Direction::YZ => 0,
        Direction::ZX => -1,
        Direction::ZY => 0,
    }
}

/// The `y` step of a direction's unit vector.
pub open spec fn unit_y(d: Direction) -> int {
    match d {
        Direction::XY => -1,
        Direction::XZ => 0,
        Direction::YX => 1,
        Direction::YZ => 1,
        Direction::ZX => 0,
        Direction::ZY => -1,
    }
}

/// The `x` coordinate of `k` steps in direction `d`.
pub open spec fn step_x(d: Direction, k: int) -> int {
    match d {
        Direction::XY => k,
        Direction::XZ => k,
        Direction::YX => -k,
        Direction::YZ => 0,
        Direction::ZX => -k,
        Direction::ZY => 0,
    }
}

/// The `y` coordinate of `k` steps in direction `d`.
pub open spec fn step_y(d: Direction, k: int) -> int {
    match d {
        Direction::XY => -k,
        Direction::XZ => 0,
        Direction::YX => k,
        Direction::YZ => k,
        Direction::ZX => 0,
        Direction::ZY => -k,
    }
}

/// Whether `d` is one of the three canonical directions.
pub open spec fn is_normalized(d: Direction) -> bool {
    d == Direction::XY || d == Direction::YZ || d == Direction::ZX
}

impl Direction {
    pub open spec fn spec_opposite(self) -> Direction {
        match self {
            Direction::XY => Direction::YX,
            Direction::XZ => Direction::ZX,
            Direction::YX => Direction::XY,
            Direction::YZ => Direction::ZY,
            Direction::ZX => Direction::XZ,
            Direction::ZY => Direction::YZ,
        }
    }

    pub open spec fn spec_rotate(self) -> Direction {
        match self {
            Direction::XY => Direction::XZ,
            Direction::XZ => Direction::YZ,
            Direction::YZ => Direction::YX,
            Direction::YX => Direction::ZX,
            Direction::ZX => Direction::ZY,
            Direction::ZY => Direction::XY,
        }
    }

    pub open spec fn spec_normalize(self) -> Direction {
        match self {
            Direction::YX | Direction::ZY | Direction::XZ => self.spec_opposite(),
            _ => self,
        }
    }

    /// The (positive, neutral, negative) axes of the direction.
    pub open spec fn spec_axes(self) -> (Axis, Axis, Axis) {
        match self {
            Direction::XY => (Axis::X, Axis::Z, Axis::Y),
            Direction::XZ => (Axis::X, Axis::Y, Axis::Z),
            Direction::YX => (Axis::Y, Axis::Z, Axis::X),
            Direction::YZ => (Axis::Y, Axis::X, Axis::Z),
            Direction::ZX => (Axis::Z, Axis::Y, Axis::X),
            Direction::ZY => (Axis::Z, Axis::X, Axis::Y),
        }
    }

    /// The unit step of the direction as a position.
    pub fn position(&self) -> (r: Position)
        ensures
            r.px() == unit_x(*self),
            r.py() == unit_y(*self),
            r.valid(),
    {
        match self {
            Direction::XY => Position(1, -1),
            Direction::XZ => Position(1, 0),
            Direction::YX => Position(-1, 1),
            Direction::YZ => Position(0, 1),
            Direction::ZX => Position(-1, 0),
            Direction::ZY => Position(0, -1),
        }
    }

    /// All six directions.
    pub fn all() -> (r: [Direction; 6])
        ensures
            r@ == seq![
                Direction::XY,
                Direction::XZ,
                Direction::YX,
                Direction::YZ,
                Direction::ZX,
                Direction::ZY,
            ],
    {
        [Direction::XY, Direction::XZ, Direction::YX, Direction::YZ, Direction::ZX, Direction::ZY]
    }

    /// The three canonical directions.
    pub fn normalized() -> (r: [Direction; 3])
        ensures
            r@ == seq![Direction::XY, Direction::YZ, Direction::ZX],
    {
        [Direction::XY, Direction::YZ, Direction::ZX]
    }

    /// The positive, neutral and negative axes.
    pub fn axes(&self) -> (r: (Axis, Axis, Axis))
        ensures
            r == self.spec_axes(),
    {
        match self {
            Direction::XY => (Axis::X, Axis::Z, Axis::Y),
            Direction::XZ => (Axis::X, Axis::Y, Axis::Z),
            Direction::YX => (Axis::Y, Axis::Z, Axis::X),
            Direction::YZ => (Axis::Y, Axis::X, Axis::Z),
            Direction::ZX => (Axis::Z, Axis::Y, Axis::X),
            Direction::ZY => (Axis::Z, Axis::X, Axis::Y),
        }
    }

    pub fn positive_axis(&self) -> (r: Axis)
        ensures
            r == self.spec_axes().0,
    {
        self.axes().0
    }

    pub fn neutral_axis(&self) -> (r: Axis)
        ensures
            r == self.spec_axes().1,
    {
        self.axes().1
    }

    pub fn negative_axis(&self) -> (r: Axis)
        ensures
            r == self.spec_axes().2,
    {
        self.axes().2
    }

    /// Maps the three non-canonical directions to their opposites, which
    /// are canonical; canonical directions are returned unchanged.
    pub fn normalize(&self) -> (r: Direction)
        ensures
            r == self.spec_normalize(),
            is_normalized(r),
    {
        match self {
            Direction::YX | Direction::ZY | Direction::XZ => self.opposite(),
            other => *other,
        }
    }

    pub fn opposite(&self) -> (r: Direction)
        ensures
            r == self.spec_opposite(),
    {
        match self {
            Direction::XY => Direction::YX,
            Direction::XZ => Direction::ZX,
            Direction::YX => Direction::XY,
            Direction::YZ => Direction::ZY,
            Direction::ZX => Direction::XZ,
            Direction::ZY => Direction::YZ,
        }
    }

    /// The next direction clockwise.
    pub fn rotate(&self) -> (r: Direction)
        ensures
            r == self.spec_rotate(),
    {
        match self {
            Direction::XY => Direction::XZ,
            Direction::XZ => Direction::YZ,
            Direction::YZ => Direction::YX,
            Direction::YX => Direction::ZX,
            Direction::ZX => Direction::ZY,
            Direction::ZY => Direction::XY,
        }
    }

    /// The next direction counter-clockwise.
    pub fn rotate_back(&self) -> (r: Direction)
        ensures
            r.spec_rotate() == *self,
            r == self.spec_opposite().spec_rotate().spec_rotate(),
    {
        self.opposite().rotate().rotate()
    }
}

impl From<Direction> for Position {
    fn from(direction: Direction) -> (r: Position) {
        direction.position()
    }
}

impl vstd::std_specs::convert::FromSpecImpl<Direction> for Position {
    open spec fn obeys_from_spec() -> bool {
        true
    }

    open spec fn from_spec(direction: Direction) -> Position {
        Position::at(unit_x(direction), unit_y(direction))
    }
}

} // verus!
