use vstd::prelude::*;

use crate::line::Line;
use crate::position::{
    abs, box_fits, hex_dist, is_normalized, lemma_near_valid, step, walk, Direction, Distance,
    Position,
};
use crate::ring::{Ring, RingIterator};
use crate::segment::Segment;

verus! {

/// The filled hexagonal region of all positions within hex distance `radius`
/// of `origin`.
#[derive(Debug, Clone, Copy, PartialEq, Eq, Structural)]
pub struct Hexagon {
    pub origin: Position,
    pub radius: Distance,
}

/// Why a hexagon could not be built.
#[derive(Debug, Clone, Copy, PartialEq, Eq)]
pub enum HexagonError {
    InsufficientRadius(Distance),
}

/// Which chord of direction `d` (canonical) the position `v` lies on, counted
/// from the chord through `o`.
pub open spec fn chord_key(v: (int, int), o: Position, d: Direction) -> int {
    match d {
        Direction::XY => v.0 + v.1 - o.px() - o.py(),
        Direction::YZ => o.px() - v.0,
        _ => o.py() - v.1,
    }
}

/// How many steps in direction `d` (canonical) lead from `start` to `v`.
pub open spec fn chord_offset(v: (int, int), start: (int, int), d: Direction) -> int {
    match d {
        Direction::XY => v.0 - start.0,
        Direction::YZ => v.1 - start.1,
        _ => start.0 - v.0,
    }
}

impl Hexagon {
    /// The radius is positive and every position inside is representable.
    pub open spec fn wf(self) -> bool {
        &&& self.radius > 0
        &&& 2 * self.radius < i32::MAX
        &&& self.origin.valid()
        &&& box_fits(self.origin, self.radius as int)
    }

    /// Whether the position `v` lies inside the hexagon.
    pub open spec fn contains_point(self, v: (int, int)) -> bool {
        hex_dist(v, self.origin) <= self.radius
    }

    /// The number of positions inside a hexagon of radius `r`.
    pub open spec fn area(r: int) -> int {
        1 + 3 * r * (r + 1)
    }

    /// The length of the chord at `distance`.
    pub open spec fn chord_length(self, distance: int) -> int {
        2 * self.radius - abs(distance) + 1
    }

    /// The first position of the chord at `distance` in direction `d`: from
    /// the point `distance` steps off the centre (in the direction one turn
    /// clockwise from `d`), walk back along `d` to the boundary.
    pub open spec fn chord_start(self, distance: int, d: Direction) -> (int, int) {
        let p = walk(self.origin.px(), self.origin.py(), d.spec_rotate(), distance);
        let back = if distance >= 0 {
            self.radius as int
        } else {
            self.radius + distance
        };
        walk(p.0, p.1, d, -back)
    }

    /// The hexagon of the given radius around `origin`; the radius must be
    /// positive.
    pub fn new(origin: Position, radius: Distance) -> (r: Result<Hexagon, HexagonError>)
        requires
            origin.valid(),
            radius > 0 ==> box_fits(origin, radius as int),
            2 * radius < i32::MAX,
        ensures
            r is Ok <==> radius > 0,
            r matches Ok(h) ==> h.wf() && h.origin == origin && h.radius == radius,
            r matches Err(e) ==> e == HexagonError::InsufficientRadius(radius),
    {
        if radius > 0 {
            Ok(Hexagon { origin, radius })
        } else {
            Err(HexagonError::InsufficientRadius(radius))
        }
    }

    /// The hexagon of the given radius around the zero position.
    pub fn zero(radius: Distance) -> (r: Result<Hexagon, HexagonError>)
        requires
            2 * radius < i32::MAX,
        ensures
            r is Ok <==> radius > 0,
            r matches Ok(h) ==> h.wf() && h.origin@ == (0int, 0int) && h.radius == radius,
            r matches Err(e) ==> e == HexagonError::InsufficientRadius(radius),
    {
        Self::new(Position::zero(), radius)
    }

    pub fn origin(&self) -> (r: Position)
        ensures
            r == self.origin,
    {
        self.origin
    }

    pub fn radius(&self) -> (r: Distance)
        ensures
            r == self.radius,
    {
        self.radius
    }

    /// The ring of the given radius around the centre, if it lies inside.
    pub fn ring(&self, radius: Distance) -> (r: Option<Ring>)
        requires
            self.wf(),
        ensures
            r is Some <==> 0 < radius <= self.radius,
            r matches Some(ring) ==> ring.wf() && ring.origin == self.origin && ring.radius
                == radius,
    {
        if radius <= 0 || radius > self.radius {
            None
        } else {
            Some(Ring { origin: self.origin, radius })
        }
    }

    /// Whether the position lies inside the hexagon.
    pub fn contains(&self, position: Position) -> (r: bool)
        ensures
            r == self.contains_point(position@),
    {
        let dx = position.x() as i64 - self.origin.x() as i64;
        let dy = position.y() as i64 - self.origin.y() as i64;
        let dz = -dx - dy;
        let ax = if dx < 0 { -dx } else { dx };
        let ay = if dy < 0 { -dy } else { dy };
        let az = if dz < 0 { -dz } else { dz };
        ax <= self.radius as i64 && ay <= self.radius as i64 && az <= self.radius as i64
    }

    /// The chord of the hexagon in `direction` at the given signed distance
    /// from the centre: the full-width run of positions inside the hexagon
    /// on that line, from boundary to boundary.
    pub fn segment(&self, distance: Distance, direction: Direction) -> (r: Option<Segment>)
        requires
            self.wf(),
        ensures
            r is Some <==> abs(distance as int) <= self.radius,
            r matches Some(s) ==> {
                &&& s.wf()
                &&& s.length == self.chord_length(distance as int)
                &&& s.line.direction == direction
                &&& s.line.origin@ == self.chord_start(distance as int, direction)
                &&& forall|i: int| 0 <= i < s.length ==> #[trigger] self.contains_point(s.point(i))
                &&& !self.contains_point(s.point(-1))
                &&& !self.contains_point(s.point(s.length as int))
            },
    {
        if distance < -self.radius || distance > self.radius {
            return None;
        }
        let p = self.chord_start_position(distance, direction);
        let length = self.radius * 2 - (if distance < 0 { -distance } else { distance }) + 1;
        let s = Segment { line: Line::new(p, direction), length };
        proof {
            self.lemma_chord(distance as int, direction);
            lemma_near_valid(s.point(length - 1), self.origin, self.radius as int);
        }
        Some(s)
    }

    /// The chord at `distance` lies inside the hexagon and reaches its
    /// boundary at both ends.
    pub proof fn lemma_chord(self, distance: int, d: Direction)
        requires
            self.radius > 0,
            abs(distance) <= self.radius,
        ensures
            ({
                let s = self.chord_start(distance, d);
                let n = self.chord_length(distance);
                &&& forall|i: int| 0 <= i < n ==> #[trigger] self.contains_point(walk(s.0, s.1, d, i))
                &&& !self.contains_point(walk(s.0, s.1, d, -1))
                &&& !self.contains_point(walk(s.0, s.1, d, n))
            }),
    {
        match d {
            Direction::XY => {},
            Direction::XZ => {},
            Direction::YX => {},
            Direction::YZ => {},
            Direction::ZX => {},
            Direction::ZY => {},
        }
    }

    /// For a canonical direction, the chord at `distance` holds exactly the
    /// positions of the hexagon whose chord key is `distance`.
    pub proof fn lemma_chord_key(self, distance: int, d: Direction)
        requires
            self.radius > 0,
            abs(distance) <= self.radius,
            is_normalized(d),
        ensures
            ({
                let s = self.chord_start(distance, d);
                let n = self.chord_length(distance);
                &&& forall|i: int|
                    0 <= i < n ==> chord_key(#[trigger] walk(s.0, s.1, d, i), self.origin, d)
                        == distance
                &&& forall|v: (int, int)|
                    #![trigger self.contains_point(v), chord_key(v, self.origin, d)]
                    self.contains_point(v) && chord_key(v, self.origin, d) == distance ==> {
                        &&& 0 <= chord_offset(v, s, d) < n
                        &&& walk(s.0, s.1, d, chord_offset(v, s, d)) == v
                    }
            }),
    {
    }

    /// Every position of the hexagon lies on one of its chords.
    pub proof fn lemma_key_in_range(self, v: (int, int), d: Direction)
        requires
            self.contains_point(v),
        ensures
            abs(chord_key(v, self.origin, d)) <= self.radius,
    {
    }

    /// All chords parallel to `direction`, by increasing distance from
    /// `-radius` to `radius`; together they cover the hexagon once.
    pub fn segments(&self, direction: Direction) -> (r: Vec<(Distance, Segment)>)
        requires
            self.wf(),
        ensures
            r@.len() == 2 * self.radius + 1,
            forall|i: int|
                0 <= i < r@.len() ==> {
                    let (distance, s) = #[trigger] r@[i];
                    &&& distance == i - self.radius
                    &&& s.wf()
                    &&& s.length == self.chord_length(distance as int)
                    &&& s.line.direction == direction
                    &&& s.line.origin@ == self.chord_start(distance as int, direction)
                },
    {
        let mut r: Vec<(Distance, Segment)> = Vec::new();
        let mut distance: Distance = -self.radius;
        while distance <= self.radius
            invariant
                self.wf(),
                -self.radius <= distance <= self.radius + 1,
                r@.len() == distance + self.radius,
                forall|i: int|
                    0 <= i < r@.len() ==> {
                        let (distance, s) = #[trigger] r@[i];
                        &&& distance == i - self.radius
                        &&& s.wf()
                        &&& s.length == self.chord_length(distance as int)
                        &&& s.line.direction == direction
                        &&& s.line.origin@ == self.chord_start(distance as int, direction)
                    },
            decreases self.radius + 1 - distance,
        {
            match self.segment(distance, direction) {
                Some(s) => r.push((distance, s)),
                None => {},
            }
            distance = distance + 1;
        }
        r
    }

    /// The positions of the chord at `distance` in direction `d`, in order.
    pub open spec fn chord(self, distance: int, d: Direction) -> Seq<(int, int)> {
        let s = self.chord_start(distance, d);
        Seq::new(self.chord_length(distance) as nat, |i: int| walk(s.0, s.1, d, i))
    }

    /// The ring of radius `n` around the centre.
    pub open spec fn ring_at(self, n: int) -> Ring {
        Ring { origin: self.origin, radius: n as i32 }
    }

    /// The centre followed by the rings of radius `1..=n`, each in ring
    /// traversal order.
    pub open spec fn spiral(self, n: int) -> Seq<(int, int)>
        decreases n,
    {
        if n <= 0 {
            seq![self.origin@]
        } else {
            self.spiral(n - 1) + self.ring_at(n).points()
        }
    }

    /// The positions of the hexagon in spiral order.
    pub open spec fn points(self) -> Seq<(int, int)> {
        self.spiral(self.radius as int)
    }

    /// The spiral up to radius `n` has `area(n)` positions.
    pub proof fn lemma_spiral_len(self, n: int)
        requires
            0 <= n <= self.radius,
        ensures
            self.spiral(n).len() == Self::area(n),
        decreases n,
    {
        if n > 0 {
            self.lemma_spiral_len(n - 1);
            assert(self.ring_at(n).radius == n);
            assert(self.ring_at(n).points().len() == 6 * n);
            assert(Self::area(n - 1) + 6 * n == Self::area(n)) by (nonlinear_arith);
            assert(self.spiral(n).len() == self.spiral(n - 1).len() + 6 * n);
        } else {
            assert(Self::area(0) == 1);
        }
    }

    /// A larger spiral starts with every smaller one.
    pub proof fn lemma_spiral_prefix(self, m: int, n: int, i: int)
        requires
            0 <= m <= n <= self.radius,
            0 <= i < Self::area(m),
        ensures
            self.spiral(n)[i] == self.spiral(m)[i],
        decreases n,
    {
        if n > m {
            self.lemma_spiral_len(n - 1);
            self.lemma_spiral_len(m);
            assert(Self::area(m) <= Self::area(n - 1)) by (nonlinear_arith)
                requires
                    0 <= m <= n - 1,
            ;
            self.lemma_spiral_prefix(m, n - 1, i);
        }
    }

    /// The spiral up to radius `n` holds `area(n)` positions, each within hex
    /// distance `n` of the centre, and none repeated.
    pub proof fn lemma_spiral(self, n: int)
        requires
            0 <= n <= self.radius,
        ensures
            self.spiral(n).len() == Self::area(n),
            forall|i: int|
                0 <= i < self.spiral(n).len() ==> hex_dist(#[trigger] self.spiral(n)[i], self.origin)
                    <= n,
            self.spiral(n).no_duplicates(),
        decreases n,
    {
        self.lemma_spiral_len(n);
        if n > 0 {
            self.lemma_spiral(n - 1);
            let ring = self.ring_at(n);
            assert(ring.radius == n);
            ring.lemma_ring_points();
            let a = self.spiral(n - 1);
            let b = ring.points();
            let c = self.spiral(n);
            assert(c == a + b);
            assert forall|i: int| 0 <= i < c.len() implies hex_dist(#[trigger] c[i], self.origin)
                <= n by {
                if i >= a.len() {
                    assert(c[i] == b[i - a.len()]);
                }
            }
            assert forall|i: int, j: int|
                0 <= i < c.len() && 0 <= j < c.len() && i != j implies c[i] != c[j] by {
                if i < a.len() && j >= a.len() {
                    assert(hex_dist(c[j], self.origin) == n);
                    assert(hex_dist(c[i], self.origin) <= n - 1);
                } else if j < a.len() && i >= a.len() {
                    assert(hex_dist(c[i], self.origin) == n);
                    assert(hex_dist(c[j], self.origin) <= n - 1);
                } else if i >= a.len() && j >= a.len() {
                    assert(b[i - a.len()] != b[j - a.len()]);
                }
            }
        } else {
            assert(hex_dist(self.origin@, self.origin) == 0);
        }
    }

    /// A hexagon of radius `r` holds `1 + 3r(r+1)` positions in spiral order,
    /// each within hex distance `r` of the centre, and none twice.
    pub proof fn lemma_hexagon_points(self)
        requires
            self.radius > 0,
        ensures
            self.points().len() == Self::area(self.radius as int),
            forall|i: int|
                0 <= i < self.points().len() ==> self.contains_point(#[trigger] self.points()[i]),
            self.points().no_duplicates(),
    {
        self.lemma_spiral(self.radius as int);
    }

    /// The spiral holds every position of the hexagon.
    pub proof fn lemma_points_cover(self)
        requires
            self.radius > 0,
        ensures
            forall|v: (int, int)|
                #[trigger] self.contains_point(v) ==> exists|i: int|
                    0 <= i < self.points().len() && self.points()[i] == v,
    {
        assert forall|v: (int, int)| #[trigger] self.contains_point(v) implies exists|i: int|
            0 <= i < self.points().len() && self.points()[i] == v by {
            self.lemma_hexagon_complete(v);
        }
    }

    /// Every position inside the hexagon appears in its spiral.
    pub proof fn lemma_hexagon_complete(self, v: (int, int))
        requires
            self.radius > 0,
            self.contains_point(v),
        ensures
            exists|i: int| 0 <= i < self.points().len() && self.points()[i] == v,
    {
        let n = hex_dist(v, self.origin);
        self.lemma_spiral_len(self.radius as int);
        if n == 0 {
            self.lemma_spiral_len(0);
            self.lemma_spiral_prefix(0, self.radius as int, 0);
            assert(self.points()[0] == v);
        } else {
            let ring = self.ring_at(n);
            assert(ring.radius == n);
            ring.lemma_ring_complete(v);
            let k = choose|k: int| 0 <= k < 6 * ring.radius && ring.points()[k] == v;
            self.lemma_spiral_ring(n, k);
            assert(self.points()[Self::area(n - 1) + k] == v);
        }
    }

    /// Position `j` of ring `s` stands at index `area(s - 1) + j` of the
    /// spiral.
    pub proof fn lemma_spiral_ring(self, s: int, j: int)
        requires
            1 <= s <= self.radius,
            0 <= j < 6 * s,
        ensures
            Self::area(s - 1) + j < Self::area(self.radius as int),
            self.points()[Self::area(s - 1) + j] == self.ring_at(s).points()[j],
    {
        self.lemma_spiral_len(s - 1);
        self.lemma_spiral_len(s);
        let r = self.radius as int;
        assert(Self::area(s - 1) + 6 * s == Self::area(s)) by (nonlinear_arith);
        assert(Self::area(s) <= Self::area(r)) by (nonlinear_arith)
            requires
                s <= r,
                1 <= s,
        ;
        self.lemma_spiral_prefix(s, r, Self::area(s - 1) + j);
    }

    /// The positions of the hexagon in spiral order, from its iterator: the
    /// centre first, `1 + 3r(r+1)` positions in all, each inside, none twice,
    /// and every position inside among them.
    pub fn positions(&self) -> (r: Vec<Position>)
        requires
            self.wf(),
        ensures
            r@.len() == self.points().len(),
            forall|i: int| 0 <= i < r@.len() ==> (#[trigger] r@[i])@ == self.points()[i],
            forall|i: int| 0 <= i < r@.len() ==> (#[trigger] r@[i]).valid(),
            r@.len() == Self::area(self.radius as int),
            r@[0]@ == self.origin@,
            forall|i: int| 0 <= i < r@.len() ==> self.contains_point((#[trigger] r@[i])@),
            forall|i: int, j: int| 0 <= i < j < r@.len() ==> r@[i]@ != r@[j]@,
            forall|v: (int, int)|
                #[trigger] self.contains_point(v) ==> exists|i: int| 0 <= i < r@.len() && r@[i]@ == v,
    {
        proof {
            self.lemma_hexagon_points();
            self.lemma_points_cover();
            self.lemma_spiral_len(0);
            self.lemma_spiral_prefix(0, self.radius as int, 0);
        }
        let mut iterator = HexagonIterator::new(*self);
        let mut r: Vec<Position> = Vec::new();
        proof {
            self.lemma_spiral_len(self.radius as int);
        }
        loop
            invariant
                iterator.wf(),
                iterator.hexagon == *self,
                self.points().len() == Self::area(self.radius as int),
                r@.len() == iterator.index(),
                forall|i: int| 0 <= i < r@.len() ==> (#[trigger] r@[i])@ == self.points()[i],
                forall|i: int| 0 <= i < r@.len() ==> (#[trigger] r@[i]).valid(),
            ensures
                r@.len() == self.points().len(),
                forall|i: int| 0 <= i < r@.len() ==> (#[trigger] r@[i])@ == self.points()[i],
                forall|i: int| 0 <= i < r@.len() ==> (#[trigger] r@[i]).valid(),
            decreases Self::area(self.radius as int) - iterator.index(),
        {
            match iterator.next() {
                Some(p) => r.push(p),
                None => break,
            }
        }
        proof {
            assert forall|v: (int, int)| #[trigger] self.contains_point(v) implies exists|i: int|
                0 <= i < r@.len() && r@[i]@ == v by {
                let i = choose|i: int| 0 <= i < self.points().len() && self.points()[i] == v;
                assert(r@[i]@ == self.points()[i]);
            }
        }
        r
    }

    fn chord_start_position(&self, distance: Distance, direction: Direction) -> (r: Position)
        requires
            self.wf(),
            abs(distance as int) <= self.radius,
        ensures
            r@ == self.chord_start(distance as int, direction),
            r.valid(),
            self.contains_point(r@),
    {
        let (ax, ay) = step(direction.rotate(), distance as i64);
        let back: i64 = if distance >= 0 { self.radius as i64 } else { self.radius as i64 + distance as i64 };
        let (bx, by) = step(direction, -back);
        proof {
            lemma_near_valid(self.chord_start(distance as int, direction), self.origin, self.radius as int);
        }
        Position::from_xy(self.origin.x() as i64 + ax + bx, self.origin.y() as i64 + ay + by)
    }
}

/// Walks a hexagon in spiral order: the centre, then each ring outwards.
#[derive(Debug, Clone, Copy)]
pub struct HexagonIterator {
    pub hexagon: Hexagon,
    pub ring_iterator: RingIterator,
    pub step: Distance,
}

impl HexagonIterator {
    /// The number of positions already yielded.
    pub open spec fn index(self) -> int {
        if self.step == 0 {
            0
        } else if self.step > self.hexagon.radius {
            Hexagon::area(self.hexagon.radius as int)
        } else {
            Hexagon::area(self.step - 1) + self.ring_iterator.index()
        }
    }

    /// The step counts rings walked so far; from ring one on, the ring
    /// iterator walks the current ring.
    pub open spec fn wf(self) -> bool {
        &&& self.hexagon.wf()
        &&& 0 <= self.step <= self.hexagon.radius + 1
        &&& self.ring_iterator.wf()
        &&& 1 <= self.step <= self.hexagon.radius ==> self.ring_iterator.ring
            == self.hexagon.ring_at(self.step as int)
        &&& self.step == 0 ==> self.ring_iterator.ring == self.hexagon.ring_at(1)
            && self.ring_iterator.index() == 0
    }

    pub fn new(hexagon: Hexagon) -> (r: HexagonIterator)
        requires
            hexagon.wf(),
        ensures
            r.wf(),
            r.hexagon == hexagon,
            r.index() == 0,
    {
        HexagonIterator {
            hexagon,
            ring_iterator: RingIterator::new(Ring { origin: hexagon.origin, radius: 1 }),
            step: 0,
        }
    }

    /// The next position in spiral order, or `None` once every position of
    /// the hexagon has been yielded.
    pub fn next(&mut self) -> (r: Option<Position>)
        requires
            old(self).wf(),
        ensures
            final(self).wf(),
            final(self).hexagon == old(self).hexagon,
            old(self).index() < Hexagon::area(old(self).hexagon.radius as int) ==> {
                &&& r matches Some(p)
                &&& r.unwrap()@ == old(self).hexagon.points()[old(self).index()]
                &&& r.unwrap().valid()
                &&& final(self).index() == old(self).index() + 1
            },
            old(self).index() >= Hexagon::area(old(self).hexagon.radius as int) ==> r is None,
            r is None ==> final(self).index() == old(self).index() && old(self).index()
                == Hexagon::area(old(self).hexagon.radius as int),
    {
        let ghost h = self.hexagon;
        let ghost radius = h.radius as int;
        if self.step > self.hexagon.radius {
            return None;
        }
        if self.step == 0 {
            self.step = 1;
            proof {
                h.lemma_spiral_len(radius);
                h.lemma_spiral_len(0);
                h.lemma_spiral_prefix(0, radius, 0);
                assert(Hexagon::area(radius) >= 1) by (nonlinear_arith)
                    requires
                        radius >= 1,
                ;
            }
            return Some(self.hexagon.origin);
        }
        let ghost s = self.step as int;
        let ghost k = self.ring_iterator.index();
        proof {
            assert(Hexagon::area(s - 1) + 6 * s == Hexagon::area(s)) by (nonlinear_arith);
            assert(Hexagon::area(s) <= Hexagon::area(radius)) by (nonlinear_arith)
                requires
                    1 <= s <= radius,
            ;
            self.ring_iterator.lemma_index_bound();
        }
        match self.ring_iterator.next() {
            Some(p) => {
                proof {
                    h.lemma_spiral_ring(s, k);
                    lemma_near_valid(p@, h.origin, radius);
                }
                Some(p)
            },
            None => {
                self.step = self.step + 1;
                if self.step > self.hexagon.radius {
                    return None;
                }
                self.ring_iterator = RingIterator::new(
                    Ring { origin: self.hexagon.origin, radius: self.step },
                );
                proof {
                    self.ring_iterator.lemma_index_bound();
                }
                let r = self.ring_iterator.next();
                proof {
                    h.lemma_spiral_ring(s + 1, 0);
                    assert(r is Some);
                    lemma_near_valid(r.unwrap()@, h.origin, radius);
                }
                r
            },
        }
    }
}

} // verus!
