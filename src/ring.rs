use vstd::prelude::*;

use crate::line::Line;
use crate::position::{
    box_fits, hex_dist, lemma_near_valid, walk, Direction, Distance, Position,
};
use crate::segment::Segment;

verus! {

/// The direction of the corner that starts side `s` of a ring, in traversal
/// order.
pub open spec fn side_dir(s: int) -> Direction {
    if s == 0 {
        Direction::XY
    } else if s == 1 {
        Direction::XZ
    } else if s == 2 {
        Direction::YZ
    } else if s == 3 {
        Direction::YX
    } else if s == 4 {
        Direction::ZX
    } else {
        Direction::ZY
    }
}

/// The side of a ring that is walked in direction `d`.
pub open spec fn side_of(d: Direction) -> int {
    match d {
        Direction::YZ => 0,
        Direction::YX => 1,
        Direction::ZX => 2,
        Direction::ZY => 3,
        Direction::XY => 4,
        Direction::XZ => 5,
    }
}

/// The positions at exactly hex distance `radius` from `origin`.
#[derive(Debug, Clone, Copy, PartialEq, Eq, Structural)]
pub struct Ring {
    pub origin: Position,
    pub radius: Distance,
}

/// Why a ring could not be built.
#[derive(Debug, Clone, Copy, PartialEq, Eq)]
pub enum RingError {
    InsufficientRadius(Distance),
}

impl Ring {
    /// The radius is positive and every position of the ring is representable.
    pub open spec fn wf(self) -> bool {
        &&& self.radius > 0
        &&& self.origin.valid()
        &&& box_fits(self.origin, self.radius as int)
    }

    /// The corner of the ring in direction `d`.
    pub open spec fn corner_point(self, d: Direction) -> (int, int) {
        walk(self.origin.px(), self.origin.py(), d, self.radius as int)
    }

    /// The `t`-th position of side `s`.
    pub open spec fn side_point(self, s: int, t: int) -> (int, int) {
        let c = self.corner_point(side_dir(s));
        walk(c.0, c.1, side_dir(s).spec_rotate().spec_rotate(), t)
    }

    /// The positions of the ring in traversal order: each side from its
    /// corner up to, not including, the next corner.
    pub open spec fn points(self) -> Seq<(int, int)> {
        Seq::new(
            (6 * self.radius) as nat,
            |k: int| self.side_point(k / self.radius as int, k % self.radius as int),
        )
    }

    /// Position `t` of side `s` stands at index `s * radius + t`.
    pub proof fn lemma_index(self, s: int, t: int)
        requires
            self.radius > 0,
            0 <= s < 6,
            0 <= t < self.radius,
        ensures
            0 <= s * self.radius + t < 6 * self.radius,
            self.points()[s * self.radius + t] == self.side_point(s, t),
    {
        let r = self.radius as int;
        assert(0 <= s * r + t < 6 * r) by (nonlinear_arith)
            requires
                0 <= s < 6,
                0 <= t < r,
        ;
        vstd::arithmetic::div_mod::lemma_fundamental_div_mod_converse(s * r + t, r, s, t);
    }

    /// Every side position lies at exactly the ring's radius.
    pub proof fn lemma_side_point_distance(self, s: int, t: int)
        requires
            self.radius > 0,
            0 <= s < 6,
            0 <= t < self.radius,
        ensures
            hex_dist(self.side_point(s, t), self.origin) == self.radius,
    {
    }

    /// Distinct (side, step) pairs give distinct positions.
    pub proof fn lemma_side_point_injective(self, s1: int, t1: int, s2: int, t2: int)
        requires
            self.radius > 0,
            0 <= s1 < 6,
            0 <= t1 < self.radius,
            0 <= s2 < 6,
            0 <= t2 < self.radius,
            self.side_point(s1, t1) == self.side_point(s2, t2),
        ensures
            s1 == s2,
            t1 == t2,
    {
    }

    /// Index `k` of the ring is position `k % radius` of side `k / radius`.
    pub proof fn lemma_split(self, k: int)
        requires
            self.radius > 0,
            0 <= k < 6 * self.radius,
        ensures
            0 <= k / (self.radius as int) < 6,
            0 <= k % (self.radius as int) < self.radius,
            k == (k / (self.radius as int)) * self.radius + k % (self.radius as int),
    {
        let r = self.radius as int;
        vstd::arithmetic::div_mod::lemma_fundamental_div_mod(k, r);
        vstd::arithmetic::div_mod::lemma_mod_pos_bound(k, r);
        vstd::arithmetic::div_mod::lemma_div_pos_is_pos(k, r);
        let s = k / r;
        let t = k % r;
        assert(s < 6) by (nonlinear_arith)
            requires
                k == r * s + t,
                0 <= t < r,
                k < 6 * r,
                s >= 0,
        ;
        assert(k == s * r + t) by (nonlinear_arith)
            requires
                k == r * s + t,
        ;
    }

    /// A ring of radius `r` has `6 * r` positions, each at hex distance exactly
    /// `r` from the origin, and none repeated.
    pub proof fn lemma_ring_points(self)
        requires
            self.radius > 0,
        ensures
            self.points().len() == 6 * self.radius,
            forall|k: int|
                0 <= k < self.points().len() ==> hex_dist(#[trigger] self.points()[k], self.origin)
                    == self.radius,
            self.points().no_duplicates(),
    {
        let r = self.radius as int;
        assert forall|k: int| 0 <= k < self.points().len() implies hex_dist(
            #[trigger] self.points()[k],
            self.origin,
        ) == self.radius by {
            self.lemma_split(k);
            self.lemma_side_point_distance(k / r, k % r);
        }
        assert forall|i: int, j: int|
            0 <= i < self.points().len() && 0 <= j < self.points().len() && i != j implies self.points()[i]
            != self.points()[j] by {
            self.lemma_split(i);
            self.lemma_split(j);
            if self.points()[i] == self.points()[j] {
                self.lemma_side_point_injective(i / r, i % r, j / r, j % r);
            }
        }
    }

    /// Every position at exactly the ring's radius lies on the ring.
    pub proof fn lemma_ring_complete(self, v: (int, int))
        requires
            self.radius > 0,
            hex_dist(v, self.origin) == self.radius,
        ensures
            exists|k: int| 0 <= k < 6 * self.radius && self.points()[k] == v,
    {
        let n = self.radius as int;
        let x = v.0 - self.origin.px();
        let y = v.1 - self.origin.py();
        let z = -x - y;
        let (s, t) = if x == n && y < 0 {
            (0int, y + n)
        } else if z == -n && x > 0 {
            (1int, n - x)
        } else if y == n && x <= 0 && x > -n {
            (2int, -x)
        } else if x == -n && y > 0 {
            (3int, n - y)
        } else if z == n && x < 0 {
            (4int, x + n)
        } else {
            (5int, x)
        };
        assert(0 <= s < 6 && 0 <= t < n);
        assert(self.side_point(s, t) == v);
        self.lemma_index(s, t);
    }

    /// The ring of the given radius around `origin`; the radius must be
    /// positive.
    pub fn new(origin: Position, radius: Distance) -> (r: Result<Ring, RingError>)
        requires
            origin.valid(),
            radius > 0 ==> box_fits(origin, radius as int),
        ensures
            r is Ok <==> radius > 0,
            r matches Ok(ring) ==> ring.wf() && ring.origin == origin && ring.radius == radius,
            r matches Err(e) ==> e == RingError::InsufficientRadius(radius),
    {
        if radius > 0 {
            Ok(Ring { origin, radius })
        } else {
            Err(RingError::InsufficientRadius(radius))
        }
    }

    /// The ring of the given radius around the zero position.
    pub fn zero(radius: Distance) -> (r: Result<Ring, RingError>)
        ensures
            r is Ok <==> radius > 0,
            r matches Ok(ring) ==> ring.wf() && ring.origin@ == (0int, 0int) && ring.radius
                == radius,
            r matches Err(e) ==> e == RingError::InsufficientRadius(radius),
    {
        Self::new(Position::zero(), radius)
    }

    /// The corner of the ring in the given direction.
    pub fn corner(&self, direction: Direction) -> (r: Position)
        requires
            self.wf(),
        ensures
            r@ == self.corner_point(direction),
            r.valid(),
    {
        proof {
            lemma_near_valid(self.corner_point(direction), self.origin, self.radius as int);
        }
        Line::new(self.origin, direction).position(self.radius)
    }

    /// The side of the ring from the corner in `direction`, included, towards
    /// the next corner clockwise, not included.
    pub fn segment(&self, direction: Direction) -> (r: Segment)
        requires
            self.wf(),
        ensures
            r.wf(),
            r.line.origin@ == self.corner_point(direction),
            r.line.direction == direction.spec_rotate().spec_rotate(),
            r.length == self.radius,
    {
        let corner = self.corner(direction);
        let r = Segment { line: Line::new(corner, direction.rotate().rotate()), length: self.radius };
        proof {
            lemma_near_valid(r.point(r.length - 1), self.origin, self.radius as int);
        }
        r
    }

    /// The positions of the ring in traversal order, from its iterator: the
    /// XY corner first, `6r` positions in all, each at hex distance `r`, none
    /// twice.
    pub fn positions(&self) -> (r: Vec<Position>)
        requires
            self.wf(),
        ensures
            r@.len() == self.points().len(),
            forall|i: int| 0 <= i < r@.len() ==> (#[trigger] r@[i])@ == self.points()[i],
            r@.len() == 6 * self.radius,
            r@[0]@ == self.corner_point(Direction::XY),
            forall|i: int| 0 <= i < r@.len() ==> hex_dist((#[trigger] r@[i])@, self.origin) == self.radius,
            forall|i: int, j: int| 0 <= i < j < r@.len() ==> r@[i]@ != r@[j]@,
    {
        proof {
            self.lemma_ring_points();
            self.lemma_index(0, 0);
        }
        let mut iterator = RingIterator::new(*self);
        let mut r: Vec<Position> = Vec::new();
        loop
            invariant
                iterator.wf(),
                iterator.ring == *self,
                r@.len() == iterator.index(),
                forall|i: int| 0 <= i < r@.len() ==> (#[trigger] r@[i])@ == self.points()[i],
            ensures
                r@.len() == self.points().len(),
                forall|i: int| 0 <= i < r@.len() ==> (#[trigger] r@[i])@ == self.points()[i],
            decreases 6 * self.radius - iterator.index(),
        {
            match iterator.next() {
                Some(p) => r.push(p),
                None => break,
            }
        }
        r
    }
}

/// Walks a ring side by side, in traversal order.
#[derive(Debug, Clone, Copy)]
pub struct RingIterator {
    pub ring: Ring,
    pub segment: Segment,
    pub step: Distance,
}

impl RingIterator {
    /// The side being walked.
    pub open spec fn side(self) -> int {
        side_of(self.segment.line.direction)
    }

    /// The number of positions already yielded.
    pub open spec fn index(self) -> int {
        self.side() * self.ring.radius + self.step
    }

    /// The segment being walked is a side of the ring, starting at its
    /// corner, and `step` positions of it have been yielded.
    pub open spec fn wf(self) -> bool {
        &&& self.ring.wf()
        &&& self.segment.length == self.ring.radius
        &&& self.segment.line.origin@ == self.ring.corner_point(side_dir(self.side()))
        &&& self.segment.line.origin.valid()
        &&& 0 <= self.step <= self.ring.radius
    }

    /// At most `6 * radius` positions are yielded, the last on the last side.
    pub proof fn lemma_index_bound(self)
        requires
            self.wf(),
        ensures
            0 <= self.index() <= 6 * self.ring.radius,
            self.index() == 6 * self.ring.radius <==> (self.side() == 5 && self.step
                == self.ring.radius),
    {
        let r = self.ring.radius as int;
        let s = self.side();
        let t = self.step as int;
        assert(0 <= s * r + t <= 6 * r) by (nonlinear_arith)
            requires
                0 <= s < 6,
                0 <= t <= r,
        ;
        assert(s * r + t == 6 * r <==> (s == 5 && t == r)) by (nonlinear_arith)
            requires
                0 <= s < 6,
                0 <= t <= r,
                r > 0,
        ;
    }

    /// Walking a whole side from its corner reaches the next side's corner.
    proof fn lemma_turn(ring: Ring, d: Direction)
        requires
            ring.radius > 0,
            d != Direction::XZ,
        ensures
            side_of(d.spec_rotate()) == side_of(d) + 1,
            side_dir(side_of(d)).spec_rotate().spec_rotate() == d,
            ({
                let c = ring.corner_point(side_dir(side_of(d)));
                walk(c.0, c.1, d, ring.radius as int)
            }) == ring.corner_point(side_dir(side_of(d.spec_rotate()))),
    {
    }

    /// The `t`-th position of the segment being walked is side position `t`.
    proof fn lemma_on_side(self, t: int)
        requires
            self.wf(),
        ensures
            self.segment.line.point(t) == self.ring.side_point(self.side(), t),
            0 <= self.side() < 6,
    {
    }

    pub fn new(ring: Ring) -> (r: RingIterator)
        requires
            ring.wf(),
        ensures
            r.wf(),
            r.ring == ring,
            r.index() == 0,
    {
        RingIterator { ring, segment: ring.segment(Direction::XY), step: 0 }
    }

    /// The next position of the ring, or `None` once all `6 * radius` have
    /// been yielded.
    pub fn next(&mut self) -> (r: Option<Position>)
        requires
            old(self).wf(),
        ensures
            final(self).wf(),
            final(self).ring == old(self).ring,
            old(self).index() < 6 * old(self).ring.radius ==> (r matches Some(p) && p@
                == old(self).ring.points()[old(self).index()] && final(self).index() == old(
                self,
            ).index() + 1),
            old(self).index() >= 6 * old(self).ring.radius ==> r is None && final(self).index()
                == old(self).index(),
    {
        proof {
            self.lemma_index_bound();
        }
        if self.step < self.segment.length {
            proof {
                self.lemma_on_side(self.step as int);
                self.ring.lemma_index(self.side(), self.step as int);
                self.ring.lemma_side_point_distance(self.side(), self.step as int);
                lemma_near_valid(self.segment.line.point(self.step as int), self.ring.origin, self.ring.radius as int);
            }
            let position = self.segment.line.position(self.step);
            proof {
                lemma_near_valid(position@, self.ring.origin, self.ring.radius as int);
            }
            self.step = self.step + 1;
            return Some(position);
        }
        let direction = self.segment.direction().rotate();
        if direction == Direction::YZ {
            return None;
        }
        proof {
            Self::lemma_turn(self.ring, self.segment.line.direction);
            self.lemma_on_side(0);
            lemma_near_valid(
                self.ring.corner_point(side_dir(self.side() + 1)),
                self.ring.origin,
                self.ring.radius as int,
            );
        }
        let origin = self.segment.line.position(self.step);
        let length = self.segment.length;
        self.segment = Segment { line: Line::new(origin, direction), length };
        proof {
            self.ring.lemma_index(self.side(), 0);
            let r = self.ring.radius as int;
            assert((self.side() - 1) * r + r == self.side() * r) by (nonlinear_arith);
        }
        self.step = 1;
        Some(origin)
    }
}

} // verus!
