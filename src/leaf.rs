use vstd::prelude::*;
use vstd::arithmetic::div_mod::{lemma_div_is_ordered, lemma_div_multiples_vanish};
use vstd::arithmetic::mul::lemma_mul_inequality;

use crate::error::SpaceError;
use crate::space::StateSpace;

verus! {

/// A fraction `num / den` in `[0, 1]`: how far along a path to go.
#[derive(Debug, Clone, Copy, PartialEq, Eq, Structural)]
pub struct Step {
    pub num: u32,
    pub den: u32,
}

impl Step {
    pub open spec fn wf(self) -> bool {
        0 < self.den && self.num <= self.den
    }

    /// The step `num / den`, or `None` when it is not a fraction in `[0, 1]`.
    pub fn new(num: u32, den: u32) -> (r: Option<Step>)
        ensures
            r == (if 0 < den && num <= den { Some(Step { num, den }) } else { None::<Step> }),
    {
        if 0 < den && num <= den {
            Some(Step { num, den })
        } else {
            None
        }
    }
}

/// The shape of a one-dimensional space.
#[derive(Debug, Clone, Copy, PartialEq, Eq, Structural)]
pub enum Geometry {
    /// The integer line; distance is the absolute difference.
    RealLine,
    /// The circle of `period` units; coordinates lie in `[0, period)` and
    /// distance is the length of the shorter arc.
    Circle { period: i32 },
}

pub open spec fn abs_diff(a: int, b: int) -> int {
    if a >= b { a - b } else { b - a }
}

/// `d * t`, rounded down.
pub open spec fn scaled(d: int, t: Step) -> int {
    d * (t.num as int) / (t.den as int)
}

/// The point at fraction `t` of the straight way from `a` to `b`, rounded
/// toward `a`.
pub open spec fn toward(a: int, b: int, t: Step) -> int {
    if b >= a { a + scaled(b - a, t) } else { a - scaled(a - b, t) }
}

/// `n / s`, rounded up.
pub open spec fn ceil_div(n: int, s: int) -> int {
    n / s + if n % s == 0 { 0int } else { 1int }
}

impl Geometry {
    pub open spec fn wf(self) -> bool {
        match self {
            Geometry::RealLine => true,
            Geometry::Circle { period } => period > 0,
        }
    }

    /// Whether `v` is a coordinate of this space.
    pub open spec fn valid_value(self, v: i32) -> bool {
        match self {
            Geometry::RealLine => true,
            Geometry::Circle { period } => 0 <= v < period,
        }
    }

    pub open spec fn dist(self, a: i32, b: i32) -> int {
        let d = abs_diff(a as int, b as int);
        match self {
            Geometry::RealLine => d,
            Geometry::Circle { period } => if 2 * d <= period { d } else { period - d },
        }
    }

    /// Interpolation along the shorter way; on the circle the longer way
    /// round wraps past `0`.
    pub open spec fn interp(self, a: i32, b: i32, t: Step) -> int {
        let d = abs_diff(a as int, b as int);
        match self {
            Geometry::RealLine => toward(a as int, b as int, t),
            Geometry::Circle { period } => if 2 * d <= period {
                toward(a as int, b as int, t)
            } else if b > a {
                let r = a - scaled(period - d, t);
                if r < 0 { r + period } else { r }
            } else {
                let r = a + scaled(period - d, t);
                if r >= period { r - period } else { r }
            },
        }
    }
}

/// Scaling by a step keeps a length within `[0, d]`, and the steps `0` and
/// `1` give `0` and `d` exactly.
pub proof fn lemma_scaled_bounds(d: int, t: Step)
    requires
        0 <= d,
        t.wf(),
    ensures
        0 <= scaled(d, t) <= d,
        t.num == 0 ==> scaled(d, t) == 0,
        t.num == t.den ==> scaled(d, t) == d,
{
    let den = t.den as int;
    let num = t.num as int;
    lemma_mul_inequality(num, den, d);
    assert(0 <= d * num) by (nonlinear_arith)
        requires 0 <= d, 0 <= num;
    assert(d * num == num * d) by (nonlinear_arith);
    assert(d * den == den * d) by (nonlinear_arith);
    lemma_div_is_ordered(d * num, d * den, den);
    lemma_div_is_ordered(0, d * num, den);
    lemma_div_multiples_vanish(d, den);
    if t.num == 0 {
        assert(d * num == 0) by (nonlinear_arith)
            requires num == 0;
    }
}

/// Interpolating between two coordinates of a space gives a coordinate of
/// that space.
pub proof fn lemma_interp_valid(g: Geometry, a: i32, b: i32, t: Step)
    requires
        g.wf(),
        g.valid_value(a),
        g.valid_value(b),
        t.wf(),
    ensures
        i32::MIN <= g.interp(a, b, t) <= i32::MAX,
        g.valid_value(g.interp(a, b, t) as i32),
{
    let d = abs_diff(a as int, b as int);
    lemma_scaled_bounds(d, t);
    if b >= a {
        assert(toward(a as int, b as int, t) == a + scaled(d, t));
    } else {
        assert(toward(a as int, b as int, t) == a - scaled(d, t));
    }
    match g {
        Geometry::RealLine => {
            assert(g.interp(a, b, t) == toward(a as int, b as int, t));
        },
        Geometry::Circle { period } => {
            let p = period as int;
            lemma_scaled_bounds(p - d, t);
            let s = scaled(p - d, t);
            if 2 * d <= p {
                assert(g.interp(a, b, t) == toward(a as int, b as int, t));
            } else if b > a {
                assert(g.interp(a, b, t) == if a - s < 0 { a - s + p } else { a - s });
            } else {
                assert(g.interp(a, b, t) == if a + s >= p { a + s - p } else { a + s });
            }
        },
    }
}

/// Interpolating at `0` gives the start and at `1` the end.
pub proof fn lemma_interp_endpoints(g: Geometry, a: i32, b: i32, t: Step)
    requires
        g.wf(),
        g.valid_value(a),
        g.valid_value(b),
        t.wf(),
    ensures
        t.num == 0 ==> g.interp(a, b, t) == a,
        t.num == t.den ==> g.interp(a, b, t) == b,
{
    let d = abs_diff(a as int, b as int);
    lemma_scaled_bounds(d, t);
    match g {
        Geometry::RealLine => {},
        Geometry::Circle { period } => {
            lemma_scaled_bounds(period - d, t);
        },
    }
}

/// The distance of a geometry is a metric, and fits in 32 bits.
pub proof fn lemma_dist_metric(g: Geometry, a: i32, b: i32, c: i32)
    requires
        g.wf(),
        g.valid_value(a),
        g.valid_value(b),
        g.valid_value(c),
    ensures
        g.dist(a, a) == 0,
        0 <= g.dist(a, b) <= u32::MAX,
        g.dist(a, b) == g.dist(b, a),
        g.dist(a, c) <= g.dist(a, b) + g.dist(b, c),
{
}

/// `d * t`, rounded down, for `d` below `2^32`.
fn scale(d: u64, t: Step) -> (r: u64)
    requires
        d <= u32::MAX,
        t.wf(),
    ensures
        r == scaled(d as int, t),
{
    assert(d * (t.num as u64) <= u32::MAX * u32::MAX) by (nonlinear_arith)
        requires d <= u32::MAX, t.num <= u32::MAX;
    d * (t.num as u64) / (t.den as u64)
}

/// One axis: a geometry, a name and the length of a path segment.
pub struct LeafSpace {
    pub name: String,
    pub geometry: Geometry,
    pub segment_length: u64,
}

impl LeafSpace {
    pub open spec fn wf(self) -> bool {
        self.geometry.wf() && self.segment_length > 0
    }

    pub open spec fn segments(self, a: i32, b: i32) -> int {
        ceil_div(self.geometry.dist(a, b), self.segment_length as int)
    }

    /// A leaf space of the given geometry.
    pub fn new(name: String, geometry: Geometry, segment_length: u64) -> (r: Result<
        LeafSpace,
        SpaceError,
    >)
        ensures
            match r {
                Ok(s) => geometry.wf() && segment_length > 0 && s.name@ == name@ && s.geometry
                    == geometry && s.segment_length == segment_length,
                Err(e) => e == SpaceError::InvalidConfiguration && !(geometry.wf()
                    && segment_length > 0),
            },
    {
        let shape_ok = match geometry {
            Geometry::RealLine => true,
            Geometry::Circle { period } => period > 0,
        };
        if !shape_ok || segment_length == 0 {
            return Err(SpaceError::InvalidConfiguration);
        }
        Ok(LeafSpace { name, geometry, segment_length })
    }

    /// A leaf space over the integer line.
    pub fn real_line(name: String, segment_length: u64) -> (r: Result<LeafSpace, SpaceError>)
        ensures
            match r {
                Ok(s) => segment_length > 0 && s.name@ == name@ && s.geometry == Geometry::RealLine
                    && s.segment_length == segment_length,
                Err(e) => e == SpaceError::InvalidConfiguration && segment_length == 0,
            },
    {
        LeafSpace::new(name, Geometry::RealLine, segment_length)
    }

    /// A leaf space over the circle of `period` units.
    pub fn circle(name: String, period: i32, segment_length: u64) -> (r: Result<
        LeafSpace,
        SpaceError,
    >)
        ensures
            match r {
                Ok(s) => period > 0 && segment_length > 0 && s.name@ == name@ && s.geometry
                    == (Geometry::Circle { period }) && s.segment_length == segment_length,
                Err(e) => e == SpaceError::InvalidConfiguration && (period <= 0 || segment_length
                    == 0),
            },
    {
        LeafSpace::new(name, Geometry::Circle { period }, segment_length)
    }

    /// Whether the geometry is well formed and the segment length positive.
    pub fn is_well_formed(&self) -> (r: bool)
        ensures
            r == self.wf(),
    {
        let shape_ok = match self.geometry {
            Geometry::RealLine => true,
            Geometry::Circle { period } => period > 0,
        };
        shape_ok && self.segment_length > 0
    }

    /// Whether `v` is a coordinate of this space.
    pub fn is_valid(&self, v: i32) -> (r: bool)
        ensures
            r == self.geometry.valid_value(v),
    {
        match self.geometry {
            Geometry::RealLine => true,
            Geometry::Circle { period } => 0 <= v && (v as i64) < (period as i64),
        }
    }

    fn distance_between(&self, a: i32, b: i32) -> (r: u64)
        requires
            self.wf(),
            self.geometry.valid_value(a),
            self.geometry.valid_value(b),
        ensures
            r == self.geometry.dist(a, b),
    {
        proof {
            lemma_dist_metric(self.geometry, a, b, b);
        }
        let d: u64 = if a >= b {
            (a as i64 - b as i64) as u64
        } else {
            (b as i64 - a as i64) as u64
        };
        match self.geometry {
            Geometry::RealLine => d,
            Geometry::Circle { period } => if 2 * d <= period as u64 {
                d
            } else {
                period as u64 - d
            },
        }
    }

    fn interpolate_value(&self, from: i32, to: i32, t: Step) -> (r: i32)
        requires
            self.wf(),
            self.geometry.valid_value(from),
            self.geometry.valid_value(to),
            t.wf(),
        ensures
            r == self.geometry.interp(from, to, t),
            self.geometry.valid_value(r),
    {
        proof {
            lemma_interp_valid(self.geometry, from, to, t);
            lemma_scaled_bounds(abs_diff(from as int, to as int), t);
        }
        let a = from as i64;
        let b = to as i64;
        let d: u64 = if a >= b { (a - b) as u64 } else { (b - a) as u64 };
        let straight = match self.geometry {
            Geometry::RealLine => true,
            Geometry::Circle { period } => 2 * d <= period as u64,
        };
        if straight {
            let r = if b >= a { a + scale(d, t) as i64 } else { a - scale(d, t) as i64 };
            r as i32
        } else {
            let p: i64 = match self.geometry {
                Geometry::RealLine => 0,
                Geometry::Circle { period } => period as i64,
            };
            proof {
                lemma_scaled_bounds(p - d, t);
            }
            let off = scale((p - d as i64) as u64, t) as i64;
            let r = if b > a {
                let r = a - off;
                if r < 0 { r + p } else { r }
            } else {
                let r = a + off;
                if r >= p { r - p } else { r }
            };
            r as i32
        }
    }

    /// How many segments of `segment_length` the way from `a` to `b` takes:
    /// the distance divided by the segment length, rounded up.
    fn segments_between(&self, a: i32, b: i32) -> (r: u64)
        requires
            self.wf(),
            self.geometry.valid_value(a),
            self.geometry.valid_value(b),
        ensures
            r == self.segments(a, b),
    {
        let d = self.distance_between(a, b);
        let q = d / self.segment_length;
        if d % self.segment_length == 0 {
            q
        } else {
            proof {
                assert(q <= d) by (nonlinear_arith)
                    requires q == d / self.segment_length, self.segment_length > 0;
            }
            q + 1
        }
    }

    /// Whether `other` has the same geometry as this space (names and
    /// segment lengths are labels and resolution, not structure).
    pub fn contains(&self, other: &LeafSpace) -> (r: bool)
        ensures
            r == (self.geometry == other.geometry),
    {
        self.geometry == other.geometry
    }

    /// A leaf space covers only a space of its own geometry.
    pub fn covers(&self, other: &LeafSpace) -> (r: bool)
        ensures
            r == (self.geometry == other.geometry),
    {
        self.contains(other)
    }

}

impl StateSpace for LeafSpace {
    /// A coordinate.
    type State = i32;

    open spec fn well_formed(&self) -> bool {
        self.wf()
    }

    open spec fn valid_state(&self, s: i32) -> bool {
        self.geometry.valid_value(s)
    }

    open spec fn fits(&self, s: i32) -> bool {
        true
    }

    open spec fn state_distance(&self, a: i32, b: i32) -> int {
        self.geometry.dist(a, b)
    }

    open spec fn state_segments(&self, a: i32, b: i32) -> int {
        self.segments(a, b)
    }

    open spec fn is_interpolation(&self, a: i32, b: i32, t: Step, r: i32) -> bool {
        r == self.geometry.interp(a, b, t)
    }

    open spec fn name_view(&self) -> Seq<char> {
        self.name@
    }

    open spec fn segment_len(&self) -> u64 {
        self.segment_length
    }

    proof fn lemma_metric(&self, a: i32, b: i32, c: i32) {
        lemma_dist_metric(self.geometry, a, b, c);
    }

    proof fn lemma_interpolation(&self, a: i32, b: i32, t: Step, r: i32) {
        lemma_interp_valid(self.geometry, a, b, t);
        lemma_interp_endpoints(self.geometry, a, b, t);
    }

    /// The coordinate `0`.
    fn create_state(&self) -> (r: i32)
        ensures
            r == 0,
    {
        0
    }

    fn distance(&self, a: &i32, b: &i32) -> (r: Result<u128, SpaceError>)
        ensures
            r is Err ==> r == Err::<u128, SpaceError>(SpaceError::CrossSpaceState),
    {
        if !self.is_valid(*a) || !self.is_valid(*b) {
            return Err(SpaceError::CrossSpaceState);
        }
        Ok(self.distance_between(*a, *b) as u128)
    }

    fn interpolate(&self, from: &i32, to: &i32, t: Step) -> (r: Result<i32, SpaceError>)
        ensures
            r is Err ==> r == Err::<i32, SpaceError>(SpaceError::CrossSpaceState),
    {
        if !self.is_valid(*from) || !self.is_valid(*to) {
            return Err(SpaceError::CrossSpaceState);
        }
        Ok(self.interpolate_value(*from, *to, t))
    }

    fn interpolate_into(&self, from: &i32, to: &i32, t: Step, result: &mut i32) -> (r: Result<(), SpaceError>)
        ensures
            r is Err ==> r == Err::<(), SpaceError>(SpaceError::CrossSpaceState),
    {
        if !self.is_valid(*from) || !self.is_valid(*to) {
            return Err(SpaceError::CrossSpaceState);
        }
        *result = self.interpolate_value(*from, *to, t);
        Ok(())
    }

    fn count_segments_between(&self, a: &i32, b: &i32) -> (r: Result<u64, SpaceError>)
        ensures
            r is Err ==> r == Err::<u64, SpaceError>(SpaceError::CrossSpaceState),
    {
        if !self.is_valid(*a) || !self.is_valid(*b) {
            return Err(SpaceError::CrossSpaceState);
        }
        Ok(self.segments_between(*a, *b))
    }

    fn get_name(&self) -> (r: &str) {
        self.name.as_str()
    }

    fn set_name(&mut self, name: String)
        ensures
            final(self).geometry == old(self).geometry,
            final(self).segment_length == old(self).segment_length,
    {
        self.name = name;
    }

    fn get_segment_length(&self) -> (r: u64) {
        self.segment_length
    }

    fn set_segment_length(&mut self, step: u64) -> (r: Result<(), SpaceError>)
        ensures
            final(self).geometry == old(self).geometry,
    {
        if step == 0 {
            return Err(SpaceError::InvalidConfiguration);
        }
        self.segment_length = step;
        Ok(())
    }
}

} // verus!
