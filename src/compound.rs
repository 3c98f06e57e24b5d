use vstd::prelude::*;

use crate::error::SpaceError;
use crate::laws::{
    lemma_distance_nonnegative, lemma_distance_self_zero, lemma_distance_symmetric,
    lemma_distance_triangle, lemma_interpolate_endpoints, lemma_interpolate_valid, lemma_same_children,
};
use crate::leaf::{lemma_dist_metric, Geometry, LeafSpace, Step};
use crate::space::StateSpace;

verus! {

/// Relies on itertools::multizip: it yields the pairs `(a[i], b[i])` in
/// order and stops at the end of the shorter list.
#[verifier::external_body]
fn zip_values(a: &Vec<i32>, b: &Vec<i32>) -> (r: Vec<(i32, i32)>)
    ensures
        r@.len() == if a@.len() <= b@.len() { a@.len() } else { b@.len() },
        forall|i: int| 0 <= i < r@.len() ==> #[trigger] r@[i] == (a@[i], b@[i]),
{
    itertools::multizip((a.iter().copied(), b.iter().copied())).collect()
}

pub open spec fn max(a: int, b: int) -> int {
    if a >= b { a } else { b }
}

/// Whether `small` is what remains of `big` after dropping some of its
/// entries (order kept).
pub open spec fn is_subseq<A>(small: Seq<A>, big: Seq<A>) -> bool
    decreases big.len(),
{
    if small.len() == 0 {
        true
    } else if big.len() == 0 {
        false
    } else if small.last() == big.last() {
        is_subseq(small.drop_last(), big.drop_last())
    } else {
        is_subseq(small, big.drop_last())
    }
}

/// A point of a compound space: one coordinate per child, in the children's
/// order.
#[derive(Clone, Debug, PartialEq, Eq)]
pub struct CompoundState {
    pub values: Vec<i32>,
}

/// The product of an ordered, non-empty list of leaf spaces; the distance is
/// the weighted sum of the children's distances.
pub struct CompoundStateSpace {
    pub name: String,
    pub components: Vec<LeafSpace>,
    pub weights: Vec<u32>,
    pub segment_length: u64,
}

/// The error that building a compound space from these parts reports, if any.
pub open spec fn config_error(components: Seq<LeafSpace>, weights: Seq<u32>, segment_length: u64) -> Option<SpaceError> {
    if components.len() == 0 {
        Some(SpaceError::InvalidConfiguration)
    } else if weights.len() != components.len() {
        Some(SpaceError::DimensionMismatch)
    } else if segment_length == 0
        || (exists|i: int| 0 <= i < weights.len() && #[trigger] weights[i] == 0)
        || (exists|i: int| 0 <= i < components.len() && !(#[trigger] components[i]).wf()) {
        Some(SpaceError::InvalidConfiguration)
    } else {
        None
    }
}

impl CompoundStateSpace {
    pub open spec fn wf(self) -> bool {
        &&& self.components@.len() > 0
        &&& self.weights@.len() == self.components@.len()
        &&& forall|i: int| 0 <= i < self.components@.len() ==> (#[trigger] self.components@[i]).wf()
        &&& forall|i: int| 0 <= i < self.weights@.len() ==> #[trigger] self.weights@[i] > 0
        &&& self.segment_length > 0
    }

    pub open spec fn len(self) -> int {
        self.components@.len() as int
    }

    pub open spec fn geometry(self, i: int) -> Geometry {
        self.components@[i].geometry
    }

    /// The structure of the space: each child's geometry with its weight.
    pub open spec fn shape(self) -> Seq<(Geometry, u32)> {
        Seq::new(self.components@.len(), |i: int| (self.geometry(i), self.weights@[i]))
    }

    pub open spec fn same_structure(self, other: CompoundStateSpace) -> bool {
        self.shape() == other.shape()
    }

    /// Whether dropping some children of this space leaves the structure of `other`.
    pub open spec fn structurally_covers(self, other: CompoundStateSpace) -> bool {
        is_subseq(other.shape(), self.shape())
    }

    pub open spec fn valid_values(self, v: Seq<i32>) -> bool {
        &&& v.len() == self.len()
        &&& forall|i: int| 0 <= i < v.len() ==> self.geometry(i).valid_value(#[trigger] v[i])
    }

    /// The error that a state with these coordinates meets, if any.
    pub open spec fn state_error(self, v: Seq<i32>) -> Option<SpaceError> {
        if v.len() != self.len() {
            Some(SpaceError::DimensionMismatch)
        } else if !self.valid_values(v) {
            Some(SpaceError::CrossSpaceState)
        } else {
            None
        }
    }

    /// The error of an operation on two states: a wrong number of
    /// coordinates in either comes first, then a foreign coordinate.
    pub open spec fn pair_error(self, a: Seq<i32>, b: Seq<i32>) -> Option<SpaceError> {
        self.interp_error(a, b, self.len())
    }

    /// The error of an interpolation from `a` to `b` into a state of `len`
    /// coordinates: a wrong number of coordinates in any of the three comes
    /// first, then a foreign coordinate.
    pub open spec fn interp_error(self, a: Seq<i32>, b: Seq<i32>, len: int) -> Option<SpaceError> {
        if a.len() != self.len() || b.len() != self.len() || len != self.len() {
            Some(SpaceError::DimensionMismatch)
        } else if !self.valid_values(a) || !self.valid_values(b) {
            Some(SpaceError::CrossSpaceState)
        } else {
            None
        }
    }

    /// The weighted distance over the first `n` children.
    pub open spec fn dist_upto(self, a: Seq<i32>, b: Seq<i32>, n: int) -> int
        decreases n,
    {
        if n <= 0 {
            0
        } else {
            self.dist_upto(a, b, n - 1) + self.weights@[n - 1] * self.geometry(n - 1).dist(a[n - 1], b[n - 1])
        }
    }

    pub open spec fn dist(self, a: Seq<i32>, b: Seq<i32>) -> int {
        self.dist_upto(a, b, self.len())
    }

    /// The most segments that any of the first `n` children needs.
    pub open spec fn segments_upto(self, a: Seq<i32>, b: Seq<i32>, n: int) -> int
        decreases n,
    {
        if n <= 0 {
            0
        } else {
            max(self.segments_upto(a, b, n - 1), self.components@[n - 1].segments(a[n - 1], b[n - 1]))
        }
    }

    pub open spec fn segments(self, a: Seq<i32>, b: Seq<i32>) -> int {
        self.segments_upto(a, b, self.len())
    }

    pub open spec fn interp(self, a: Seq<i32>, b: Seq<i32>, t: Step) -> Seq<i32> {
        Seq::new(self.components@.len(), |i: int| self.geometry(i).interp(a[i], b[i], t) as i32)
    }

    pub open spec fn has_child(self, g: Geometry) -> bool {
        exists|i: int| 0 <= i < self.len() && #[trigger] self.geometry(i) == g
    }

    /// A compound space with the given children, each of weight one.
    pub fn new(name: String, components: Vec<LeafSpace>, segment_length: u64) -> (r: Result<CompoundStateSpace, SpaceError>)
        ensures
            match r {
                Ok(s) => {
                    &&& components@.len() > 0 && segment_length > 0
                    &&& s.wf()
                    &&& s.name@ == name@
                    &&& s.components@ == components@
                    &&& s.weights@ == Seq::new(components@.len(), |i: int| 1u32)
                    &&& s.segment_length == segment_length
                },
                Err(e) => {
                    &&& e == SpaceError::InvalidConfiguration
                    &&& components@.len() == 0 || segment_length == 0
                        || exists|i: int| 0 <= i < components@.len() && !(#[trigger] components@[i]).wf()
                },
            },
    {
        let mut weights: Vec<u32> = Vec::new();
        let mut i: usize = 0;
        while i < components.len()
            invariant
                i <= components@.len(),
                weights@ == Seq::new(i as nat, |k: int| 1u32),
            decreases components@.len() - i,
        {
            weights.push(1);
            i = i + 1;
            assert(weights@ =~= Seq::new(i as nat, |k: int| 1u32));
        }
        CompoundStateSpace::with_weights(name, components, weights, segment_length)
    }

    /// A compound space with the given children and weights.
    pub fn with_weights(name: String, components: Vec<LeafSpace>, weights: Vec<u32>, segment_length: u64) -> (r: Result<CompoundStateSpace, SpaceError>)
        ensures
            match r {
                Ok(s) => {
                    &&& config_error(components@, weights@, segment_length) is None
                    &&& s.wf()
                    &&& s.name@ == name@
                    &&& s.components@ == components@
                    &&& s.weights@ == weights@
                    &&& s.segment_length == segment_length
                },
                Err(e) => config_error(components@, weights@, segment_length) == Some(e),
            },
    {
        if components.len() == 0 {
            return Err(SpaceError::InvalidConfiguration);
        }
        if weights.len() != components.len() {
            return Err(SpaceError::DimensionMismatch);
        }
        if segment_length == 0 {
            return Err(SpaceError::InvalidConfiguration);
        }
        let mut i: usize = 0;
        while i < weights.len()
            invariant
                components@.len() > 0,
                weights@.len() == components@.len(),
                segment_length > 0,
                i <= weights@.len(),
                forall|k: int| 0 <= k < i ==> #[trigger] weights@[k] > 0,
            decreases weights@.len() - i,
        {
            if weights[i] == 0 {
                assert(weights@[i as int] == 0);
                return Err(SpaceError::InvalidConfiguration);
            }
            i = i + 1;
        }
        let mut i: usize = 0;
        while i < components.len()
            invariant
                components@.len() > 0,
                weights@.len() == components@.len(),
                segment_length > 0,
                forall|k: int| 0 <= k < weights@.len() ==> #[trigger] weights@[k] > 0,
                i <= components@.len(),
                forall|k: int| 0 <= k < i ==> (#[trigger] components@[k]).wf(),
            decreases components@.len() - i,
        {
            if !components[i].is_well_formed() {
                assert(!components@[i as int].wf());
                return Err(SpaceError::InvalidConfiguration);
            }
            i = i + 1;
        }
        Ok(CompoundStateSpace { name, components, weights, segment_length })
    }

    /// Checks that `s` has one coordinate per child, each valid for its child.
    pub fn check_state(&self, s: &CompoundState) -> (r: Result<(), SpaceError>)
        ensures
            match r {
                Ok(_) => self.state_error(s.values@) is None,
                Err(e) => self.state_error(s.values@) == Some(e),
            },
    {
        if s.values.len() != self.components.len() {
            return Err(SpaceError::DimensionMismatch);
        }
        let mut i: usize = 0;
        while i < s.values.len()
            invariant
                s.values@.len() == self.len(),
                i <= s.values@.len(),
                forall|k: int| 0 <= k < i ==> self.geometry(k).valid_value(#[trigger] s.values@[k]),
            decreases s.values@.len() - i,
        {
            if !self.components[i].is_valid(s.values[i]) {
                return Err(SpaceError::CrossSpaceState);
            }
            i = i + 1;
        }
        Ok(())
    }

    fn check_pair(&self, a: &CompoundState, b: &CompoundState) -> (r: Result<(), SpaceError>)
        ensures
            match r {
                Ok(_) => self.pair_error(a.values@, b.values@) is None,
                Err(e) => self.pair_error(a.values@, b.values@) == Some(e),
            },
    {
        if a.values.len() != self.components.len() || b.values.len() != self.components.len() {
            return Err(SpaceError::DimensionMismatch);
        }
        match self.check_state(a) {
            Ok(_) => self.check_state(b),
            Err(e) => Err(e),
        }
    }

    /// Whether `other` has the same structure as this space: the same
    /// geometries with the same weights, in the same order. Names and
    /// segment lengths are labels and resolution, not structure.
    pub fn contains(&self, other: &CompoundStateSpace) -> (r: bool)
        requires
            self.wf(),
            other.wf(),
        ensures
            r == self.same_structure(*other),
    {
        if self.components.len() != other.components.len() {
            assert(self.shape().len() != other.shape().len());
            return false;
        }
        let n = self.components.len();
        let mut i: usize = 0;
        while i < n
            invariant
                self.wf(),
                other.wf(),
                n == self.len() == other.len(),
                i <= n,
                forall|k: int| 0 <= k < i ==> #[trigger] self.shape()[k] == other.shape()[k],
            decreases n - i,
        {
            if self.components[i].geometry != other.components[i].geometry || self.weights[i] != other.weights[i] {
                assert(self.shape()[i as int] != other.shape()[i as int]);
                return false;
            }
            i = i + 1;
        }
        assert(self.shape() =~= other.shape());
        true
    }

    /// Whether one of the children has the geometry of `leaf`.
    pub fn contains_leaf(&self, leaf: &LeafSpace) -> (r: bool)
        requires
            self.wf(),
        ensures
            r == self.has_child(leaf.geometry),
    {
        let mut i: usize = 0;
        while i < self.components.len()
            invariant
                i <= self.len(),
                forall|k: int| 0 <= k < i ==> #[trigger] self.geometry(k) != leaf.geometry,
            decreases self.len() - i,
        {
            if self.components[i].contains(leaf) {
                assert(self.geometry(i as int) == leaf.geometry);
                return true;
            }
            i = i + 1;
        }
        false
    }

    /// Whether the structure of `other` is what remains of this space once
    /// some of its children are dropped: restricting this space to those
    /// children reproduces `other`'s metric.
    pub fn covers(&self, other: &CompoundStateSpace) -> (r: bool)
        requires
            self.wf(),
            other.wf(),
        ensures
            r == self.structurally_covers(*other),
    {
        let mut i: usize = self.components.len();
        let mut j: usize = other.components.len();
        assert(other.shape().subrange(0, j as int) =~= other.shape());
        assert(self.shape().subrange(0, i as int) =~= self.shape());
        while i > 0 && j > 0
            invariant
                self.wf(),
                other.wf(),
                i <= self.len(),
                j <= other.len(),
                is_subseq(other.shape(), self.shape())
                    == is_subseq(other.shape().subrange(0, j as int), self.shape().subrange(0, i as int)),
            decreases i,
        {
            proof {
                let small = other.shape().subrange(0, j as int);
                let big = self.shape().subrange(0, i as int);
                assert(small.drop_last() =~= other.shape().subrange(0, j - 1));
                assert(big.drop_last() =~= self.shape().subrange(0, i - 1));
            }
            if self.components[i - 1].geometry == other.components[j - 1].geometry && self.weights[i - 1] == other.weights[j - 1] {
                j = j - 1;
            }
            i = i - 1;
        }
        if j == 0 {
            assert(other.shape().subrange(0, 0).len() == 0);
        } else {
            assert(self.shape().subrange(0, 0).len() == 0);
        }
        j == 0
    }

    /// Whether one of the children covers `leaf`; a leaf space covers only
    /// its own geometry.
    pub fn covers_leaf(&self, leaf: &LeafSpace) -> (r: bool)
        requires
            self.wf(),
        ensures
            r == self.has_child(leaf.geometry),
    {
        let mut i: usize = 0;
        while i < self.components.len()
            invariant
                i <= self.len(),
                forall|k: int| 0 <= k < i ==> #[trigger] self.geometry(k) != leaf.geometry,
            decreases self.len() - i,
        {
            if self.components[i].covers(leaf) {
                assert(self.geometry(i as int) == leaf.geometry);
                return true;
            }
            i = i + 1;
        }
        false
    }

}

impl StateSpace for CompoundStateSpace {
    /// One coordinate per child.
    type State = CompoundState;

    open spec fn well_formed(&self) -> bool {
        self.wf()
    }

    open spec fn valid_state(&self, s: CompoundState) -> bool {
        self.valid_values(s.values@)
    }

    open spec fn fits(&self, s: CompoundState) -> bool {
        s.values@.len() == self.len()
    }

    open spec fn state_distance(&self, a: CompoundState, b: CompoundState) -> int {
        self.dist(a.values@, b.values@)
    }

    open spec fn state_segments(&self, a: CompoundState, b: CompoundState) -> int {
        self.segments(a.values@, b.values@)
    }

    open spec fn is_interpolation(&self, a: CompoundState, b: CompoundState, t: Step, r: CompoundState) -> bool {
        r.values@ == self.interp(a.values@, b.values@, t)
    }

    open spec fn name_view(&self) -> Seq<char> {
        self.name@
    }

    open spec fn segment_len(&self) -> u64 {
        self.segment_length
    }

    proof fn lemma_metric(&self, a: CompoundState, b: CompoundState, c: CompoundState) {
        lemma_distance_self_zero(*self, a.values@);
        lemma_distance_nonnegative(*self, a.values@, b.values@);
        lemma_distance_symmetric(*self, a.values@, b.values@);
        lemma_distance_triangle(*self, a.values@, b.values@, c.values@);
    }

    proof fn lemma_interpolation(&self, a: CompoundState, b: CompoundState, t: Step, r: CompoundState) {
        lemma_interpolate_valid(*self, a.values@, b.values@, t);
        lemma_interpolate_endpoints(*self, a.values@, b.values@, t);
    }

    /// Every child's own fresh state.
    fn create_state(&self) -> (r: CompoundState)
        ensures
            r.values@ == Seq::new(self.components@.len(), |i: int| 0i32),
            r.values@.len() >= 1,
    {
        let mut values: Vec<i32> = Vec::new();
        let mut i: usize = 0;
        while i < self.components.len()
            invariant
                self.wf(),
                i <= self.components@.len(),
                values@ == Seq::new(i as nat, |k: int| 0i32),
            decreases self.components@.len() - i,
        {
            let v = self.components[i].create_state();
            values.push(v);
            i = i + 1;
            assert(values@ =~= Seq::new(i as nat, |k: int| 0i32));
        }
        CompoundState { values }
    }

    /// The weighted sum of the children's distances.
    fn distance(&self, a: &CompoundState, b: &CompoundState) -> (r: Result<u128, SpaceError>)
        ensures
            r matches Err(e) ==> self.pair_error(a.values@, b.values@) == Some(e),
    {
        match self.check_pair(a, b) {
            Ok(_) => {},
            Err(e) => return Err(e),
        }
        let pairs = zip_values(&a.values, &b.values);
        let n = pairs.len();
        let mut total: u128 = 0;
        let mut i: usize = 0;
        while i < n
            invariant
                self.wf(),
                self.valid_values(a.values@),
                self.valid_values(b.values@),
                n == pairs@.len() == self.len(),
                forall|k: int| 0 <= k < n ==> #[trigger] pairs@[k] == (a.values@[k], b.values@[k]),
                i <= n,
                total == self.dist_upto(a.values@, b.values@, i as int),
                total <= i * 0xFFFF_FFFF_FFFF_FFFFu128,
            decreases n - i,
        {
            let (x, y) = pairs[i];
            assert(self.components@[i as int].wf());
            proof {
                lemma_dist_metric(self.geometry(i as int), x, y, y);
            }
            let d = match self.components[i].distance(&x, &y) {
                Ok(d) => d,
                Err(e) => return Err(e),
            };
            let w = self.weights[i];
            assert((w as int) * (d as int) <= 0xFFFF_FFFF_FFFF_FFFFu128) by (nonlinear_arith)
                requires w <= 0xFFFF_FFFFu32, d <= 0xFFFF_FFFFu64;
            let term = (w as u128) * d;
            assert(total + term <= (i + 1) * 0xFFFF_FFFF_FFFF_FFFFu128) by (nonlinear_arith)
                requires total <= i * 0xFFFF_FFFF_FFFF_FFFFu128, term <= 0xFFFF_FFFF_FFFF_FFFFu128;
            assert((i + 1) * 0xFFFF_FFFF_FFFF_FFFFu128 <= u128::MAX) by (nonlinear_arith)
                requires i < usize::MAX;
            total = total + term;
            i = i + 1;
        }
        Ok(total)
    }

    /// The most segments that any child needs between its two coordinates,
    /// each child cutting at its own segment length: all children move
    /// together along one path, so the finest child sets the resolution.
    /// The compound space's own segment length is not used here.
    fn count_segments_between(&self, a: &CompoundState, b: &CompoundState) -> (r: Result<u64, SpaceError>)
        ensures
            r matches Err(e) ==> self.pair_error(a.values@, b.values@) == Some(e),
    {
        match self.check_pair(a, b) {
            Ok(_) => {},
            Err(e) => return Err(e),
        }
        let pairs = zip_values(&a.values, &b.values);
        let n = pairs.len();
        let mut most: u64 = 0;
        let mut i: usize = 0;
        while i < n
            invariant
                self.wf(),
                self.valid_values(a.values@),
                self.valid_values(b.values@),
                n == pairs@.len() == self.len(),
                forall|k: int| 0 <= k < n ==> #[trigger] pairs@[k] == (a.values@[k], b.values@[k]),
                i <= n,
                most == self.segments_upto(a.values@, b.values@, i as int),
            decreases n - i,
        {
            let (x, y) = pairs[i];
            assert(self.components@[i as int].wf());
            let c = match self.components[i].count_segments_between(&x, &y) {
                Ok(c) => c,
                Err(e) => return Err(e),
            };
            if c > most {
                most = c;
            }
            i = i + 1;
        }
        Ok(most)
    }

    /// Each child interpolates its own coordinate.
    fn interpolate_into(&self, from: &CompoundState, to: &CompoundState, t: Step, result: &mut CompoundState) -> (r: Result<(), SpaceError>)
        ensures
            r matches Err(e) ==> self.interp_error(from.values@, to.values@, old(result).values@.len() as int) == Some(e),
    {
        if result.values.len() != self.components.len() {
            return Err(SpaceError::DimensionMismatch);
        }
        match self.check_pair(from, to) {
            Ok(_) => {},
            Err(e) => return Err(e),
        }
        let n = self.components.len();
        let mut i: usize = 0;
        while i < n
            invariant
                self.wf(),
                t.wf(),
                self.valid_values(from.values@),
                self.valid_values(to.values@),
                n == self.len(),
                result.values@.len() == n,
                i <= n,
                forall|k: int| 0 <= k < i ==> #[trigger] result.values@[k] == self.interp(from.values@, to.values@, t)[k],
            decreases n - i,
        {
            assert(self.components@[i as int].wf());
            let mut v = result.values[i];
            match self.components[i].interpolate_into(&from.values[i], &to.values[i], t, &mut v) {
                Ok(_) => {},
                Err(e) => return Err(e),
            }
            result.values.set(i, v);
            i = i + 1;
        }
        assert(result.values@ =~= self.interp(from.values@, to.values@, t));
        Ok(())
    }

    /// A fresh state, filled by `interpolate_into`.
    fn interpolate(&self, from: &CompoundState, to: &CompoundState, t: Step) -> (r: Result<CompoundState, SpaceError>)
        ensures
            r matches Err(e) ==> self.pair_error(from.values@, to.values@) == Some(e),
    {
        let mut result = self.create_state();
        match self.interpolate_into(from, to, t, &mut result) {
            Ok(_) => Ok(result),
            Err(e) => Err(e),
        }
    }

    fn get_name(&self) -> (r: &str) {
        self.name.as_str()
    }

    fn set_name(&mut self, name: String)
        ensures
            final(self).components@ == old(self).components@,
            final(self).weights@ == old(self).weights@,
    {
        self.name = name;
        proof {
            lemma_same_children(*old(self), *self);
        }
    }

    fn get_segment_length(&self) -> (r: u64) {
        self.segment_length
    }

    /// Stores the compound space's own segment length, a setting for callers
    /// that cut paths themselves; `count_segments_between` does not use it,
    /// as it goes by each child's segment length.
    fn set_segment_length(&mut self, step: u64) -> (r: Result<(), SpaceError>)
        ensures
            final(self).components@ == old(self).components@,
            final(self).weights@ == old(self).weights@,
    {
        if step == 0 {
            return Err(SpaceError::InvalidConfiguration);
        }
        self.segment_length = step;
        proof {
            lemma_same_children(*old(self), *self);
        }
        Ok(())
    }
}

} // verus!
