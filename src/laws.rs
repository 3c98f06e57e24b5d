use vstd::prelude::*;
use vstd::arithmetic::div_mod::{lemma_div_is_ordered, lemma_fundamental_div_mod};

use crate::compound::{config_error, is_subseq, CompoundStateSpace};
use crate::leaf::{lemma_dist_metric, lemma_interp_endpoints, lemma_interp_valid, LeafSpace, Step};

verus! {

proof fn lemma_dist_upto_metric(space: CompoundStateSpace, a: Seq<i32>, b: Seq<i32>, c: Seq<i32>, n: int)
    requires
        space.wf(),
        space.valid_values(a),
        space.valid_values(b),
        space.valid_values(c),
        0 <= n <= space.len(),
    ensures
        space.dist_upto(a, a, n) == 0,
        space.dist_upto(a, b, n) >= 0,
        space.dist_upto(a, b, n) == space.dist_upto(b, a, n),
        space.dist_upto(a, c, n) <= space.dist_upto(a, b, n) + space.dist_upto(b, c, n),
    decreases n,
{
    if n > 0 {
        lemma_dist_upto_metric(space, a, b, c, n - 1);
        let i = n - 1;
        let g = space.geometry(i);
        assert(space.components@[i].wf());
        lemma_dist_metric(g, a[i], b[i], c[i]);
        lemma_dist_metric(g, b[i], a[i], c[i]);
        let w = space.weights@[i] as int;
        let dab = g.dist(a[i], b[i]);
        let dbc = g.dist(b[i], c[i]);
        let dac = g.dist(a[i], c[i]);
        assert(w * dac <= w * dab + w * dbc) by (nonlinear_arith)
            requires dac <= dab + dbc, w >= 0;
        assert(w * dab >= 0) by (nonlinear_arith)
            requires dab >= 0, w >= 0;
        assert(w * g.dist(a[i], a[i]) == 0) by (nonlinear_arith)
            requires g.dist(a[i], a[i]) == 0;
    }
}

proof fn lemma_same_children_upto(s1: CompoundStateSpace, s2: CompoundStateSpace, a: Seq<i32>, b: Seq<i32>, n: int)
    requires
        s1.components@ == s2.components@,
        s1.weights@ == s2.weights@,
    ensures
        s1.dist_upto(a, b, n) == s2.dist_upto(a, b, n),
        s1.segments_upto(a, b, n) == s2.segments_upto(a, b, n),
    decreases n,
{
    if n > 0 {
        lemma_same_children_upto(s1, s2, a, b, n - 1);
    }
}

/// Two spaces with the same children and weights, whatever their names and
/// segment lengths, measure the same distances and segment counts.
pub proof fn lemma_same_children(s1: CompoundStateSpace, s2: CompoundStateSpace)
    requires
        s1.components@ == s2.components@,
        s1.weights@ == s2.weights@,
    ensures
        forall|a: Seq<i32>, b: Seq<i32>| #[trigger] s1.dist(a, b) == s2.dist(a, b),
        forall|a: Seq<i32>, b: Seq<i32>| #[trigger] s1.segments(a, b) == s2.segments(a, b),
{
    assert forall|a: Seq<i32>, b: Seq<i32>| #[trigger] s1.dist(a, b) == s2.dist(a, b) by {
        lemma_same_children_upto(s1, s2, a, b, s1.len());
    }
    assert forall|a: Seq<i32>, b: Seq<i32>| #[trigger] s1.segments(a, b) == s2.segments(a, b) by {
        lemma_same_children_upto(s1, s2, a, b, s1.len());
    }
}

/// Every state is at distance zero from itself.
pub proof fn lemma_distance_self_zero(space: CompoundStateSpace, a: Seq<i32>)
    requires
        space.wf(),
        space.valid_values(a),
    ensures
        space.dist(a, a) == 0,
{
    lemma_dist_upto_metric(space, a, a, a, space.len());
}

/// Distances are never negative.
pub proof fn lemma_distance_nonnegative(space: CompoundStateSpace, a: Seq<i32>, b: Seq<i32>)
    requires
        space.wf(),
        space.valid_values(a),
        space.valid_values(b),
    ensures
        space.dist(a, b) >= 0,
{
    lemma_dist_upto_metric(space, a, b, b, space.len());
}

/// The distance from `a` to `b` is the distance from `b` to `a`.
pub proof fn lemma_distance_symmetric(space: CompoundStateSpace, a: Seq<i32>, b: Seq<i32>)
    requires
        space.wf(),
        space.valid_values(a),
        space.valid_values(b),
    ensures
        space.dist(a, b) == space.dist(b, a),
{
    lemma_dist_upto_metric(space, a, b, b, space.len());
}

/// Going from `a` to `c` by way of `b` is never shorter than going directly.
pub proof fn lemma_distance_triangle(space: CompoundStateSpace, a: Seq<i32>, b: Seq<i32>, c: Seq<i32>)
    requires
        space.wf(),
        space.valid_values(a),
        space.valid_values(b),
        space.valid_values(c),
    ensures
        space.dist(a, c) <= space.dist(a, b) + space.dist(b, c),
{
    lemma_dist_upto_metric(space, a, b, c, space.len());
}

/// Interpolating at `0` gives the start and at `1` the end, child by child.
pub proof fn lemma_interpolate_endpoints(space: CompoundStateSpace, a: Seq<i32>, b: Seq<i32>, t: Step)
    requires
        space.wf(),
        space.valid_values(a),
        space.valid_values(b),
        t.wf(),
    ensures
        t.num == 0 ==> space.interp(a, b, t) == a,
        t.num == t.den ==> space.interp(a, b, t) == b,
{
    assert forall|i: int| 0 <= i < space.len() implies {
        &&& t.num == 0 ==> #[trigger] space.geometry(i).interp(a[i], b[i], t) == a[i]
        &&& t.num == t.den ==> space.geometry(i).interp(a[i], b[i], t) == b[i]
    } by {
        assert(space.components@[i].wf());
        lemma_interp_endpoints(space.geometry(i), a[i], b[i], t);
    }
    if t.num == 0 {
        assert(space.interp(a, b, t) =~= a);
    }
    if t.num == t.den {
        assert(space.interp(a, b, t) =~= b);
    }
}

/// An interpolated state is a valid state of the space.
pub proof fn lemma_interpolate_valid(space: CompoundStateSpace, a: Seq<i32>, b: Seq<i32>, t: Step)
    requires
        space.wf(),
        space.valid_values(a),
        space.valid_values(b),
        t.wf(),
    ensures
        space.valid_values(space.interp(a, b, t)),
{
    assert forall|i: int| 0 <= i < space.len() implies space.geometry(i).valid_value(#[trigger] space.interp(a, b, t)[i]) by {
        assert(space.components@[i].wf());
        lemma_interp_valid(space.geometry(i), a[i], b[i], t);
    }
}

/// A leaf space needs no fewer segments for a longer way.
pub proof fn lemma_segments_monotonic(space: LeafSpace, a: i32, b: i32, c: i32, d: i32)
    requires
        space.wf(),
        space.geometry.valid_value(a),
        space.geometry.valid_value(b),
        space.geometry.valid_value(c),
        space.geometry.valid_value(d),
        space.geometry.dist(a, b) <= space.geometry.dist(c, d),
    ensures
        space.segments(a, b) <= space.segments(c, d),
{
    let s = space.segment_length as int;
    let x = space.geometry.dist(a, b);
    let y = space.geometry.dist(c, d);
    lemma_dist_metric(space.geometry, a, b, b);
    lemma_dist_metric(space.geometry, c, d, d);
    lemma_div_is_ordered(x, y, s);
    lemma_fundamental_div_mod(x, s);
    lemma_fundamental_div_mod(y, s);
    if x / s == y / s && x % s != 0 {
        assert(y % s != 0);
    }
}

/// A compound space is built only over at least one child.
pub proof fn lemma_built_space_nonempty(components: Seq<LeafSpace>, weights: Seq<u32>, segment_length: u64)
    requires
        config_error(components, weights, segment_length) is None,
    ensures
        components.len() >= 1,
{
}

/// Every state of a compound space has at least one coordinate.
pub proof fn lemma_states_nonempty(space: CompoundStateSpace, s: Seq<i32>)
    requires
        space.wf(),
        space.valid_values(s),
    ensures
        s.len() >= 1,
{
}

/// Every space contains itself.
pub proof fn lemma_contains_reflexive(space: CompoundStateSpace)
    ensures
        space.same_structure(space),
{
}

proof fn lemma_subseq_reflexive<A>(s: Seq<A>)
    ensures
        is_subseq(s, s),
    decreases s.len(),
{
    if s.len() > 0 {
        lemma_subseq_reflexive(s.drop_last());
    }
}

/// A space that contains another also covers it; in particular every space
/// covers itself.
pub proof fn lemma_contains_implies_covers(space: CompoundStateSpace, other: CompoundStateSpace)
    requires
        space.same_structure(other),
    ensures
        space.structurally_covers(other),
{
    lemma_subseq_reflexive(space.shape());
}

} // verus!
