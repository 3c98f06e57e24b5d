use vstd::prelude::*;

use crate::error::SpaceError;
use crate::leaf::Step;

verus! {

/// What every state space offers: a metric over its states, interpolation
/// along the canonical path between two states, and a segment length that
/// sets how finely such a path is cut for checking.
pub trait StateSpace {
    /// The states of the space.
    type State;

    spec fn well_formed(&self) -> bool;

    /// Whether `s` is a state of this space.
    spec fn valid_state(&self, s: Self::State) -> bool;

    /// Whether `s` can receive the result of an interpolation.
    spec fn fits(&self, s: Self::State) -> bool;

    spec fn state_distance(&self, a: Self::State, b: Self::State) -> int;

    spec fn state_segments(&self, a: Self::State, b: Self::State) -> int;

    /// Whether `r` is the state at fraction `t` of the way from `a` to `b`.
    spec fn is_interpolation(&self, a: Self::State, b: Self::State, t: Step, r: Self::State) -> bool;

    spec fn name_view(&self) -> Seq<char>;

    spec fn segment_len(&self) -> u64;

    /// The distance is a metric on the states of the space.
    proof fn lemma_metric(&self, a: Self::State, b: Self::State, c: Self::State)
        requires
            self.well_formed(),
            self.valid_state(a),
            self.valid_state(b),
            self.valid_state(c),
        ensures
            self.state_distance(a, a) == 0,
            self.state_distance(a, b) >= 0,
            self.state_distance(a, b) == self.state_distance(b, a),
            self.state_distance(a, c) <= self.state_distance(a, b) + self.state_distance(b, c),
    ;

    /// Interpolating at `0` gives the start and at `1` the end; whatever the
    /// step, the result is a state of the space.
    proof fn lemma_interpolation(&self, a: Self::State, b: Self::State, t: Step, r: Self::State)
        requires
            self.well_formed(),
            self.valid_state(a),
            self.valid_state(b),
            t.wf(),
        ensures
            self.is_interpolation(a, b, t, r) ==> self.valid_state(r),
            t.num == 0 ==> self.is_interpolation(a, b, t, a),
            t.num == t.den ==> self.is_interpolation(a, b, t, b),
    ;

    /// A fresh state of the space.
    fn create_state(&self) -> (r: Self::State)
        requires
            self.well_formed(),
        ensures
            self.valid_state(r),
            self.fits(r),
    ;

    fn distance(&self, a: &Self::State, b: &Self::State) -> (r: Result<u128, SpaceError>)
        requires
            self.well_formed(),
        ensures
            match r {
                Ok(d) => self.valid_state(*a) && self.valid_state(*b) && d == self.state_distance(*a, *b),
                Err(_) => !(self.valid_state(*a) && self.valid_state(*b)),
            },
    ;

    /// The state at fraction `t` of the way from `from` to `to`.
    fn interpolate(&self, from: &Self::State, to: &Self::State, t: Step) -> (r: Result<Self::State, SpaceError>)
        requires
            self.well_formed(),
            t.wf(),
        ensures
            match r {
                Ok(s) => self.valid_state(*from) && self.valid_state(*to) && self.is_interpolation(*from, *to, t, s),
                Err(_) => !(self.valid_state(*from) && self.valid_state(*to)),
            },
    ;

    /// Writes the state at fraction `t` of the way from `from` to `to` into
    /// `result`, whatever it held before; on an error `result` is untouched.
    fn interpolate_into(&self, from: &Self::State, to: &Self::State, t: Step, result: &mut Self::State) -> (r: Result<(), SpaceError>)
        requires
            self.well_formed(),
            t.wf(),
        ensures
            match r {
                Ok(_) => {
                    &&& self.valid_state(*from) && self.valid_state(*to) && self.fits(*old(result))
                    &&& self.is_interpolation(*from, *to, t, *final(result))
                    &&& self.fits(*final(result))
                },
                Err(_) => {
                    &&& !(self.valid_state(*from) && self.valid_state(*to) && self.fits(*old(result)))
                    &&& *final(result) == *old(result)
                },
            },
    ;

    /// How many segments the way from `a` to `b` is cut into.
    fn count_segments_between(&self, a: &Self::State, b: &Self::State) -> (r: Result<u64, SpaceError>)
        requires
            self.well_formed(),
        ensures
            match r {
                Ok(c) => self.valid_state(*a) && self.valid_state(*b) && c == self.state_segments(*a, *b),
                Err(_) => !(self.valid_state(*a) && self.valid_state(*b)),
            },
    ;

    fn get_name(&self) -> (r: &str)
        ensures
            r@ == self.name_view(),
    ;

    /// Renames the space; the name has no bearing on the metric.
    fn set_name(&mut self, name: String)
        requires
            old(self).well_formed(),
        ensures
            final(self).well_formed(),
            final(self).name_view() == name@,
            final(self).segment_len() == old(self).segment_len(),
            forall|a: Self::State, b: Self::State| #[trigger] final(self).state_distance(a, b) == old(self).state_distance(a, b),
            forall|a: Self::State, b: Self::State| #[trigger] final(self).state_segments(a, b) == old(self).state_segments(a, b),
    ;

    fn get_segment_length(&self) -> (r: u64)
        ensures
            r == self.segment_len(),
    ;

    /// Sets the segment length; zero is refused and leaves the space as it
    /// was. The distance does not depend on it.
    fn set_segment_length(&mut self, step: u64) -> (r: Result<(), SpaceError>)
        requires
            old(self).well_formed(),
        ensures
            r is Ok <==> step > 0,
            r is Err ==> r == Err::<(), SpaceError>(SpaceError::InvalidConfiguration),
            final(self).well_formed(),
            final(self).segment_len() == if step > 0 { step } else { old(self).segment_len() },
            final(self).name_view() == old(self).name_view(),
            forall|a: Self::State, b: Self::State| #[trigger] final(self).state_distance(a, b) == old(self).state_distance(a, b),
    ;
}

} // verus!
