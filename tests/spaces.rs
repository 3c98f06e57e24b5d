use rpl::compound::{CompoundState, CompoundStateSpace};
use rpl::error::SpaceError;
use rpl::leaf::{Geometry, LeafSpace, Step};
use rpl::space::StateSpace;

fn line(name: &str, segment_length: u64) -> LeafSpace {
    LeafSpace::real_line(name.to_string(), segment_length).unwrap()
}

fn plane(segment_length: u64) -> CompoundStateSpace {
    CompoundStateSpace::new(
        "plane".to_string(),
        vec![line("x", segment_length), line("y", segment_length)],
        1,
    )
    .unwrap()
}

fn state(values: &[i32]) -> CompoundState {
    CompoundState { values: values.to_vec() }
}

fn half() -> Step {
    Step::new(1, 2).unwrap()
}

#[test]
fn plane_distance_is_sum_of_children() {
    let s = plane(1);
    assert_eq!(s.distance(&state(&[0, 0]), &state(&[3, 4])), Ok(7));
}

#[test]
fn plane_interpolate_half_way() {
    let s = plane(1);
    let r = s.interpolate(&state(&[0, 0]), &state(&[30, 40]), half()).unwrap();
    assert_eq!(r.values, vec![15, 20]);
}

#[test]
fn interpolation_rounds_toward_start() {
    let s = plane(1);
    let r = s.interpolate(&state(&[0, 0]), &state(&[3, 4]), half()).unwrap();
    assert_eq!(r.values, vec![1, 2]);
    let r = s.interpolate(&state(&[3, 4]), &state(&[0, 0]), half()).unwrap();
    assert_eq!(r.values, vec![2, 2]);
}

#[test]
fn plane_segments_are_max_of_children() {
    let s = plane(1);
    assert_eq!(s.count_segments_between(&state(&[0, 0]), &state(&[3, 4])), Ok(4));
    let s = plane(2);
    assert_eq!(s.count_segments_between(&state(&[0, 0]), &state(&[3, 4])), Ok(2));
    let s = plane(3);
    assert_eq!(s.count_segments_between(&state(&[0, 0]), &state(&[3, 4])), Ok(2));
    let s = plane(5);
    assert_eq!(s.count_segments_between(&state(&[0, 0]), &state(&[3, 4])), Ok(1));
    assert_eq!(s.count_segments_between(&state(&[2, 2]), &state(&[2, 2])), Ok(0));
}

#[test]
fn empty_composition_is_invalid() {
    let r = CompoundStateSpace::new("none".to_string(), Vec::new(), 1);
    assert!(matches!(r, Err(SpaceError::InvalidConfiguration)));
}

#[test]
fn zero_segment_length_is_invalid() {
    let r = CompoundStateSpace::new("p".to_string(), vec![line("x", 1)], 0);
    assert!(matches!(r, Err(SpaceError::InvalidConfiguration)));
    assert!(matches!(LeafSpace::real_line("x".to_string(), 0), Err(SpaceError::InvalidConfiguration)));
    assert!(matches!(LeafSpace::circle("c".to_string(), 0, 1), Err(SpaceError::InvalidConfiguration)));
    assert!(matches!(LeafSpace::circle("c".to_string(), -5, 1), Err(SpaceError::InvalidConfiguration)));
}

#[test]
fn weights_are_checked() {
    let r = CompoundStateSpace::with_weights("p".to_string(), vec![line("x", 1), line("y", 1)], vec![1], 1);
    assert!(matches!(r, Err(SpaceError::DimensionMismatch)));
    let r = CompoundStateSpace::with_weights("p".to_string(), vec![line("x", 1), line("y", 1)], vec![1, 0], 1);
    assert!(matches!(r, Err(SpaceError::InvalidConfiguration)));
}

#[test]
fn weighted_distance() {
    let s = CompoundStateSpace::with_weights("p".to_string(), vec![line("x", 1), line("y", 1)], vec![2, 3], 1)
        .unwrap();
    assert_eq!(s.distance(&state(&[0, 0]), &state(&[3, 4])), Ok(18));
}

#[test]
fn interpolate_into_mismatched_result_is_untouched() {
    let s = plane(1);
    let mut result = state(&[7, 8, 9]);
    let r = s.interpolate_into(&state(&[0, 0]), &state(&[3, 4]), half(), &mut result);
    assert_eq!(r, Err(SpaceError::DimensionMismatch));
    assert_eq!(result.values, vec![7, 8, 9]);
}

#[test]
fn interpolate_into_overwrites_result() {
    let s = plane(1);
    let mut result = state(&[-100, 100]);
    s.interpolate_into(&state(&[0, 0]), &state(&[30, 40]), half(), &mut result).unwrap();
    assert_eq!(result.values, vec![15, 20]);
    s.interpolate_into(&state(&[10, 10]), &state(&[10, 10]), half(), &mut result).unwrap();
    assert_eq!(result.values, vec![10, 10]);
}

#[test]
fn mismatched_states_are_rejected() {
    let s = plane(1);
    assert_eq!(s.distance(&state(&[0]), &state(&[3, 4])), Err(SpaceError::DimensionMismatch));
    assert_eq!(s.count_segments_between(&state(&[0, 0]), &state(&[3, 4, 5])), Err(SpaceError::DimensionMismatch));
    assert!(matches!(s.interpolate(&state(&[0, 0]), &state(&[]), half()), Err(SpaceError::DimensionMismatch)));
    let arm = CompoundStateSpace::new(
        "arm".to_string(),
        vec![line("x", 1), LeafSpace::circle("joint".to_string(), 360, 1).unwrap()],
        1,
    )
    .unwrap();
    assert_eq!(arm.distance(&state(&[0, 360]), &state(&[0, 0])), Err(SpaceError::CrossSpaceState));
    assert_eq!(arm.distance(&state(&[0, -1]), &state(&[0, 0])), Err(SpaceError::CrossSpaceState));
    assert_eq!(arm.check_state(&state(&[5, 359])), Ok(()));
}

#[test]
fn distance_metric_on_examples() {
    let arm = CompoundStateSpace::with_weights(
        "arm".to_string(),
        vec![line("x", 1), LeafSpace::circle("joint".to_string(), 360, 1).unwrap()],
        vec![1, 2],
        1,
    )
    .unwrap();
    let a = state(&[-5, 350]);
    let b = state(&[7, 20]);
    let c = state(&[2, 100]);
    assert_eq!(arm.distance(&a, &a), Ok(0));
    assert_eq!(arm.distance(&a, &b), Ok(12 + 2 * 30));
    assert_eq!(arm.distance(&a, &b), arm.distance(&b, &a));
    let ac = arm.distance(&a, &c).unwrap();
    let ab = arm.distance(&a, &b).unwrap();
    let bc = arm.distance(&b, &c).unwrap();
    assert!(ac <= ab + bc);
}

#[test]
fn interpolate_endpoints() {
    let arm = CompoundStateSpace::new(
        "arm".to_string(),
        vec![line("x", 1), LeafSpace::circle("joint".to_string(), 360, 1).unwrap()],
        1,
    )
    .unwrap();
    let a = state(&[-5, 350]);
    let b = state(&[7, 20]);
    let start = arm.interpolate(&a, &b, Step::new(0, 3).unwrap()).unwrap();
    assert_eq!(start.values, a.values);
    let end = arm.interpolate(&a, &b, Step::new(3, 3).unwrap()).unwrap();
    assert_eq!(end.values, b.values);
}

#[test]
fn circle_wraps_along_shorter_arc() {
    let c = LeafSpace::circle("joint".to_string(), 360, 7).unwrap();
    assert_eq!(c.distance(&350, &10), Ok(20));
    assert_eq!(c.distance(&0, &180), Ok(180));
    assert_eq!(c.distance(&0, &181), Ok(179));
    assert_eq!(c.interpolate(&350, &10, half()), Ok(0));
    assert_eq!(c.interpolate(&350, &10, Step::new(1, 4).unwrap()), Ok(355));
    assert_eq!(c.interpolate(&10, &350, Step::new(3, 4).unwrap()), Ok(355));
    assert_eq!(c.interpolate(&10, &350, Step::new(1, 4).unwrap()), Ok(5));
    assert_eq!(c.interpolate(&100, &200, half()), Ok(150));
    assert_eq!(c.count_segments_between(&350, &10), Ok(3));
}

#[test]
fn line_extremes() {
    let l = line("x", 1);
    assert_eq!(l.distance(&i32::MIN, &i32::MAX), Ok(4294967295));
    assert_eq!(l.interpolate(&i32::MIN, &i32::MAX, half()), Ok(-1));
    assert_eq!(l.interpolate(&i32::MAX, &i32::MIN, Step::new(1, 1).unwrap()), Ok(i32::MIN));
    assert_eq!(l.count_segments_between(&i32::MIN, &i32::MAX), Ok(4294967295));
}

#[test]
fn contains_and_covers() {
    let s = plane(1);
    assert!(s.contains(&s));
    assert!(s.covers(&s));
    let arm = CompoundStateSpace::new(
        "arm".to_string(),
        vec![line("x", 1), LeafSpace::circle("joint".to_string(), 360, 1).unwrap(), line("y", 1)],
        1,
    )
    .unwrap();
    assert!(!arm.contains(&s));
    assert!(arm.covers(&s));
    assert!(!s.covers(&arm));
    assert!(!s.contains(&arm));
    let other_plane = CompoundStateSpace::new("other".to_string(), vec![line("u", 9), line("v", 9)], 4).unwrap();
    assert!(s.contains(&other_plane));
    let heavy = CompoundStateSpace::with_weights("heavy".to_string(), vec![line("u", 1), line("v", 1)], vec![1, 2], 1)
        .unwrap();
    assert!(!s.contains(&heavy));
    assert!(!arm.covers(&heavy));
    let joint = LeafSpace::circle("j".to_string(), 360, 1).unwrap();
    assert!(arm.contains_leaf(&joint));
    assert!(arm.covers_leaf(&joint));
    assert!(!s.contains_leaf(&joint));
    assert!(!s.covers_leaf(&joint));
    assert!(!arm.contains_leaf(&LeafSpace::circle("j".to_string(), 180, 1).unwrap()));
    assert!(joint.contains(&joint));
    assert!(joint.covers(&joint));
    assert!(!joint.contains(&line("x", 1)));
}

#[test]
fn names_and_segment_lengths() {
    let mut s = plane(1);
    assert_eq!(s.get_name(), "plane");
    s.set_name("table".to_string());
    assert_eq!(s.get_name(), "table");
    assert_eq!(s.set_segment_length(0), Err(SpaceError::InvalidConfiguration));
    assert_eq!(s.get_segment_length(), 1);
    assert_eq!(s.set_segment_length(5), Ok(()));
    assert_eq!(s.get_segment_length(), 5);
    let mut l = line("x", 2);
    assert_eq!(l.get_name(), "x");
    l.set_name("z".to_string());
    assert_eq!(l.get_name(), "z");
    assert_eq!(l.set_segment_length(0), Err(SpaceError::InvalidConfiguration));
    assert_eq!(l.get_segment_length(), 2);
    assert_eq!(l.set_segment_length(3), Ok(()));
    assert_eq!(l.count_segments_between(&0, &10), Ok(4));
}

#[test]
fn fresh_states() {
    let s = plane(1);
    assert_eq!(s.create_state().values, vec![0, 0]);
    assert_eq!(line("x", 1).create_state(), 0);
    assert_eq!(
        LeafSpace::new("c".to_string(), Geometry::Circle { period: 12 }, 1).unwrap().geometry,
        Geometry::Circle { period: 12 }
    );
}

#[test]
fn steps_are_fractions_in_unit_interval() {
    assert_eq!(Step::new(1, 2), Some(Step { num: 1, den: 2 }));
    assert_eq!(Step::new(3, 2), None);
    assert_eq!(Step::new(0, 0), None);
}

#[test]
fn leaf_rejects_foreign_coordinates() {
    let c = LeafSpace::circle("joint".to_string(), 360, 1).unwrap();
    assert_eq!(c.distance(&360, &0), Err(SpaceError::CrossSpaceState));
    assert_eq!(c.count_segments_between(&0, &-1), Err(SpaceError::CrossSpaceState));
    assert_eq!(c.interpolate(&400, &0, half()), Err(SpaceError::CrossSpaceState));
    let mut r = 77;
    assert_eq!(c.interpolate_into(&0, &400, half(), &mut r), Err(SpaceError::CrossSpaceState));
    assert_eq!(r, 77);
    assert_eq!(c.interpolate_into(&0, &100, half(), &mut r), Ok(()));
    assert_eq!(r, 50);
}

fn path_midpoint<S: StateSpace>(space: &S, a: &S::State, b: &S::State) -> Result<S::State, SpaceError> {
    space.interpolate(a, b, half())
}

#[test]
fn spaces_share_one_interface() {
    let l = line("x", 1);
    assert_eq!(path_midpoint(&l, &-10, &10), Ok(0));
    let s = plane(1);
    let m = path_midpoint(&s, &state(&[-10, 4]), &state(&[10, 8])).unwrap();
    assert_eq!(m.values, vec![0, 6]);
}

fn line_and_circle() -> CompoundStateSpace {
    CompoundStateSpace::new(
        "arm".to_string(),
        vec![line("x", 1), LeafSpace::circle("joint".to_string(), 360, 1).unwrap()],
        1,
    )
    .unwrap()
}

#[test]
fn wrong_length_is_reported_before_foreign_coordinates() {
    let s = line_and_circle();
    let foreign = state(&[0, 400]);
    let short = state(&[1]);
    assert_eq!(s.distance(&foreign, &short), Err(SpaceError::DimensionMismatch));
    assert_eq!(s.count_segments_between(&foreign, &short), Err(SpaceError::DimensionMismatch));
    assert!(matches!(s.interpolate(&foreign, &short, half()), Err(SpaceError::DimensionMismatch)));
    let mut result = state(&[5, 6]);
    assert_eq!(s.interpolate_into(&foreign, &short, half(), &mut result), Err(SpaceError::DimensionMismatch));
    assert_eq!(result, state(&[5, 6]));
    let mut long_result = state(&[5, 6, 7]);
    assert_eq!(
        s.interpolate_into(&foreign, &state(&[0, 0]), half(), &mut long_result),
        Err(SpaceError::DimensionMismatch)
    );
    assert_eq!(long_result, state(&[5, 6, 7]));
    assert_eq!(
        s.interpolate_into(&foreign, &state(&[0, 0]), half(), &mut result),
        Err(SpaceError::CrossSpaceState)
    );
    assert_eq!(result, state(&[5, 6]));
}

#[test]
fn malformed_child_is_invalid() {
    let bad = LeafSpace { name: "x".to_string(), geometry: Geometry::RealLine, segment_length: 0 };
    let r = CompoundStateSpace::new("p".to_string(), vec![line("y", 1), bad], 1);
    assert!(matches!(r, Err(SpaceError::InvalidConfiguration)));
    let bad = LeafSpace { name: "c".to_string(), geometry: Geometry::Circle { period: 0 }, segment_length: 1 };
    let r = CompoundStateSpace::with_weights("p".to_string(), vec![bad], vec![1], 1);
    assert!(matches!(r, Err(SpaceError::InvalidConfiguration)));
}

#[test]
fn compound_states_copy_and_compare_by_component() {
    let a = state(&[1, 2]);
    let b = a.clone();
    assert_eq!(a, b);
    assert_ne!(a, state(&[1, 3]));
    let s = line_and_circle();
    assert_eq!(s.create_state(), state(&[0, 0]));
}

#[test]
fn compound_segment_length_is_not_the_childrens() {
    let mut s = plane(1);
    s.set_segment_length(100).unwrap();
    assert_eq!(s.count_segments_between(&state(&[0, 0]), &state(&[3, 4])), Ok(4));
}
