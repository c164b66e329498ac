use lookahead::params::shape_params;

// beat_interval = 10, ts = 5: interval 0 (even, endpoints swapped), delta
// one half; ts = 15: interval 1 (odd, unswapped), delta one half. The
// oscillation is symmetric, so both give the same midpoint numerators over
// denom = 100 * 10.
#[test]
fn midpoint_is_symmetric() {
    let at_5 = shape_params(5, 10);
    let at_15 = shape_params(15, 10);
    assert_eq!(at_5.denom, 1000);
    assert_eq!(at_15.denom, 1000);
    // width endpoints 0.50 / 0.55: midpoint 0.525 = 525 / 1000
    assert_eq!(at_5.width_num, 525);
    assert_eq!(at_15.width_num, 525);
    // thickness endpoints 0.25 / 0.35: midpoint 0.300
    assert_eq!(at_5.thickness_num, 300);
    assert_eq!(at_15.thickness_num, 300);
    // height endpoints 0.75 / 1.00: midpoint 0.875
    assert_eq!(at_5.height_num, 875);
    assert_eq!(at_15.height_num, 875);
    assert_eq!(at_5, at_15);
}

// At delta 0 the parameter sits on an endpoint: the high one on even
// intervals (swapped), the low one on odd intervals.
#[test]
fn interval_start_alternates_endpoints() {
    let even = shape_params(0, 4);
    assert_eq!(even.denom, 400);
    assert_eq!(even.width_num, 220); // 0.55
    assert_eq!(even.thickness_num, 140); // 0.35
    assert_eq!(even.height_num, 400); // 1.00

    let odd = shape_params(4, 4);
    assert_eq!(odd.width_num, 200); // 0.50
    assert_eq!(odd.thickness_num, 100); // 0.25
    assert_eq!(odd.height_num, 300); // 0.75
}

// Within one interval the parameter moves linearly between the endpoints.
#[test]
fn interpolates_linearly_within_interval() {
    // beat 4, ts 1: even interval, swapped width (0.55 -> 0.50), d = 1/4:
    // 55 * 3 + 50 * 1 = 215 over 400, i.e. 0.5375.
    let p = shape_params(1, 4);
    assert_eq!(p.width_num, 215);
    // ts 5: odd interval, unswapped (0.50 -> 0.55), d = 1/4:
    // 50 * 3 + 55 * 1 = 205 over 400, i.e. 0.5125.
    let p = shape_params(5, 4);
    assert_eq!(p.width_num, 205);
}

// A beat interval of one pins delta to 0 every frame; only the swap shows.
#[test]
fn beat_interval_of_one() {
    assert_eq!(shape_params(0, 1).width_num, 55);
    assert_eq!(shape_params(1, 1).width_num, 50);
    assert_eq!(shape_params(2, 1).width_num, 55);
    assert_eq!(shape_params(0, 1).denom, 100);
}
