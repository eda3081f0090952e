use raytrace::integrator::{next_depth, MAX_DEPTH};
use raytrace::material::Scattered;

#[test]
fn depth_advances_below_the_cap() {
    assert_eq!(next_depth(0), Some(1));
    assert_eq!(next_depth(49), Some(50));
}

#[test]
fn depth_cap_stops_the_path() {
    assert_eq!(MAX_DEPTH, 50);
    assert_eq!(next_depth(50), None);
    assert_eq!(next_depth(u32::MAX), None);
}

#[test]
fn path_from_zero_has_at_most_cap_bounces() {
    let mut depth = 0u32;
    let mut bounces = 0u32;
    while let Some(d) = next_depth(depth) {
        depth = d;
        bounces += 1;
    }
    assert_eq!(bounces, MAX_DEPTH);
}

#[test]
fn scattered_tells_whether_the_ray_goes_on() {
    let yes: Scattered<u8, ()> = Scattered::Yes(3);
    let no: Scattered<u8, ()> = Scattered::No(());
    assert!(yes.goes_on());
    assert!(!no.goes_on());
}
