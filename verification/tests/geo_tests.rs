use gpx_split::geo::{distance, distance_all, find_bounds, fit_bounds, interception_point,
    is_near_segment};
use gpx_split::types::{Bounds, Gpx, Metadata, Waypoint};

/// A waypoint from degrees scaled by ten million, given as (lon, lat) in
/// the argument order the geometry library uses for points.
fn waypoint(lon_e7: i64, lat_e7: i64) -> Waypoint {
    let mut w = Waypoint::new(lat_e7, lon_e7);
    w.name = None;
    w
}

#[test]
fn distance_2() {
    let point_0 = waypoint(-739761399, 407767644);
    let point_1 = waypoint(-739673991, 407712090);
    let d = distance(&point_0, &point_1);
    // 961.8288 meters, in millimeters
    assert!(d >= 961_827 && d <= 961_830, "distance was {d}");
}

#[test]
fn distance_array() {
    let point_0 = waypoint(-739761399, 407767644);
    let point_1 = waypoint(-739673991, 407712090);
    let d = distance_all(&vec![point_0, point_1]);
    assert!(d >= 961_827 && d <= 961_830, "distance was {d}");
}

#[test]
fn no_waypoints_no_bounds() {
    let meta = Metadata {
        name: None,
        bounds: Some(Bounds { min_lat: 10, min_lon: 20, max_lat: 30, max_lon: 10 }),
    };
    let gpx = Gpx { metadata: Some(meta), waypoints: vec![], routes: vec![], tracks: vec![] };

    let res = fit_bounds(gpx, &vec![]);
    assert!(res.metadata.unwrap().bounds.is_none());
}

#[test]
fn find_bounding_box() {
    let points = vec![waypoint(-739761399, 407767644), waypoint(-739673991, 407712090)];
    let rect = find_bounds(&points).unwrap();
    assert_eq!(407712090, rect.min_lat);
    assert_eq!(-739761399, rect.min_lon);
    assert_eq!(407767644, rect.max_lat);
    assert_eq!(-739673991, rect.max_lon);
}

#[test]
fn find_bounding_box_order_insensitive() {
    let points = vec![waypoint(-739673991, 407712090), waypoint(-739761399, 407767644)];
    let rect = find_bounds(&points).unwrap();
    assert_eq!(407712090, rect.min_lat);
    assert_eq!(-739761399, rect.min_lon);
    assert_eq!(407767644, rect.max_lat);
    assert_eq!(-739673991, rect.max_lon);
}

#[test]
fn fit_bounds_recomputes() {
    let meta = Metadata {
        name: None,
        bounds: Some(Bounds { min_lat: 0, min_lon: 0, max_lat: 0, max_lon: 0 }),
    };
    let gpx = Gpx { metadata: Some(meta), waypoints: vec![], routes: vec![], tracks: vec![] };
    let points = vec![waypoint(-739761399, 407767644), waypoint(-739673991, 407712090)];

    let res = fit_bounds(gpx, &points);
    let b = res.metadata.unwrap().bounds.unwrap();
    assert_eq!(407712090, b.min_lat);
    assert_eq!(-739761399, b.min_lon);
    assert_eq!(407767644, b.max_lat);
    assert_eq!(-739673991, b.max_lon);
}

#[test]
fn distance_to_line() {
    // 0.00028 degrees = 0 deg 0 min 1 sec, about 30.9 m
    let p = waypoint(0, 2800);
    let ip = interception_point(&p, (&waypoint(-10000000, 0), &waypoint(10000000, 0)));
    let dist_p_ip = distance(&p, &ip);
    // 30.9607975 meters, in millimeters
    assert!(dist_p_ip >= 30_959 && dist_p_ip <= 30_962, "distance was {dist_p_ip}");
}

#[test]
fn distance_symmetric_and_zero() {
    let point_0 = waypoint(-739761399, 407767644);
    let point_1 = waypoint(-739673991, 407712090);
    assert_eq!(distance(&point_0, &point_1), distance(&point_1, &point_0));
    assert_eq!(0, distance(&point_0, &point_0));
}

#[test]
fn near_segment() {
    let a = waypoint(0, 5000000);
    let b = waypoint(0, 10000000);
    let segment = (&a, &b);
    assert!(is_near_segment(&waypoint(0, 5000000), segment, 100));
    assert!(is_near_segment(&waypoint(0, 10000000), segment, 100));
    assert!(is_near_segment(&waypoint(0, 10000100), segment, 2300));
    assert!(!is_near_segment(&waypoint(0, 15000000), segment, 100));
}
