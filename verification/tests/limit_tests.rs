use gpx_split::limit::Limit;
use gpx_split::types::Waypoint;

/// A waypoint from degrees scaled by ten million, given as (lon, lat).
fn waypoint(lon_e7: i64, lat_e7: i64) -> Waypoint {
    Waypoint::new(lat_e7, lon_e7)
}

#[test]
fn exceeds_location_false() {
    let mut lim = Limit::Location(vec![], 2);
    let mut points = vec![Waypoint::default()];
    assert!(!lim.exceeds(&mut points));
    let mut lim = Limit::Location(vec![Waypoint::default()], 2);
    let mut points = vec![Waypoint::default()];
    assert!(!lim.exceeds(&mut points));
}

#[test]
fn exceeds_location_true() {
    let split_points = vec![waypoint(135353690, 526438260), waypoint(135353680, 526438250)];
    let mut lim = Limit::Location(split_points, 15);
    let mut points = vec![waypoint(135338260, 526436050), waypoint(135356290, 526440210)];
    assert!(lim.exceeds(&mut points));
}

#[test]
fn interception_points_not_near() {
    let dist = 34000;
    let a = waypoint(-10000000, 0);
    let b = waypoint(10000000, 0);
    let split_points = vec![waypoint(-15000000, 15000000)];
    let ips = Limit::interception_points(dist, &split_points, (&a, &b));
    assert!(ips.is_empty());
}

#[test]
fn interception_points_near() {
    let dist = 34000;
    let a = waypoint(-10000000, 0);
    let b = waypoint(10000000, 0);
    let mut wp = waypoint(0, 2000000);
    wp.name = Some("Point".to_string());
    let split_points = vec![
        waypoint(-5000000, 15000000),
        waypoint(-1000000, 4000000),
        wp,
        waypoint(5000000, 3000000),
    ];

    let ips = Limit::interception_points(dist, &split_points, (&a, &b));

    assert_eq!(2, ips.len());
    let first = ips[0].0;
    let point = ips[0].2.clone();
    let second = ips[1].0;
    let dist_mm = (dist as u64) * 1000;
    assert!(second < dist_mm);
    assert!(first < second);
    assert_eq!("nearby Point", point.name.unwrap());
}

/// Of two candidates near the same segment, the nearer one is chosen:
/// the snapped point carries its name, and only it leaves the pool.
#[test]
fn nearer_candidate_wins() {
    let mut near = waypoint(0, 2000000);
    near.name = Some("Near".to_string());
    let mut far = waypoint(5000000, 3000000);
    far.name = Some("Far".to_string());
    let mut lim = Limit::Location(vec![far, near], 34000);
    let mut points = vec![waypoint(-10000000, 0), waypoint(10000000, 0)];

    assert!(lim.exceeds(&mut points));

    assert_eq!(Some("nearby Near".to_string()), points[1].name.clone());
    match lim {
        Limit::Location(pool, _) => {
            assert_eq!(1, pool.len());
            assert_eq!(Some("Far".to_string()), pool[0].name.clone());
        }
        _ => panic!("unexpected limit"),
    }
}

/// Two candidates at exactly the same distance: the one inserted first
/// wins the tie.
#[test]
fn tie_breaks_to_first_candidate() {
    let mut c1 = waypoint(0, 2000000);
    c1.name = Some("First".to_string());
    let mut c2 = waypoint(0, 2000000);
    c2.name = Some("Second".to_string());
    let mut lim = Limit::Location(vec![c1, c2], 34000);
    let mut points = vec![waypoint(-10000000, 0), waypoint(10000000, 0)];

    assert!(lim.exceeds(&mut points));

    assert_eq!(Some("nearby First".to_string()), points[1].name.clone());
    match lim {
        Limit::Location(pool, _) => {
            assert_eq!(1, pool.len());
            assert_eq!(Some("Second".to_string()), pool[0].name.clone());
        }
        _ => panic!("unexpected limit"),
    }
}

/// A consumed candidate is not reusable: with a pool of one, the first
/// passing segment cuts, a second pass over the same ground does not.
#[test]
fn candidate_consumed_only_once() {
    let mut lim = Limit::Location(vec![waypoint(0, 2000000)], 34000);
    let mut points = vec![waypoint(-10000000, 0), waypoint(10000000, 0)];
    assert!(lim.exceeds(&mut points));
    match &lim {
        Limit::Location(pool, _) => assert!(pool.is_empty()),
        _ => panic!("unexpected limit"),
    }
    let mut points = vec![waypoint(-10000000, 0), waypoint(10000000, 0)];
    assert!(!lim.exceeds(&mut points));
}

#[test]
fn exceeds_length() {
    // the two points lie about 962 meters apart
    let p0 = waypoint(-739761399, 407767644);
    let p1 = waypoint(-739673991, 407712090);
    let mut lim = Limit::length(1000);
    let mut points = vec![p0.clone(), p1.clone()];
    assert!(!lim.exceeds(&mut points));
    let mut lim = Limit::length(900);
    let mut points = vec![p0, p1];
    assert!(lim.exceeds(&mut points));
}

#[test]
fn exceeds_points() {
    let mut lim = Limit::points(2);
    let mut points = vec![Waypoint::default()];
    assert!(!lim.exceeds(&mut points));
    points.push(Waypoint::default());
    assert!(lim.exceeds(&mut points));
}
