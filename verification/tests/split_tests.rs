use gpx_split::limit::Limit;
use gpx_split::split::{RouteSplitter, Splitter, TrackSplitter};
use gpx_split::types::{Route, Track, TrackSegment, Waypoint};

fn new_route(num_points: u32) -> Route {
    let mut route = Route { name: None, points: vec![] };
    for i in 0..num_points {
        let mut point = Waypoint::default();
        point.name = Some(format!("point {i}"));
        route.points.push(point);
    }
    route
}

fn new_route_splitter(max: u32) -> RouteSplitter {
    RouteSplitter::new(Limit::points(max))
}

#[test]
fn split_route_0() {
    let route = Route { name: None, points: vec![] };

    let routes = new_route_splitter(0).split(&vec![route]);

    assert_eq!(0, routes.len());
}

#[test]
fn split_route_1() {
    let route = new_route(4);

    let routes = new_route_splitter(4).split(&vec![route]);

    assert_eq!(1, routes.len());
}

#[test]
fn split_route_3() {
    let route = new_route(4);

    let routes = new_route_splitter(2).split(&vec![route]);

    assert_eq!(3, routes.len());
    let first_points = routes.first().map(|r| r.points.clone()).unwrap();
    let middle_points = routes.get(1).map(|r| r.points.clone()).unwrap();
    let last_points = routes.last().map(|r| r.points.clone()).unwrap();
    assert_points(first_points, middle_points, last_points);
}

fn new_track(num_points: u32) -> Track {
    let mut segment = TrackSegment { points: vec![] };
    for i in 0..num_points {
        let mut point = Waypoint::default();
        point.name = Some(format!("point {i}"));
        segment.points.push(point);
    }
    Track { name: None, segments: vec![segment] }
}

fn new_track_splitter(max: u32) -> TrackSplitter {
    TrackSplitter::new(Limit::points(max))
}

#[test]
fn split_track_0() {
    let track = Track { name: None, segments: vec![] };

    let tracks = new_track_splitter(0).split(&vec![track]);

    assert_eq!(0, tracks.len());
}

#[test]
fn split_track_1() {
    let track = new_track(4);

    let tracks = new_track_splitter(4).split(&vec![track]);

    assert_eq!(1, tracks.len());
}

#[test]
fn split_track_3() {
    let track = new_track(4);

    let tracks = new_track_splitter(2).split(&vec![track]);

    // expect 3 tracks with 1 segment each containing 2 points
    assert_eq!(3, tracks.len());

    let first_points = tracks
        .first()
        .and_then(|t| t.segments.first())
        .map(|s| s.points.clone())
        .unwrap();
    let middle_points = tracks
        .get(1)
        .and_then(|t| t.segments.first())
        .map(|s| s.points.clone())
        .unwrap();
    let last_points = tracks
        .last()
        .and_then(|t| t.segments.first())
        .map(|s| s.points.clone())
        .unwrap();
    assert_points(first_points, middle_points, last_points);
}

fn assert_points(
    first_points: Vec<Waypoint>,
    middle_points: Vec<Waypoint>,
    last_points: Vec<Waypoint>,
) {
    assert_eq!(2, first_points.len());
    assert_eq!(2, middle_points.len());
    assert_eq!(2, last_points.len());

    // first from 0 to 1
    assert_eq!(
        "point 0",
        first_points.first().and_then(|p| p.name.clone()).unwrap()
    );
    assert_eq!(
        "point 1",
        first_points.last().and_then(|p| p.name.clone()).unwrap()
    );
    // second from 1 to 2
    assert_eq!(
        "point 1",
        middle_points.first().and_then(|p| p.name.clone()).unwrap()
    );
    assert_eq!(
        "point 2",
        middle_points.last().and_then(|p| p.name.clone()).unwrap()
    );
    // third from 2 to 3
    assert_eq!(
        "point 2",
        last_points.first().and_then(|p| p.name.clone()).unwrap()
    );
    assert_eq!(
        "point 3",
        last_points.last().and_then(|p| p.name.clone()).unwrap()
    );
}

/// A limit wider than the trace leaves it in one piece: as many traces
/// come out as went in, so a caller sees the run as a no-op.
#[test]
fn noop_split_keeps_trace_whole() {
    let route = new_route(4);
    let routes = new_route_splitter(10).split(&vec![route]);
    assert_eq!(1, routes.len());
    assert_eq!(4, routes[0].points.len());
    for i in 0..4u32 {
        assert_eq!(Some(format!("point {i}")), routes[0].points[i as usize].name.clone());
    }
}

/// Count conservation: every source point appears in order; each cut
/// repeats its boundary point in the next fragment.
#[test]
fn count_conservation() {
    let route = new_route(5);
    let routes = new_route_splitter(2).split(&vec![route]);
    assert_eq!(4, routes.len());
    let total: usize = routes.iter().map(|r| r.points.len()).sum();
    assert_eq!(5 + 4 - 1, total);
    for k in 1..routes.len() {
        assert_eq!(
            routes[k - 1].points.last().unwrap().name,
            routes[k].points.first().unwrap().name
        );
    }
}

/// A long track split by points: 500 points with a limit of 50 yield
/// ceil(499/49) = 11 fragments, all but the last with exactly 50 points.
#[test]
fn long_track_by_points() {
    let track = new_track(500);
    let tracks = new_track_splitter(50).split(&vec![track]);
    assert_eq!(11, tracks.len());
    for (i, t) in tracks.iter().enumerate() {
        assert_eq!(1, t.segments.len());
        if i < 10 {
            assert_eq!(50, t.segments[0].points.len());
        } else {
            assert!(t.segments[0].points.len() >= 2);
        }
    }
}

/// A track along a meridian, points about 221 m apart.
fn meridian_track(num_points: u32) -> Track {
    let mut segment = TrackSegment { points: vec![] };
    for i in 0..num_points {
        // 0.002 degrees of latitude per step
        segment.points.push(Waypoint::new((i as i64) * 20000, 0));
    }
    Track { name: None, segments: vec![segment] }
}

/// A length limit cuts as soon as the accumulated path exceeds it: with
/// 19 points about 221 m apart and a limit of 800 m, every fifth point
/// (about 885 m) triggers a cut.
#[test]
fn split_track_by_length() {
    let track = meridian_track(19);
    let mut splitter = TrackSplitter::new(Limit::length(800));

    let tracks = splitter.split(&vec![track]);

    assert_eq!(5, tracks.len());
    for (i, t) in tracks.iter().enumerate() {
        if i < 4 {
            assert_eq!(5, t.segments[0].points.len());
        } else {
            assert_eq!(3, t.segments[0].points.len());
        }
    }
}

/// A length limit wider than the whole track splits nothing: one
/// fragment comes back, so the caller sees the run as a no-op.
#[test]
fn split_track_by_length_too_long() {
    let track = meridian_track(19);
    let mut splitter = TrackSplitter::new(Limit::length(5000));

    let tracks = splitter.split(&vec![track]);

    assert_eq!(1, tracks.len());
    assert_eq!(19, tracks[0].segments[0].points.len());
}

/// Segment boundaries inside a track are flattened away: two segments
/// feed one accumulator, and a cut may fall across them.
#[test]
fn split_track_across_segments() {
    let mut first = TrackSegment { points: vec![] };
    let mut second = TrackSegment { points: vec![] };
    for i in 0..3u32 {
        let mut p = Waypoint::default();
        p.name = Some(format!("point {i}"));
        first.points.push(p);
    }
    for i in 3..6u32 {
        let mut p = Waypoint::default();
        p.name = Some(format!("point {i}"));
        second.points.push(p);
    }
    let track = Track { name: None, segments: vec![first, second] };

    let tracks = new_track_splitter(4).split(&vec![track]);

    assert_eq!(2, tracks.len());
    assert_eq!(4, tracks[0].segments[0].points.len());
    assert_eq!(3, tracks[1].segments[0].points.len());
    assert_eq!(
        Some("point 3".to_string()),
        tracks[1].segments[0].points[0].name.clone()
    );
}
