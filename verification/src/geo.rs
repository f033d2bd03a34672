//! Geodesic primitives and bounding-box computation.
//!
//! Distances are measured in millimeters and returned as integers, so that
//! every comparison and sum in the crate is exact integer arithmetic.  The
//! two floating-point computations — the geodesic distance between two
//! coordinates and the bearing-projection interception point — are made by
//! the `geo` crate behind trusted wrappers; their results are named by the
//! uninterpreted functions [`geodesic_mm`] and [`intercept_of`].

use vstd::prelude::*;

use geo::{Bearing, Destination, Distance, Geodesic, Point};

use crate::types::{all_valid, Bounds, Gpx, Metadata, Waypoint, WaypointV};

verus! {

/// The geodesic distance in millimeters between two coordinates given in
/// degrees scaled by ten million, as the `geo` crate computes it on the
/// WGS-84 ellipsoid.
pub uninterp spec fn geodesic_mm(a_lat: int, a_lon: int, b_lat: int, b_lon: int) -> u64;

/// The interception point for `c` on the geodesic through `a` and `b`, as
/// computed by bearing projection: travel from `a` toward `b` by the
/// distance from `a` to `c`.  Coordinates in degrees scaled by ten million.
pub uninterp spec fn intercept_of(
    c_lat: int,
    c_lon: int,
    a_lat: int,
    a_lon: int,
    b_lat: int,
    b_lon: int,
) -> (i64, i64);

/// The geodesic distance in millimeters between two waypoint values.
pub open spec fn wp_dist_mm(a: WaypointV, b: WaypointV) -> u64 {
    geodesic_mm(a.lat, a.lon, b.lat, b.lon)
}

/// Relies on `geo::Geodesic.distance` (Karney's algorithm on the WGS-84
/// ellipsoid; `geo` forwards to `geographiclib_rs::Geodesic::inverse`):
/// the distance in meters between two points given as degrees, a
/// non-negative function of the two coordinate pairs alone.  The values
/// cross the boundary as decimal strings: the fixed-point inputs gain an
/// exponent marker that scales them down by ten million, and the metric
/// result, formatted to three decimals, loses its decimal point — and the
/// sign a negative zero would print — which leaves whole millimeters.
#[verifier::external_body]
pub(crate) fn measure_geodesic_mm(a_lat: i64, a_lon: i64, b_lat: i64, b_lon: i64) -> (r: u64)
    requires
        -crate::types::LAT_E7_MAX <= a_lat <= crate::types::LAT_E7_MAX,
        -crate::types::LON_E7_MAX <= a_lon <= crate::types::LON_E7_MAX,
        -crate::types::LAT_E7_MAX <= b_lat <= crate::types::LAT_E7_MAX,
        -crate::types::LON_E7_MAX <= b_lon <= crate::types::LON_E7_MAX,
    ensures
        r == geodesic_mm(a_lat as int, a_lon as int, b_lat as int, b_lon as int),
{
    let pa = Point::new(format!("{}e-7", a_lon).parse().unwrap(), format!("{}e-7", a_lat).parse().unwrap());
    let pb = Point::new(format!("{}e-7", b_lon).parse().unwrap(), format!("{}e-7", b_lat).parse().unwrap());
    let meters = Geodesic.distance(pa, pb);
    format!("{:.3}", meters).replace('.', "").replace('-', "").parse().unwrap()
}

/// Relies on `geo::Geodesic.bearing`, `geo::Geodesic.distance` and
/// `geo::Geodesic.destination` (all Karney's algorithms on WGS-84): the
/// projection of `c` onto the geodesic through `a` and `b` — from `a`,
/// along the initial bearing toward `b`, by the distance from `a` to `c` —
/// a function of the three coordinate pairs alone.  `geographiclib_rs`'s
/// direct solution returns a latitude within ±90° and a longitude
/// normalized to ±180°, so the result is again a legal coordinate pair.
/// The values cross the boundary as decimal strings, as in
/// [`measure_geodesic_mm`]; the result, formatted to seven decimals,
/// comes back in degrees scaled by ten million.
#[verifier::external_body]
pub(crate) fn compute_interception(
    c_lat: i64,
    c_lon: i64,
    a_lat: i64,
    a_lon: i64,
    b_lat: i64,
    b_lon: i64,
) -> (r: (i64, i64))
    requires
        -crate::types::LAT_E7_MAX <= c_lat <= crate::types::LAT_E7_MAX,
        -crate::types::LON_E7_MAX <= c_lon <= crate::types::LON_E7_MAX,
        -crate::types::LAT_E7_MAX <= a_lat <= crate::types::LAT_E7_MAX,
        -crate::types::LON_E7_MAX <= a_lon <= crate::types::LON_E7_MAX,
        -crate::types::LAT_E7_MAX <= b_lat <= crate::types::LAT_E7_MAX,
        -crate::types::LON_E7_MAX <= b_lon <= crate::types::LON_E7_MAX,
    ensures
        r == intercept_of(
            c_lat as int,
            c_lon as int,
            a_lat as int,
            a_lon as int,
            b_lat as int,
            b_lon as int,
        ),
        -crate::types::LAT_E7_MAX <= r.0 <= crate::types::LAT_E7_MAX,
        -crate::types::LON_E7_MAX <= r.1 <= crate::types::LON_E7_MAX,
{
    let pa = Point::new(format!("{}e-7", a_lon).parse().unwrap(), format!("{}e-7", a_lat).parse().unwrap());
    let pb = Point::new(format!("{}e-7", b_lon).parse().unwrap(), format!("{}e-7", b_lat).parse().unwrap());
    let pc = Point::new(format!("{}e-7", c_lon).parse().unwrap(), format!("{}e-7", c_lat).parse().unwrap());
    let ip = Geodesic.destination(pa, Geodesic.bearing(pa, pb), Geodesic.distance(pa, pc));
    (
        format!("{:.7}", ip.y()).replace('.', "").parse().unwrap(),
        format!("{:.7}", ip.x()).replace('.', "").parse().unwrap(),
    )
}

/// Calculates the distance between the two waypoints, in millimeters.
pub fn distance(p1: &Waypoint, p2: &Waypoint) -> (r: u64)
    requires
        p1.deep_view().valid(),
        p2.deep_view().valid(),
    ensures
        r == wp_dist_mm(p1.deep_view(), p2.deep_view()),
{
    measure_geodesic_mm(p1.lat_e7, p1.lon_e7, p2.lat_e7, p2.lon_e7)
}

/// The sum of the geodesic distances over consecutive pairs of the
/// sequence, in millimeters; zero when the sequence has fewer than two
/// points.
pub open spec fn cumulative_mm(s: Seq<WaypointV>) -> int
    decreases s.len(),
{
    if s.len() < 2 {
        0
    } else {
        cumulative_mm(s.drop_last()) + wp_dist_mm(s[s.len() - 2], s[s.len() - 1])
    }
}

/// The cumulative distance is non-negative and at most one maximal
/// distance per consecutive pair.
pub proof fn lemma_cumulative_mm_bounds(s: Seq<WaypointV>)
    ensures
        0 <= cumulative_mm(s),
        s.len() >= 1 ==> cumulative_mm(s) <= (s.len() - 1) * (u64::MAX as int),
        s.len() < 2 ==> cumulative_mm(s) == 0,
    decreases s.len(),
{
    if s.len() < 2 {
        assert(s.len() >= 1 ==> (s.len() - 1) * (u64::MAX as int) >= 0) by (nonlinear_arith);
    } else {
        lemma_cumulative_mm_bounds(s.drop_last());
        assert((s.len() - 2) * (u64::MAX as int) + (u64::MAX as int) == (s.len() - 1) * (
        u64::MAX as int)) by (nonlinear_arith);
    }
}

/// Calculates the length of the whole waypoint sequence: the sum of the
/// geodesic distances between consecutive points, in millimeters.
pub fn distance_all(points: &Vec<Waypoint>) -> (r: u128)
    requires
        all_valid(points.deep_view()),
    ensures
        r as int == cumulative_mm(points.deep_view()),
{
    let ghost s = points.deep_view();
    let mut acc: u128 = 0;
    if points.len() < 2 {
        return 0;
    }
    let mut i: usize = 1;
    while i < points.len()
        invariant
            1 <= i <= s.len(),
            2 <= s.len(),
            s == points.deep_view(),
            all_valid(s),
            acc as int == cumulative_mm(s.subrange(0, i as int)),
        decreases points.len() - i,
    {
        proof {
            assert(s[i - 1] == points@[i - 1].deep_view());
            assert(s[i as int] == points@[i as int].deep_view());
            assert(s[i - 1].valid());
            assert(s[i as int].valid());
        }
        let d = measure_geodesic_mm(
            points[i - 1].lat_e7,
            points[i - 1].lon_e7,
            points[i].lat_e7,
            points[i].lon_e7,
        );
        proof {
            let pre = s.subrange(0, i as int);
            let post = s.subrange(0, i + 1 as int);
            assert(post.drop_last() =~= pre);
            assert(post[post.len() - 2] == s[i - 1]);
            assert(post[post.len() - 1] == s[i as int]);
            lemma_cumulative_mm_bounds(pre);
            assert((i as int - 1) * (u64::MAX as int) + (u64::MAX as int) < u128::MAX as int)
                by (nonlinear_arith)
                requires 1 <= i as int <= 0xffff_ffff_ffff_ffff
            ;
        }
        acc = acc + (d as u128);
        i = i + 1;
    }
    proof {
        assert(s.subrange(0, s.len() as int) =~= s);
    }
    acc
}

/// The excess path length, in millimeters, of going from `a` to `p` and
/// then from `b` to `p`, over the direct way from `a` to `b`.
pub open spec fn excess_mm(p: WaypointV, a: WaypointV, b: WaypointV) -> int {
    wp_dist_mm(a, p) + wp_dist_mm(b, p) - wp_dist_mm(a, b)
}

/// The point is near the segment: the excess path length through the
/// point, taken absolutely, stays under `max_mm` millimeters.
pub open spec fn near_segment_mm(p: WaypointV, a: WaypointV, b: WaypointV, max_mm: int) -> bool {
    let e = excess_mm(p, a, b);
    (if e < 0 {
        -e
    } else {
        e
    }) < max_mm
}

/// Returns true iff the point is on the segment or close behind one of its
/// endpoints: the detour over the point, measured against the segment
/// itself, stays under `max_mm` millimeters.
pub fn is_near_segment(point: &Waypoint, segment: (&Waypoint, &Waypoint), max_mm: u64) -> (r: bool)
    requires
        point.deep_view().valid(),
        segment.0.deep_view().valid(),
        segment.1.deep_view().valid(),
    ensures
        r == near_segment_mm(
            point.deep_view(),
            segment.0.deep_view(),
            segment.1.deep_view(),
            max_mm as int,
        ),
{
    let dist_seg = distance(segment.0, segment.1);
    let dist_start_point = distance(segment.0, point);
    let dist_end_point = distance(segment.1, point);
    let excess: i128 = (dist_start_point as i128) + (dist_end_point as i128) - (dist_seg as i128);
    let d: i128 = if excess < 0 {
        -excess
    } else {
        excess
    };
    d < (max_mm as i128)
}

/// The interception point: the point on the geodesic through the segment
/// that the bearing projection from its first endpoint yields for `point`.
/// The result carries no name.
pub fn interception_point(point: &Waypoint, geodesic: (&Waypoint, &Waypoint)) -> (r: Waypoint)
    requires
        point.deep_view().valid(),
        geodesic.0.deep_view().valid(),
        geodesic.1.deep_view().valid(),
    ensures
        r.deep_view() == (WaypointV {
            lat: intercept_of(
                point.deep_view().lat,
                point.deep_view().lon,
                geodesic.0.deep_view().lat,
                geodesic.0.deep_view().lon,
                geodesic.1.deep_view().lat,
                geodesic.1.deep_view().lon,
            ).0 as int,
            lon: intercept_of(
                point.deep_view().lat,
                point.deep_view().lon,
                geodesic.0.deep_view().lat,
                geodesic.0.deep_view().lon,
                geodesic.1.deep_view().lat,
                geodesic.1.deep_view().lon,
            ).1 as int,
            name: None,
        }),
        r.deep_view().valid(),
{
    let (ip_lat, ip_lon) = compute_interception(
        point.lat_e7,
        point.lon_e7,
        geodesic.0.lat_e7,
        geodesic.0.lon_e7,
        geodesic.1.lat_e7,
        geodesic.1.lon_e7,
    );
    Waypoint { lat_e7: ip_lat, lon_e7: ip_lon, name: None }
}

/// Finds the bounding box of the given waypoints: `None` for an empty
/// sequence, else the rectangle of the least and greatest latitude and
/// longitude.
pub fn find_bounds(way_points: &Vec<Waypoint>) -> (r: Option<Bounds>)
    ensures
        match r {
            None => way_points.deep_view().len() == 0,
            Some(b) => {
                let s = way_points.deep_view();
                &&& s.len() > 0
                &&& forall|i: int|
                    0 <= i < s.len() ==> {
                        &&& b.min_lat <= #[trigger] s[i].lat <= b.max_lat
                        &&& b.min_lon <= s[i].lon <= b.max_lon
                    }
                &&& exists|i: int| 0 <= i < s.len() && #[trigger] s[i].lat == b.min_lat
                &&& exists|i: int| 0 <= i < s.len() && #[trigger] s[i].lat == b.max_lat
                &&& exists|i: int| 0 <= i < s.len() && #[trigger] s[i].lon == b.min_lon
                &&& exists|i: int| 0 <= i < s.len() && #[trigger] s[i].lon == b.max_lon
            },
        },
{
    let ghost s = way_points.deep_view();
    if way_points.len() == 0 {
        return None;
    }
    let mut min_lat: i64 = way_points[0].lat_e7;
    let mut max_lat: i64 = way_points[0].lat_e7;
    let mut min_lon: i64 = way_points[0].lon_e7;
    let mut max_lon: i64 = way_points[0].lon_e7;
    let ghost mut w_min_lat: int = 0;
    let ghost mut w_max_lat: int = 0;
    let ghost mut w_min_lon: int = 0;
    let ghost mut w_max_lon: int = 0;
    let mut i: usize = 1;
    while i < way_points.len()
        invariant
            1 <= i <= s.len(),
            s == way_points.deep_view(),
            forall|j: int|
                0 <= j < i ==> {
                    &&& min_lat <= #[trigger] s[j].lat <= max_lat
                    &&& min_lon <= s[j].lon <= max_lon
                },
            0 <= w_min_lat < i && s[w_min_lat].lat == min_lat,
            0 <= w_max_lat < i && s[w_max_lat].lat == max_lat,
            0 <= w_min_lon < i && s[w_min_lon].lon == min_lon,
            0 <= w_max_lon < i && s[w_max_lon].lon == max_lon,
        decreases way_points.len() - i,
    {
        let w_lat = way_points[i].lat_e7;
        let w_lon = way_points[i].lon_e7;
        if w_lat < min_lat {
            min_lat = w_lat;
            proof {
                w_min_lat = i as int;
            }
        }
        if w_lat > max_lat {
            max_lat = w_lat;
            proof {
                w_max_lat = i as int;
            }
        }
        if w_lon < min_lon {
            min_lon = w_lon;
            proof {
                w_min_lon = i as int;
            }
        }
        if w_lon > max_lon {
            max_lon = w_lon;
            proof {
                w_max_lon = i as int;
            }
        }
        i = i + 1;
    }
    proof {
        assert(0 <= w_min_lat < s.len() && s[w_min_lat].lat == min_lat);
        assert(0 <= w_max_lat < s.len() && s[w_max_lat].lat == max_lat);
        assert(0 <= w_min_lon < s.len() && s[w_min_lon].lon == min_lon);
        assert(0 <= w_max_lon < s.len() && s[w_max_lon].lon == max_lon);
    }
    Some(Bounds { min_lat, min_lon, max_lat, max_lon })
}

/// Adjusts the bounds of the metadata, if they are set, to the bounding
/// box of the given waypoints.  Everything else in the container stays as
/// it was.
pub fn fit_bounds(gpx: Gpx, way_points: &Vec<Waypoint>) -> (r: Gpx)
    ensures
        r.waypoints == gpx.waypoints,
        r.routes == gpx.routes,
        r.tracks == gpx.tracks,
        match gpx.metadata {
            None => r.metadata is None,
            Some(m) => {
                &&& r.metadata is Some
                &&& r.metadata->0.name == m.name
                &&& match m.bounds {
                    None => r.metadata->0.bounds is None,
                    Some(_) => {
                        let s = way_points.deep_view();
                        match r.metadata->0.bounds {
                            None => s.len() == 0,
                            Some(b) => {
                                &&& s.len() > 0
                                &&& forall|i: int|
                                    0 <= i < s.len() ==> {
                                        &&& b.min_lat <= #[trigger] s[i].lat <= b.max_lat
                                        &&& b.min_lon <= s[i].lon <= b.max_lon
                                    }
                                &&& exists|i: int|
                                    0 <= i < s.len() && #[trigger] s[i].lat == b.min_lat
                                &&& exists|i: int|
                                    0 <= i < s.len() && #[trigger] s[i].lat == b.max_lat
                                &&& exists|i: int|
                                    0 <= i < s.len() && #[trigger] s[i].lon == b.min_lon
                                &&& exists|i: int|
                                    0 <= i < s.len() && #[trigger] s[i].lon == b.max_lon
                            },
                        }
                    },
                }
            },
        },
{
    let Gpx { metadata, waypoints, routes, tracks } = gpx;
    let new_metadata = match metadata {
        Some(m) => {
            if m.bounds.is_some() {
                Some(Metadata { name: m.name, bounds: find_bounds(way_points) })
            } else {
                Some(m)
            }
        },
        None => None,
    };
    Gpx { metadata: new_metadata, waypoints, routes, tracks }
}

} // verus!
