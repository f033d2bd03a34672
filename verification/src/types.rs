//! The data model: waypoints, traces and the container that holds them.
//!
//! Coordinates are kept as plain integers: degrees scaled by ten million
//! (a resolution of 1e-7 degree, about a centimeter on the ground), the
//! usual fixed-point encoding for GPS coordinates.  All geometric logic of
//! the crate works on these integers; only the geodesic primitives convert
//! them to floating point, behind the trusted boundary in [`crate::geo`].

use vstd::prelude::*;

verus! {

/// Largest legal latitude, in degrees scaled by ten million.
pub const LAT_E7_MAX: i64 = 900_000_000;

/// Largest legal longitude, in degrees scaled by ten million.
pub const LON_E7_MAX: i64 = 1_800_000_000;

/// A geographic point: latitude and longitude in degrees scaled by ten
/// million, plus an optional display name.
pub struct Waypoint {
    pub lat_e7: i64,
    pub lon_e7: i64,
    pub name: Option<String>,
}

/// The mathematical value of a [`Waypoint`].
pub struct WaypointV {
    pub lat: int,
    pub lon: int,
    pub name: Option<Seq<char>>,
}

impl WaypointV {
    /// The coordinates lie in the ranges the GPX schema allows:
    /// latitude within ±90°, longitude within ±180°.
    pub open spec fn valid(self) -> bool {
        &&& -LAT_E7_MAX <= self.lat <= LAT_E7_MAX
        &&& -LON_E7_MAX <= self.lon <= LON_E7_MAX
    }
}

impl DeepView for Waypoint {
    type V = WaypointV;

    open spec fn deep_view(&self) -> WaypointV {
        WaypointV { lat: self.lat_e7 as int, lon: self.lon_e7 as int, name: self.name.deep_view() }
    }
}

/// Every waypoint of the sequence has coordinates in the legal ranges.
pub open spec fn all_valid(s: Seq<WaypointV>) -> bool {
    forall|i: int| 0 <= i < s.len() ==> #[trigger] s[i].valid()
}

impl Waypoint {
    /// A waypoint with the given coordinates and no name.
    pub fn new(lat_e7: i64, lon_e7: i64) -> (r: Waypoint)
        ensures
            r.deep_view() == (WaypointV { lat: lat_e7 as int, lon: lon_e7 as int, name: None }),
    {
        Waypoint { lat_e7, lon_e7, name: None }
    }
}

impl Default for Waypoint {
    /// The origin waypoint: both coordinates zero, no name.
    fn default() -> (r: Waypoint)
        ensures
            r.deep_view() == (WaypointV { lat: 0, lon: 0, name: None }),
    {
        Waypoint { lat_e7: 0, lon_e7: 0, name: None }
    }
}

impl Clone for Waypoint {
    fn clone(&self) -> (r: Waypoint)
        ensures
            r == *self,
    {
        Waypoint {
            lat_e7: self.lat_e7,
            lon_e7: self.lon_e7,
            name: match &self.name {
                Some(n) => Some(n.clone()),
                None => None,
            },
        }
    }
}

/// An exact copy of a waypoint vector.
pub fn copy_points(src: &Vec<Waypoint>) -> (r: Vec<Waypoint>)
    ensures
        r@ == src@,
{
    let mut r: Vec<Waypoint> = Vec::new();
    let mut k: usize = 0;
    while k < src.len()
        invariant
            k <= src.len(),
            r@ == src@.subrange(0, k as int),
        decreases src.len() - k,
    {
        r.push(src[k].clone());
        proof {
            assert(r@ =~= src@.subrange(0, k + 1 as int));
        }
        k = k + 1;
    }
    proof {
        assert(src@.subrange(0, src@.len() as int) =~= src@);
    }
    r
}

/// An exact copy of an optional name.
pub fn clone_name(name: &Option<String>) -> (r: Option<String>)
    ensures
        r == *name,
{
    match name {
        Some(n) => Some(n.clone()),
        None => None,
    }
}

/// An ordered sequence of waypoints held directly.
pub struct Route {
    pub name: Option<String>,
    pub points: Vec<Waypoint>,
}

/// The mathematical value of a [`Route`].
pub struct RouteV {
    pub name: Option<Seq<char>>,
    pub points: Seq<WaypointV>,
}

impl DeepView for Route {
    type V = RouteV;

    open spec fn deep_view(&self) -> RouteV {
        RouteV { name: self.name.deep_view(), points: self.points.deep_view() }
    }
}

/// One contiguous run of waypoints inside a track.
pub struct TrackSegment {
    pub points: Vec<Waypoint>,
}

impl DeepView for TrackSegment {
    type V = Seq<WaypointV>;

    open spec fn deep_view(&self) -> Seq<WaypointV> {
        self.points.deep_view()
    }
}

/// An ordered sequence of waypoints held as one or more segments.
pub struct Track {
    pub name: Option<String>,
    pub segments: Vec<TrackSegment>,
}

/// The mathematical value of a [`Track`].
pub struct TrackV {
    pub name: Option<Seq<char>>,
    pub segments: Seq<Seq<WaypointV>>,
}

impl DeepView for Track {
    type V = TrackV;

    open spec fn deep_view(&self) -> TrackV {
        TrackV { name: self.name.deep_view(), segments: self.segments.deep_view() }
    }
}

/// The bounding rectangle of a set of waypoints, in degrees scaled by ten
/// million.
pub struct Bounds {
    pub min_lat: i64,
    pub min_lon: i64,
    pub max_lat: i64,
    pub max_lon: i64,
}

/// Container metadata: the parts the splitting logic reads or rewrites.
pub struct Metadata {
    pub name: Option<String>,
    pub bounds: Option<Bounds>,
}

/// A container: zero or more traces of either kind, free waypoints, and
/// optional metadata.
pub struct Gpx {
    pub metadata: Option<Metadata>,
    pub waypoints: Vec<Waypoint>,
    pub routes: Vec<Route>,
    pub tracks: Vec<Track>,
}

} // verus!
