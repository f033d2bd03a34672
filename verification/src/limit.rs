//! The limit: decides when the points gathered so far must be cut.
//!
//! A limit is one of three rules.  `Points` cuts after a maximum number of
//! points and `Length` after a maximum cumulative geodesic length; both are
//! pure predicates over the accumulated points.  `Location` carries a
//! consumable pool of candidate waypoints: when the segment formed by the
//! last two accumulated points passes near enough to a candidate, the last
//! point is snapped onto the candidate's interception point, the candidate
//! leaves the pool for good, and the cut is announced.

use vstd::prelude::*;
use vstd::pervasive::VecAdditionalExecFns;
use vstd::string::StringExecFns;

use crate::geo::{
    cumulative_mm, distance, distance_all, geodesic_mm, intercept_of, interception_point,
    is_near_segment, near_segment_mm,
};
use crate::types::{all_valid, Waypoint, WaypointV};

verus! {

/// Checks if the points exceed a defined limit.
pub enum Limit {
    /// Cut when the number of points reaches the maximum.
    Points(u32),
    /// Cut when the length in meters of the sum of the distances between
    /// the points exceeds the maximum.
    Length(u32),
    /// Cut when the current segment passes within the given distance in
    /// meters of one of the candidate waypoints.
    Location(Vec<Waypoint>, u32),
}

/// The mathematical value of a [`Limit`].
pub enum LimitV {
    Points(u32),
    Length(u32),
    Location(Seq<WaypointV>, u32),
}

impl DeepView for Limit {
    type V = LimitV;

    open spec fn deep_view(&self) -> LimitV {
        match self {
            Limit::Points(m) => LimitV::Points(*m),
            Limit::Length(m) => LimitV::Length(*m),
            Limit::Location(c, d) => LimitV::Location(c.deep_view(), *d),
        }
    }
}

/// The interception waypoint that a successful candidate contributes: the
/// projected coordinates, named `nearby <candidate name>` when the
/// candidate has a name.
pub open spec fn snapped(c: WaypointV, a: WaypointV, b: WaypointV) -> WaypointV {
    let ip = intercept_of(c.lat, c.lon, a.lat, a.lon, b.lat, b.lon);
    WaypointV {
        lat: ip.0 as int,
        lon: ip.1 as int,
        name: match c.name {
            Some(n) => Some("nearby "@ + n),
            None => None,
        },
    }
}

/// The distance in millimeters from the candidate to its interception
/// point on the segment.
pub open spec fn cand_dist_mm(c: WaypointV, a: WaypointV, b: WaypointV) -> u64 {
    let ip = snapped(c, a, b);
    geodesic_mm(c.lat, c.lon, ip.lat, ip.lon)
}

/// The candidate survives both filters: its interception point lies near
/// the segment, and the candidate itself lies within the maximum distance
/// (in meters) of that point.
pub open spec fn cand_ok(c: WaypointV, a: WaypointV, b: WaypointV, max_m: u32) -> bool {
    let ip = snapped(c, a, b);
    &&& near_segment_mm(ip, a, b, (max_m as int) * 1000)
    &&& cand_dist_mm(c, a, b) < (max_m as int) * 1000
}

/// The surviving candidates against the segment `(a, b)`, in candidate
/// order: for each, its distance in millimeters, its index in the pool,
/// and its named interception waypoint.
pub open spec fn survivors(cands: Seq<WaypointV>, a: WaypointV, b: WaypointV, max_m: u32) -> Seq<
    (u64, int, WaypointV),
>
    decreases cands.len(),
{
    if cands.len() == 0 {
        Seq::empty()
    } else {
        let pre = survivors(cands.drop_last(), a, b, max_m);
        let i = cands.len() - 1;
        if cand_ok(cands[i], a, b, max_m) {
            pre.push((cand_dist_mm(cands[i], a, b), i, snapped(cands[i], a, b)))
        } else {
            pre
        }
    }
}

/// The entry with the least distance; on a tie the earlier entry wins.
pub open spec fn min_entry(s: Seq<(u64, int, WaypointV)>) -> Option<(u64, int, WaypointV)>
    decreases s.len(),
{
    if s.len() == 0 {
        None
    } else {
        match min_entry(s.drop_last()) {
            None => Some(s.last()),
            Some(m) => if s.last().0 < m.0 {
                Some(s.last())
            } else {
                Some(m)
            },
        }
    }
}

/// What a location limit selects for the accumulated points: the nearest
/// surviving candidate against the segment of the last two points, or
/// nothing when no candidate survives or fewer than two points stand.
pub open spec fn location_choice(
    cands: Seq<WaypointV>,
    pts: Seq<WaypointV>,
    max_m: u32,
) -> Option<(u64, int, WaypointV)> {
    if pts.len() < 2 {
        None
    } else {
        min_entry(survivors(cands, pts[pts.len() - 2], pts[pts.len() - 1], max_m))
    }
}

/// Whether the limit asks for a cut on the accumulated points.
pub open spec fn limit_exceeds(l: LimitV, pts: Seq<WaypointV>) -> bool {
    match l {
        LimitV::Points(m) => pts.len() >= m,
        LimitV::Length(m) => cumulative_mm(pts) > (m as int) * 1000,
        LimitV::Location(cs, d) => location_choice(cs, pts, d) is Some,
    }
}

/// The limit after the check: a location limit consumes the chosen
/// candidate; everything else stays as it was.
pub open spec fn limit_after(l: LimitV, pts: Seq<WaypointV>) -> LimitV {
    match l {
        LimitV::Points(_) => l,
        LimitV::Length(_) => l,
        LimitV::Location(cs, d) => match location_choice(cs, pts, d) {
            Some(e) => LimitV::Location(cs.remove(e.1), d),
            None => l,
        },
    }
}

/// The accumulated points after the check: a location limit overwrites the
/// last point with the chosen interception waypoint; everything else
/// leaves the points as they were.
pub open spec fn points_after(l: LimitV, pts: Seq<WaypointV>) -> Seq<WaypointV> {
    match l {
        LimitV::Points(_) => pts,
        LimitV::Length(_) => pts,
        LimitV::Location(cs, d) => match location_choice(cs, pts, d) {
            Some(e) => pts.update(pts.len() - 1, e.2),
            None => pts,
        },
    }
}

/// What [`Limit::exceeds`] requires of its inputs: legal coordinates
/// wherever a geodesic distance will be taken.
pub open spec fn exceeds_req(l: LimitV, pts: Seq<WaypointV>) -> bool {
    match l {
        LimitV::Points(_) => true,
        LimitV::Length(_) => all_valid(pts),
        LimitV::Location(cs, _) => all_valid(pts) && all_valid(cs),
    }
}

/// Every survivor entry records a real candidate: its index is in range,
/// that candidate passes both filters, and distance and waypoint are the
/// candidate's own.
pub proof fn lemma_survivors_shape(cands: Seq<WaypointV>, a: WaypointV, b: WaypointV, max_m: u32)
    ensures
        ({
            let sv = survivors(cands, a, b, max_m);
            forall|k: int|
                0 <= k < sv.len() ==> {
                    let e = #[trigger] sv[k];
                    &&& 0 <= e.1 < cands.len()
                    &&& cand_ok(cands[e.1], a, b, max_m)
                    &&& e.0 == cand_dist_mm(cands[e.1], a, b)
                    &&& e.2 == snapped(cands[e.1], a, b)
                }
        }),
    decreases cands.len(),
{
    if cands.len() > 0 {
        lemma_survivors_shape(cands.drop_last(), a, b, max_m);
        assert(forall|i: int|
            0 <= i < cands.len() - 1 ==> cands.drop_last()[i] == #[trigger] cands[i]);
    }
}

/// Every candidate that passes both filters appears among the survivors.
pub proof fn lemma_survivors_complete(
    cands: Seq<WaypointV>,
    a: WaypointV,
    b: WaypointV,
    max_m: u32,
    i: int,
)
    requires
        0 <= i < cands.len(),
        cand_ok(cands[i], a, b, max_m),
    ensures
        exists|k: int|
            0 <= k < survivors(cands, a, b, max_m).len() && #[trigger] survivors(
                cands,
                a,
                b,
                max_m,
            )[k].1 == i,
    decreases cands.len(),
{
    let sv = survivors(cands, a, b, max_m);
    if i == cands.len() - 1 {
        assert(sv[sv.len() - 1].1 == i);
    } else {
        assert(cands.drop_last()[i] == cands[i]);
        lemma_survivors_complete(cands.drop_last(), a, b, max_m, i);
        let pre = survivors(cands.drop_last(), a, b, max_m);
        let k = choose|k: int| 0 <= k < pre.len() && #[trigger] pre[k].1 == i;
        assert(sv[k].1 == i);
    }
}

/// The minimum entry is one of the entries, and no entry beats its
/// distance.
pub proof fn lemma_min_entry_props(s: Seq<(u64, int, WaypointV)>)
    ensures
        min_entry(s) is Some <==> s.len() > 0,
        match min_entry(s) {
            Some(m) => (exists|k: int| 0 <= k < s.len() && s[k] == m) && (forall|k: int|
                0 <= k < s.len() ==> m.0 <= #[trigger] s[k].0),
            None => true,
        },
    decreases s.len(),
{
    if s.len() > 0 {
        lemma_min_entry_props(s.drop_last());
        assert(forall|k: int| 0 <= k < s.len() - 1 ==> s.drop_last()[k] == #[trigger] s[k]);
        let m = min_entry(s)->0;
        if s.len() == 1 {
            assert(s[0] == m);
        } else {
            let mp = min_entry(s.drop_last())->0;
            if s.last().0 < mp.0 {
                assert(s[s.len() - 1] == m);
            } else {
                let k = choose|k: int| 0 <= k < s.drop_last().len() && s.drop_last()[k] == mp;
                assert(s[k] == m);
            }
        }
    }
}

/// Survivor entries keep candidate order: positions in the list are
/// ordered like the candidate indices they record.
pub proof fn lemma_survivors_ordered(cands: Seq<WaypointV>, a: WaypointV, b: WaypointV, max_m: u32)
    ensures
        ({
            let sv = survivors(cands, a, b, max_m);
            forall|k1: int, k2: int|
                0 <= k1 < k2 < sv.len() ==> (#[trigger] sv[k1]).1 < (#[trigger] sv[k2]).1
        }),
    decreases cands.len(),
{
    if cands.len() > 0 {
        lemma_survivors_ordered(cands.drop_last(), a, b, max_m);
        lemma_survivors_shape(cands.drop_last(), a, b, max_m);
        let pre = survivors(cands.drop_last(), a, b, max_m);
        let sv = survivors(cands, a, b, max_m);
        assert forall|k1: int, k2: int| 0 <= k1 < k2 < sv.len() implies (#[trigger] sv[k1]).1 < (
        #[trigger] sv[k2]).1 by {
            if k2 < pre.len() {
                assert(sv[k1] == pre[k1]);
                assert(sv[k2] == pre[k2]);
            } else {
                assert(sv[k1] == pre[k1]);
                assert(pre[k1].1 < cands.drop_last().len());
            }
        }
    }
}

/// The minimum entry is the earliest entry achieving its distance: every
/// entry before it lies strictly farther.
pub proof fn lemma_min_entry_first(s: Seq<(u64, int, WaypointV)>)
    requires
        s.len() > 0,
    ensures
        ({
            let m = min_entry(s)->0;
            exists|k: int|
                0 <= k < s.len() && #[trigger] s[k] == m && (forall|j: int|
                    0 <= j < k ==> (#[trigger] s[j]).0 > m.0)
        }),
    decreases s.len(),
{
    lemma_min_entry_props(s);
    let m = min_entry(s)->0;
    if s.len() == 1 {
        assert(s[0] == m && (forall|j: int| 0 <= j < 0 ==> (#[trigger] s[j]).0 > m.0));
    } else {
        lemma_min_entry_props(s.drop_last());
        lemma_min_entry_first(s.drop_last());
        let mp = min_entry(s.drop_last())->0;
        if s.last().0 < mp.0 {
            let k = s.len() - 1;
            assert forall|j: int| 0 <= j < k implies (#[trigger] s[j]).0 > m.0 by {
                assert(s.drop_last()[j] == s[j]);
            }
            assert(s[k] == m && (forall|j: int| 0 <= j < k ==> (#[trigger] s[j]).0 > m.0));
        } else {
            let k = choose|k: int|
                0 <= k < s.drop_last().len() && #[trigger] s.drop_last()[k] == mp && (forall|j: int|
                    0 <= j < k ==> (#[trigger] s.drop_last()[j]).0 > mp.0);
            assert forall|j: int| 0 <= j < k implies (#[trigger] s[j]).0 > m.0 by {
                assert(s.drop_last()[j] == s[j]);
            }
            assert(s[k] == m && (forall|j: int| 0 <= j < k ==> (#[trigger] s[j]).0 > m.0));
        }
    }
}

impl Limit {
    /// Creates a new limit of points.
    pub fn points(max_points: u32) -> (r: Limit)
        ensures
            r.deep_view() == LimitV::Points(max_points),
    {
        Limit::Points(max_points)
    }

    /// Creates a new limit of length in meters.
    pub fn length(max_length: u32) -> (r: Limit)
        ensures
            r.deep_view() == LimitV::Length(max_length),
    {
        Limit::Length(max_length)
    }

    /// Creates a new limit for a distance in meters to candidate cut
    /// locations.
    pub fn location(waypoints: Vec<Waypoint>, distance: u32) -> (r: Limit)
        ensures
            r.deep_view() == LimitV::Location(waypoints.deep_view(), distance),
    {
        Limit::Location(waypoints, distance)
    }

    /// If the points exceed the limit, this method returns true, else
    /// false.  A location limit that answers true snaps the last point
    /// onto the chosen interception point and consumes the candidate.
    pub fn exceeds(&mut self, points: &mut Vec<Waypoint>) -> (r: bool)
        requires
            exceeds_req(old(self).deep_view(), old(points).deep_view()),
        ensures
            r == limit_exceeds(old(self).deep_view(), old(points).deep_view()),
            final(self).deep_view() == limit_after(old(self).deep_view(), old(points).deep_view()),
            final(points).deep_view() == points_after(
                old(self).deep_view(),
                old(points).deep_view(),
            ),
            exceeds_req(final(self).deep_view(), final(points).deep_view()),
    {
        match self {
            Limit::Points(max_points) => {
                let m: u32 = *max_points;
                points.len() >= m as usize
            },
            Limit::Length(max_length) => {
                let m: u32 = *max_length;
                let total = distance_all(points);
                total > (m as u128) * 1000
            },
            Limit::Location(split_points, dist) => {
                let d: u32 = *dist;
                Limit::exceeds_location(d, split_points, points)
            },
        }
    }

    /// The location rule: cut iff a candidate survives against the segment
    /// of the last two points; the nearest survivor (first wins on equal
    /// millimeter distance) replaces the last point and leaves the pool.
    pub fn exceeds_location(dist: u32, split_points: &mut Vec<Waypoint>, points: &mut Vec<
        Waypoint,
    >) -> (r: bool)
        requires
            all_valid(old(split_points).deep_view()),
            all_valid(old(points).deep_view()),
        ensures
            ({
                let l = LimitV::Location(old(split_points).deep_view(), dist);
                let pts0 = old(points).deep_view();
                &&& r == limit_exceeds(l, pts0)
                &&& LimitV::Location(final(split_points).deep_view(), dist) == limit_after(l, pts0)
                &&& final(points).deep_view() == points_after(l, pts0)
                &&& all_valid(final(split_points).deep_view())
                &&& all_valid(final(points).deep_view())
            }),
    {
        let ghost cands = split_points.deep_view();
        let ghost pts0 = points.deep_view();
        let len = points.len();
        if split_points.len() == 0 || len < 2 {
            proof {
                if pts0.len() >= 2 {
                    assert(survivors(cands, pts0[pts0.len() - 2], pts0[pts0.len() - 1], dist)
                        =~= Seq::empty());
                }
            }
            return false;
        }
        let a = points[len - 2].clone();
        let b = points[len - 1].clone();
        proof {
            assert(a.deep_view() == pts0[len - 2]);
            assert(b.deep_view() == pts0[len - 1]);
        }
        let ips = Limit::interception_points(dist, split_points, (&a, &b));
        let ghost sv = survivors(cands, pts0[len - 2], pts0[len - 1], dist);
        if ips.len() == 0 {
            proof {
                assert(min_entry(sv) is None);
            }
            return false;
        }
        proof {
            let s1 = sv.take(1);
            assert(s1.len() == 1);
            assert(s1.drop_last() =~= Seq::<(u64, int, WaypointV)>::empty());
            assert(min_entry(s1.drop_last()) is None);
            assert(min_entry(s1) == Some(s1.last()));
            assert(s1.last() == sv[0]);
        }
        let mut best: usize = 0;
        let mut k: usize = 1;
        while k < ips.len()
            invariant
                0 <= best < k <= ips.len(),
                entries_match(ips@, sv),
                min_entry(sv.take(k as int)) == Some(sv[best as int]),
            decreases ips.len() - k,
        {
            proof {
                assert(sv.take(k + 1 as int).drop_last() =~= sv.take(k as int));
            }
            if ips[k].0 < ips[best].0 {
                best = k;
            }
            k = k + 1;
        }
        proof {
            assert(sv.take(sv.len() as int) =~= sv);
            lemma_survivors_shape(cands, pts0[len - 2], pts0[len - 1], dist);
            assert(sv[best as int].1 == ips@[best as int].1 as int);
        }
        let index = ips[best].1;
        let ip = ips[best].2.clone();
        split_points.remove(index);
        points.set(len - 1, ip);
        proof {
            let e = sv[best as int];
            assert(final(split_points).deep_view() =~= cands.remove(e.1));
            assert(final(points).deep_view() =~= pts0.update(pts0.len() - 1, e.2));
            assert forall|i: int| 0 <= i < cands.remove(e.1).len() implies #[trigger] cands.remove(
                e.1,
            )[i].valid() by {
                if i < e.1 {
                    assert(cands.remove(e.1)[i] == cands[i]);
                } else {
                    assert(cands.remove(e.1)[i] == cands[i + 1]);
                }
            }
        }
        true
    }

    /// Evaluates every candidate in the pool against the segment: computes
    /// its interception point, drops candidates whose interception point
    /// falls away from the segment or that lie too far from it, and
    /// returns the rest in candidate order as distance in millimeters,
    /// candidate index, and named interception waypoint.
    pub fn interception_points(dist: u32, split_points: &Vec<Waypoint>, segment: (
        &Waypoint,
        &Waypoint,
    )) -> (r: Vec<(u64, usize, Waypoint)>)
        requires
            all_valid(split_points.deep_view()),
            segment.0.deep_view().valid(),
            segment.1.deep_view().valid(),
        ensures
            entries_match(
                r@,
                survivors(
                    split_points.deep_view(),
                    segment.0.deep_view(),
                    segment.1.deep_view(),
                    dist,
                ),
            ),
            forall|k: int| 0 <= k < r@.len() ==> (#[trigger] r@[k].2).deep_view().valid(),
    {
        let ghost cands = split_points.deep_view();
        let ghost a = segment.0.deep_view();
        let ghost b = segment.1.deep_view();
        let max_mm: u64 = (dist as u64) * 1000;
        let mut out: Vec<(u64, usize, Waypoint)> = Vec::new();
        let mut ci: usize = 0;
        while ci < split_points.len()
            invariant
                0 <= ci <= split_points.len(),
                cands == split_points.deep_view(),
                a == segment.0.deep_view(),
                b == segment.1.deep_view(),
                all_valid(cands),
                a.valid(),
                b.valid(),
                max_mm == (dist as int) * 1000,
                entries_match(out@, survivors(cands.take(ci as int), a, b, dist)),
                forall|k: int| 0 <= k < out@.len() ==> (#[trigger] out@[k].2).deep_view().valid(),
            decreases split_points.len() - ci,
        {
            let ghost pre = survivors(cands.take(ci as int), a, b, dist);
            proof {
                assert(cands.take(ci + 1 as int).drop_last() =~= cands.take(ci as int));
                assert(cands.take(ci + 1 as int).last() == cands[ci as int]);
                assert(cands[ci as int] == split_points@[ci as int].deep_view());
            }
            let c = &split_points[ci];
            let ip = interception_point(c, segment);
            if is_near_segment(&ip, segment, max_mm) {
                let d = distance(c, &ip);
                if d < max_mm {
                    let named_ip = Waypoint {
                        lat_e7: ip.lat_e7,
                        lon_e7: ip.lon_e7,
                        name: match &c.name {
                            Some(n) => Some(String::from_str("nearby ").concat(n.as_str())),
                            None => None,
                        },
                    };
                    proof {
                        assert(named_ip.deep_view() == snapped(cands[ci as int], a, b));
                        assert(cand_ok(cands[ci as int], a, b, dist));
                        assert(survivors(cands.take(ci + 1 as int), a, b, dist) =~= pre.push(
                            (cand_dist_mm(cands[ci as int], a, b), ci as int, snapped(
                                cands[ci as int],
                                a,
                                b,
                            )),
                        ));
                    }
                    out.push((d, ci, named_ip));
                } else {
                    proof {
                        assert(!cand_ok(cands[ci as int], a, b, dist));
                        assert(survivors(cands.take(ci + 1 as int), a, b, dist) =~= pre);
                    }
                }
            } else {
                proof {
                    assert(!cand_ok(cands[ci as int], a, b, dist));
                    assert(survivors(cands.take(ci + 1 as int), a, b, dist) =~= pre);
                }
            }
            ci = ci + 1;
        }
        proof {
            assert(cands.take(cands.len() as int) =~= cands);
        }
        out
    }
}

/// The executable survivor entries match the specification's, one for one.
pub open spec fn entries_match(r: Seq<(u64, usize, Waypoint)>, s: Seq<(u64, int, WaypointV)>) -> bool {
    &&& r.len() == s.len()
    &&& forall|k: int|
        0 <= k < r.len() ==> {
            &&& (#[trigger] r[k]).0 == s[k].0
            &&& r[k].1 as int == s[k].1
            &&& r[k].2.deep_view() == s[k].2
        }
}

} // verus!
