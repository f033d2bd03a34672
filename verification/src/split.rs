//! The splitting engine: walks the points of the source traces, asks the
//! limit after every point, and emits one trimmed fragment per cut.
//!
//! After a cut the accumulator is re-seeded with the cut's last point, so
//! consecutive fragments share a boundary point and no gap appears between
//! them.  A leftover of at least two points becomes one final fragment
//! attributed to the last source trace; a shorter leftover cannot form a
//! line and is dropped.

use vstd::prelude::*;

use crate::limit::{
    exceeds_req, limit_after, limit_exceeds, points_after, Limit, LimitV,
};
use crate::types::{all_valid, clone_name, copy_points, Gpx, Route, RouteV, Track, TrackSegment,
    TrackV, Waypoint, WaypointV};

verus! {

/// The state of a run: the limit (location candidates may have been
/// consumed), the points gathered for the fragment in progress, and the
/// fragments emitted so far, each as the index of its source trace and its
/// points.
pub struct SplitState {
    pub limit: LimitV,
    pub acc: Seq<WaypointV>,
    pub frags: Seq<(int, Seq<WaypointV>)>,
}

/// The state a fresh run starts from.
pub open spec fn initial_state(l: LimitV) -> SplitState {
    SplitState { limit: l, acc: Seq::empty(), frags: Seq::empty() }
}

/// One step of the run: append the point of trace `ti` to the
/// accumulator; if the limit now asks for a cut, emit the (possibly
/// snapped) accumulator as a fragment of trace `ti` and re-seed the
/// accumulator with its last point.
pub open spec fn feed_point(st: SplitState, ti: int, p: WaypointV) -> SplitState {
    let acc1 = st.acc.push(p);
    if limit_exceeds(st.limit, acc1) {
        let acc2 = points_after(st.limit, acc1);
        SplitState {
            limit: limit_after(st.limit, acc1),
            acc: seq![acc2.last()],
            frags: st.frags.push((ti, acc2)),
        }
    } else {
        SplitState { limit: st.limit, acc: acc1, frags: st.frags }
    }
}

/// The state after feeding the first `n` points of trace `ti`.
pub open spec fn feed_points(st: SplitState, ti: int, pts: Seq<WaypointV>, n: int) -> SplitState
    decreases n,
{
    if n <= 0 {
        st
    } else {
        feed_point(feed_points(st, ti, pts, n - 1), ti, pts[n - 1])
    }
}

/// The state after feeding the first `n` traces whole.
pub open spec fn feed_traces(st: SplitState, traces: Seq<Seq<WaypointV>>, n: int) -> SplitState
    decreases n,
{
    if n <= 0 {
        st
    } else {
        let prev = feed_traces(st, traces, n - 1);
        feed_points(prev, n - 1, traces[n - 1], traces[n - 1].len() as int)
    }
}

/// The fragments of a whole run over the given traces: every fragment the
/// limit cut, plus the leftover accumulator as a final fragment of the
/// last trace when it holds at least two points.
pub open spec fn split_frags(l: LimitV, traces: Seq<Seq<WaypointV>>) -> Seq<(int, Seq<WaypointV>)> {
    let fin = feed_traces(initial_state(l), traces, traces.len() as int);
    if fin.acc.len() > 1 && traces.len() > 0 {
        fin.frags.push((traces.len() - 1, fin.acc))
    } else {
        fin.frags
    }
}

/// The limit after a whole run: what is left of a location limit's
/// candidate pool.
pub open spec fn split_limit_after(l: LimitV, traces: Seq<Seq<WaypointV>>) -> LimitV {
    feed_traces(initial_state(l), traces, traces.len() as int).limit
}

/// What the engine requires: a well-formed candidate pool, and legal
/// coordinates throughout wherever the limit will take geodesic
/// distances.
pub open spec fn split_req(l: LimitV, traces: Seq<Seq<WaypointV>>) -> bool {
    match l {
        LimitV::Points(_) => true,
        LimitV::Length(_) => forall|t: int| 0 <= t < traces.len() ==> all_valid(#[trigger] traces[t]),
        LimitV::Location(cs, _) => all_valid(cs) && forall|t: int|
            0 <= t < traces.len() ==> all_valid(#[trigger] traces[t]),
    }
}

/// The two limit values are built from the same rule.
pub open spec fn same_rule(a: LimitV, b: LimitV) -> bool {
    match (a, b) {
        (LimitV::Points(_), LimitV::Points(_)) => true,
        (LimitV::Length(_), LimitV::Length(_)) => true,
        (LimitV::Location(_, _), LimitV::Location(_, _)) => true,
        _ => false,
    }
}

/// The executable fragments match the specification's, one for one.
pub open spec fn frags_match(r: Seq<(usize, Vec<Waypoint>)>, s: Seq<(int, Seq<WaypointV>)>) -> bool {
    &&& r.len() == s.len()
    &&& forall|k: int|
        0 <= k < r.len() ==> {
            &&& (#[trigger] r[k]).0 as int == s[k].0
            &&& r[k].1.deep_view() == s[k].1
        }
}

/// Clears the points, keeping the previous last one as the sole element:
/// the seed the next fragment grows from.
fn clear_points(points: &Vec<Waypoint>) -> (r: Vec<Waypoint>)
    requires
        points.len() >= 1,
    ensures
        r.deep_view() =~= seq![points.deep_view().last()],
{
    let last = points[points.len() - 1].clone();
    let mut r: Vec<Waypoint> = Vec::new();
    r.push(last);
    r
}

/// Runs the limit over every point of every trace and returns the emitted
/// fragments, each with the index of its source trace.
fn split_engine(limit: &mut Limit, traces: &Vec<Vec<Waypoint>>) -> (r: Vec<(usize, Vec<Waypoint>)>)
    requires
        split_req(old(limit).deep_view(), traces.deep_view()),
    ensures
        frags_match(r@, split_frags(old(limit).deep_view(), traces.deep_view())),
        final(limit).deep_view() == split_limit_after(old(limit).deep_view(), traces.deep_view()),
        forall|k: int| 0 <= k < r@.len() ==> (#[trigger] r@[k]).0 < traces.len(),
{
    let ghost l0 = limit.deep_view();
    let ghost tv = traces.deep_view();
    let mut out: Vec<(usize, Vec<Waypoint>)> = Vec::new();
    let mut acc: Vec<Waypoint> = Vec::new();
    let mut t: usize = 0;
    while t < traces.len()
        invariant
            t <= traces.len(),
            tv == traces.deep_view(),
            split_req(l0, tv),
            ({
                let st = feed_traces(initial_state(l0), tv, t as int);
                &&& limit.deep_view() == st.limit
                &&& acc.deep_view() == st.acc
                &&& frags_match(out@, st.frags)
            }),
            exceeds_req(limit.deep_view(), acc.deep_view()),
            same_rule(l0, limit.deep_view()),
            forall|k: int| 0 <= k < out@.len() ==> (#[trigger] out@[k]).0 < traces.len(),
        decreases traces.len() - t,
    {
        let ghost st_t = feed_traces(initial_state(l0), tv, t as int);
        proof {
            assert(tv[t as int] == traces@[t as int].deep_view());
        }
        let trace_len = traces[t].len();
        let mut p: usize = 0;
        while p < trace_len
            invariant
                t < traces.len(),
                p <= trace_len,
                tv == traces.deep_view(),
                split_req(l0, tv),
                st_t == feed_traces(initial_state(l0), tv, t as int),
                trace_len == tv[t as int].len(),
                ({
                    let st = feed_points(st_t, t as int, tv[t as int], p as int);
                    &&& limit.deep_view() == st.limit
                    &&& acc.deep_view() == st.acc
                    &&& frags_match(out@, st.frags)
                }),
                exceeds_req(limit.deep_view(), acc.deep_view()),
                same_rule(l0, limit.deep_view()),
                forall|k: int| 0 <= k < out@.len() ==> (#[trigger] out@[k]).0 < traces.len(),
            decreases trace_len - p,
        {
            let ghost st = feed_points(st_t, t as int, tv[t as int], p as int);
            proof {
                assert(tv[t as int] == traces@[t as int].deep_view());
                assert(tv[t as int][p as int] == traces@[t as int]@[p as int].deep_view());
            }
            let point = traces[t][p].clone();
            acc.push(point);
            let ghost acc1 = st.acc.push(tv[t as int][p as int]);
            proof {
                assert(acc.deep_view() =~= acc1);
                match limit.deep_view() {
                    LimitV::Points(_) => {},
                    LimitV::Length(_) => {
                        assert(all_valid(tv[t as int]));
                        assert(tv[t as int][p as int].valid());
                        assert(all_valid(acc1));
                    },
                    LimitV::Location(cs, _) => {
                        assert(all_valid(tv[t as int]));
                        assert(tv[t as int][p as int].valid());
                        assert(all_valid(acc1));
                    },
                }
            }
            let cut = limit.exceeds(&mut acc);
            if cut {
                let ghost acc2 = points_after(st.limit, acc1);
                proof {
                    assert(acc.deep_view() == acc2);
                    assert(acc2.len() == acc1.len());
                    assert(acc.len() >= 1);
                }
                let frag = copy_points(&acc);
                out.push((t, frag));
                acc = clear_points(&acc);
                proof {
                    assert(acc.deep_view() =~= seq![acc2.last()]);
                    let stn = feed_point(st, t as int, tv[t as int][p as int]);
                    assert(frag.deep_view() == acc2);
                    assert(stn.frags == st.frags.push((t as int, acc2)));
                    assert(frags_match(out@, stn.frags));
                }
            }
            proof {
                assert(feed_points(st_t, t as int, tv[t as int], p + 1 as int) == feed_point(
                    st,
                    t as int,
                    tv[t as int][p as int],
                ));
            }
            p = p + 1;
        }
        proof {
            assert(feed_traces(initial_state(l0), tv, t + 1 as int) == feed_points(
                st_t,
                t as int,
                tv[t as int],
                tv[t as int].len() as int,
            ));
            assert(tv[t as int].len() == trace_len);
        }
        t = t + 1;
    }
    if acc.len() > 1 && traces.len() > 0 {
        let ghost fin = feed_traces(initial_state(l0), tv, tv.len() as int);
        proof {
            assert(fin.acc.len() > 1);
        }
        out.push((traces.len() - 1, acc));
    }
    out
}

/// Splits a route or a track: the two trace kinds share the engine above
/// and differ in how a trace's points are laid out and how a fragment is
/// rebuilt around them.
pub trait Splitter<T: DeepView> {
    /// The limit this splitter applies.
    spec fn limit_v(&self) -> LimitV;

    /// The flattened points of one trace.
    spec fn trace_points(t: T::V) -> Seq<WaypointV>;

    /// The fragment built from a source trace and new points.
    spec fn rebuilt(src: T::V, pts: Seq<WaypointV>) -> T::V;

    /// The trace collection this splitter works on within a container.
    spec fn container_traces(gpx: Gpx) -> Seq<T::V>;

    /// Returns the traces to split.
    fn traces(&self, gpx: Gpx) -> (r: Vec<T>)
        ensures
            r.deep_view() == Self::container_traces(gpx),
    ;

    /// Splits the given traces into new traces, cutting wherever the
    /// limit asks; a location limit consumes one candidate per cut.
    fn split(&mut self, origin: &Vec<T>) -> (r: Vec<T>)
        requires
            split_req(
                old(self).limit_v(),
                Seq::new(origin.deep_view().len(), |i: int| Self::trace_points(origin.deep_view()[i])),
            ),
        ensures
            ({
                let tps = Seq::new(
                    origin.deep_view().len(),
                    |i: int| Self::trace_points(origin.deep_view()[i]),
                );
                let frags = split_frags(old(self).limit_v(), tps);
                &&& r.deep_view().len() == frags.len()
                &&& forall|k: int|
                    0 <= k < frags.len() ==> {
                        &&& 0 <= (#[trigger] frags[k]).0 < origin.deep_view().len()
                        &&& r.deep_view()[k] == Self::rebuilt(
                            origin.deep_view()[frags[k].0],
                            frags[k].1,
                        )
                    }
                &&& final(self).limit_v() == split_limit_after(old(self).limit_v(), tps)
            }),
    ;
}

/// Splitter for routes.
pub struct RouteSplitter {
    limit: Limit,
}

/// Splitter for tracks.
pub struct TrackSplitter {
    limit: Limit,
}

impl Splitter<Route> for RouteSplitter {
    closed spec fn limit_v(&self) -> LimitV {
        self.limit.deep_view()
    }

    open spec fn trace_points(t: RouteV) -> Seq<WaypointV> {
        t.points
    }

    open spec fn rebuilt(src: RouteV, pts: Seq<WaypointV>) -> RouteV {
        RouteV { name: src.name, points: pts }
    }

    open spec fn container_traces(gpx: Gpx) -> Seq<RouteV> {
        gpx.routes.deep_view()
    }

    fn traces(&self, gpx: Gpx) -> (r: Vec<Route>) {
        gpx.routes
    }

    fn split(&mut self, origin: &Vec<Route>) -> (r: Vec<Route>) {
        let ghost l0 = self.limit.deep_view();
        let ghost tps = Seq::new(
            origin.deep_view().len(),
            |i: int| Self::trace_points(origin.deep_view()[i]),
        );
        let mut trace_points: Vec<Vec<Waypoint>> = Vec::new();
        let mut i: usize = 0;
        while i < origin.len()
            invariant
                i <= origin.len(),
                tps == Seq::new(
                    origin.deep_view().len(),
                    |j: int| Self::trace_points(origin.deep_view()[j]),
                ),
                trace_points.deep_view().len() == i as int,
                forall|j: int| 0 <= j < i ==> trace_points.deep_view()[j] == tps[j],
            decreases origin.len() - i,
        {
            proof {
                assert(origin.deep_view()[i as int] == origin@[i as int].deep_view());
            }
            trace_points.push(copy_points(&origin[i].points));
            i = i + 1;
        }
        proof {
            assert(trace_points.deep_view() =~= tps);
        }
        let frags = split_engine(&mut self.limit, &trace_points);
        let ghost sfrags = split_frags(l0, tps);
        let mut out: Vec<Route> = Vec::new();
        let mut k: usize = 0;
        while k < frags.len()
            invariant
                k <= frags.len(),
                frags_match(frags@, sfrags),
                forall|j: int| 0 <= j < frags@.len() ==> (#[trigger] frags@[j]).0 < origin.len(),
                out.deep_view().len() == k as int,
                forall|j: int|
                    0 <= j < k ==> out.deep_view()[j] == Self::rebuilt(
                        origin.deep_view()[sfrags[j].0],
                        sfrags[j].1,
                    ),
            decreases frags.len() - k,
        {
            let ti = frags[k].0;
            proof {
                assert(origin.deep_view()[ti as int] == origin@[ti as int].deep_view());
            }
            let new_route = RouteSplitter::clone_route(&origin[ti], &frags[k].1);
            let ghost prev = out.deep_view();
            out.push(new_route);
            proof {
                assert(out.deep_view() =~= prev.push(new_route.deep_view()));
                assert(frags@[k as int].1.deep_view() == sfrags[k as int].1);
                assert(out.deep_view()[k as int] == Self::rebuilt(
                    origin.deep_view()[sfrags[k as int].0],
                    sfrags[k as int].1,
                ));
            }
            k = k + 1;
        }
        proof {
            assert forall|k2: int| 0 <= k2 < sfrags.len() implies 0 <= (#[trigger] sfrags[k2]).0
                < origin.deep_view().len() by {
                assert(frags@[k2].0 as int == sfrags[k2].0);
                assert((frags@[k2]).0 < trace_points.len());
            }
        }
        out
    }
}

impl RouteSplitter {
    /// Constructs a new [`Splitter`] for a [`Route`].
    pub fn new(limit: Limit) -> (r: Self)
        ensures
            r.limit_v() == limit.deep_view(),
    {
        RouteSplitter { limit }
    }

    /// A copy of the source route carrying the given points instead of
    /// its own.
    fn clone_route(src_route: &Route, points: &Vec<Waypoint>) -> (r: Route)
        ensures
            r.deep_view() == (RouteV { name: src_route.deep_view().name, points: points.deep_view() }),
    {
        Route { name: clone_name(&src_route.name), points: copy_points(points) }
    }
}

impl Splitter<Track> for TrackSplitter {
    closed spec fn limit_v(&self) -> LimitV {
        self.limit.deep_view()
    }

    open spec fn trace_points(t: TrackV) -> Seq<WaypointV> {
        t.segments.flatten()
    }

    open spec fn rebuilt(src: TrackV, pts: Seq<WaypointV>) -> TrackV {
        TrackV { name: src.name, segments: seq![pts] }
    }

    open spec fn container_traces(gpx: Gpx) -> Seq<TrackV> {
        gpx.tracks.deep_view()
    }

    fn traces(&self, gpx: Gpx) -> (r: Vec<Track>) {
        gpx.tracks
    }

    fn split(&mut self, origin: &Vec<Track>) -> (r: Vec<Track>) {
        let ghost l0 = self.limit.deep_view();
        let ghost tps = Seq::new(
            origin.deep_view().len(),
            |i: int| Self::trace_points(origin.deep_view()[i]),
        );
        let mut trace_points: Vec<Vec<Waypoint>> = Vec::new();
        let mut i: usize = 0;
        while i < origin.len()
            invariant
                i <= origin.len(),
                tps == Seq::new(
                    origin.deep_view().len(),
                    |j: int| Self::trace_points(origin.deep_view()[j]),
                ),
                trace_points.deep_view().len() == i as int,
                forall|j: int| 0 <= j < i ==> trace_points.deep_view()[j] == tps[j],
            decreases origin.len() - i,
        {
            proof {
                assert(origin.deep_view()[i as int] == origin@[i as int].deep_view());
            }
            let flat = TrackSplitter::flatten_track(&origin[i]);
            trace_points.push(flat);
            i = i + 1;
        }
        proof {
            assert(trace_points.deep_view() =~= tps);
        }
        let frags = split_engine(&mut self.limit, &trace_points);
        let ghost sfrags = split_frags(l0, tps);
        let mut out: Vec<Track> = Vec::new();
        let mut k: usize = 0;
        while k < frags.len()
            invariant
                k <= frags.len(),
                frags_match(frags@, sfrags),
                forall|j: int| 0 <= j < frags@.len() ==> (#[trigger] frags@[j]).0 < origin.len(),
                out.deep_view().len() == k as int,
                forall|j: int|
                    0 <= j < k ==> out.deep_view()[j] == Self::rebuilt(
                        origin.deep_view()[sfrags[j].0],
                        sfrags[j].1,
                    ),
            decreases frags.len() - k,
        {
            let ti = frags[k].0;
            proof {
                assert(origin.deep_view()[ti as int] == origin@[ti as int].deep_view());
            }
            let new_track = TrackSplitter::clone_track(&origin[ti], &frags[k].1);
            let ghost prev = out.deep_view();
            out.push(new_track);
            proof {
                assert(out.deep_view() =~= prev.push(new_track.deep_view()));
                assert(frags@[k as int].1.deep_view() == sfrags[k as int].1);
                assert(out.deep_view()[k as int] == Self::rebuilt(
                    origin.deep_view()[sfrags[k as int].0],
                    sfrags[k as int].1,
                ));
            }
            k = k + 1;
        }
        proof {
            assert forall|k2: int| 0 <= k2 < sfrags.len() implies 0 <= (#[trigger] sfrags[k2]).0
                < origin.deep_view().len() by {
                assert(frags@[k2].0 as int == sfrags[k2].0);
                assert((frags@[k2]).0 < trace_points.len());
            }
        }
        out
    }
}

impl TrackSplitter {
    /// Constructs a new [`Splitter`] for a [`Track`].
    pub fn new(limit: Limit) -> (r: Self)
        ensures
            r.limit_v() == limit.deep_view(),
    {
        TrackSplitter { limit }
    }

    /// The points of all segments of the track, flattened into one run in
    /// segment order.
    fn flatten_track(track: &Track) -> (r: Vec<Waypoint>)
        ensures
            r.deep_view() == track.deep_view().segments.flatten(),
    {
        let ghost segs = track.deep_view().segments;
        let mut flat: Vec<Waypoint> = Vec::new();
        proof {
            assert(segs.take(0) =~= Seq::<Seq<WaypointV>>::empty());
            assert(segs.take(0).flatten() =~= Seq::<WaypointV>::empty());
        }
        let mut si: usize = 0;
        while si < track.segments.len()
            invariant
                si <= track.segments.len(),
                segs == track.deep_view().segments,
                segs.len() == track.segments.len(),
                flat.deep_view() == segs.take(si as int).flatten(),
            decreases track.segments.len() - si,
        {
            proof {
                assert(segs[si as int] == track.segments@[si as int].deep_view());
            }
            let mut seg_pts = copy_points(&track.segments[si].points);
            flat.append(&mut seg_pts);
            proof {
                segs.take(si as int).lemma_flatten_push(segs[si as int]);
                assert(segs.take(si + 1 as int) =~= segs.take(si as int).push(segs[si as int]));
                assert(flat.deep_view() =~= segs.take(si + 1 as int).flatten());
            }
            si = si + 1;
        }
        proof {
            assert(segs.take(segs.len() as int) =~= segs);
        }
        flat
    }

    /// A copy of the source track holding the given points as its single
    /// segment.
    fn clone_track(src_track: &Track, points: &Vec<Waypoint>) -> (r: Track)
        ensures
            r.deep_view() == (TrackV {
                name: src_track.deep_view().name,
                segments: seq![points.deep_view()],
            }),
    {
        let mut segs: Vec<TrackSegment> = Vec::new();
        segs.push(TrackSegment { points: copy_points(points) });
        let r = Track { name: clone_name(&src_track.name), segments: segs };
        proof {
            assert(r.deep_view().segments =~= seq![points.deep_view()]);
        }
        r
    }
}

} // verus!
