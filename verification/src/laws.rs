//! General properties of the limit and the splitting engine, stated and
//! proved once for all inputs.

use vstd::prelude::*;

use crate::geo::cumulative_mm;
use crate::limit::{
    cand_dist_mm, cand_ok, limit_after, limit_exceeds, location_choice, lemma_min_entry_first,
    lemma_min_entry_props, lemma_survivors_complete, lemma_survivors_ordered,
    lemma_survivors_shape, min_entry, survivors, LimitV,
};
use crate::split::{
    feed_point, feed_points, feed_traces, initial_state, split_frags, split_limit_after,
    SplitState,
};
use crate::types::WaypointV;

verus! {

/// A candidate pool only shrinks: a location cut consumes exactly one
/// candidate — the chosen one leaves the pool for good, and the pool
/// after the cut is one shorter.
pub proof fn lemma_location_cut_consumes(cands: Seq<WaypointV>, pts: Seq<WaypointV>, max_m: u32)
    requires
        limit_exceeds(LimitV::Location(cands, max_m), pts),
    ensures
        match limit_after(LimitV::Location(cands, max_m), pts) {
            LimitV::Location(cs2, m2) => cs2.len() == cands.len() - 1 && m2 == max_m,
            _ => false,
        },
{
    let a = pts[pts.len() - 2];
    let b = pts[pts.len() - 1];
    let sv = survivors(cands, a, b, max_m);
    lemma_min_entry_props(sv);
    lemma_survivors_shape(cands, a, b, max_m);
    let e = location_choice(cands, pts, max_m)->0;
    let k = choose|k: int| 0 <= k < sv.len() && sv[k] == e;
    assert(0 <= e.1 < cands.len());
}

/// The nearer candidate decides the cut: when two candidates both survive
/// against the current segment and the first lies strictly nearer, the
/// limit cuts, the chosen candidate's distance is at most the nearer
/// one's, and the farther candidate is never the one chosen.
pub proof fn lemma_nearer_candidate_wins(
    cands: Seq<WaypointV>,
    pts: Seq<WaypointV>,
    max_m: u32,
    i: int,
    j: int,
)
    requires
        pts.len() >= 2,
        0 <= i < cands.len(),
        0 <= j < cands.len(),
        cand_ok(cands[i], pts[pts.len() - 2], pts[pts.len() - 1], max_m),
        cand_ok(cands[j], pts[pts.len() - 2], pts[pts.len() - 1], max_m),
        cand_dist_mm(cands[i], pts[pts.len() - 2], pts[pts.len() - 1]) < cand_dist_mm(
            cands[j],
            pts[pts.len() - 2],
            pts[pts.len() - 1],
        ),
    ensures
        limit_exceeds(LimitV::Location(cands, max_m), pts),
        ({
            let e = location_choice(cands, pts, max_m)->0;
            &&& e.0 <= cand_dist_mm(cands[i], pts[pts.len() - 2], pts[pts.len() - 1])
            &&& e.1 != j
        }),
{
    let a = pts[pts.len() - 2];
    let b = pts[pts.len() - 1];
    let sv = survivors(cands, a, b, max_m);
    lemma_survivors_shape(cands, a, b, max_m);
    lemma_survivors_complete(cands, a, b, max_m, i);
    lemma_min_entry_props(sv);
    let ki = choose|k: int| 0 <= k < sv.len() && #[trigger] sv[k].1 == i;
    assert(sv.len() > 0);
    let e = min_entry(sv)->0;
    assert(e.0 <= sv[ki].0);
    assert(sv[ki].0 == cand_dist_mm(cands[i], a, b));
    let ke = choose|k: int| 0 <= k < sv.len() && sv[k] == e;
    assert(e.0 == cand_dist_mm(cands[e.1], a, b));
    if e.1 == j {
        assert(e.0 == cand_dist_mm(cands[j], a, b));
        assert(e.0 <= cand_dist_mm(cands[i], a, b));
        assert(false);
    }
}

/// On a millimeter tie the earlier candidate wins: of two candidates that
/// both survive against the current segment at the same quantized
/// distance, the one inserted later is never the one chosen.
pub proof fn lemma_tie_breaks_to_first(
    cands: Seq<WaypointV>,
    pts: Seq<WaypointV>,
    max_m: u32,
    i: int,
    j: int,
)
    requires
        pts.len() >= 2,
        0 <= i < j < cands.len(),
        cand_ok(cands[i], pts[pts.len() - 2], pts[pts.len() - 1], max_m),
        cand_ok(cands[j], pts[pts.len() - 2], pts[pts.len() - 1], max_m),
        cand_dist_mm(cands[i], pts[pts.len() - 2], pts[pts.len() - 1]) == cand_dist_mm(
            cands[j],
            pts[pts.len() - 2],
            pts[pts.len() - 1],
        ),
    ensures
        limit_exceeds(LimitV::Location(cands, max_m), pts),
        (location_choice(cands, pts, max_m)->0).1 != j,
{
    let a = pts[pts.len() - 2];
    let b = pts[pts.len() - 1];
    let sv = survivors(cands, a, b, max_m);
    lemma_survivors_shape(cands, a, b, max_m);
    lemma_survivors_ordered(cands, a, b, max_m);
    lemma_survivors_complete(cands, a, b, max_m, i);
    lemma_min_entry_props(sv);
    lemma_min_entry_first(sv);
    let ki = choose|k: int| 0 <= k < sv.len() && #[trigger] sv[k].1 == i;
    let e = min_entry(sv)->0;
    let ke = choose|k: int|
        0 <= k < sv.len() && #[trigger] sv[k] == e && (forall|j2: int|
            0 <= j2 < k ==> (#[trigger] sv[j2]).0 > e.0);
    if e.1 == j {
        assert(sv[ke].1 == j);
        assert(ki != ke);
        if ki > ke {
            assert(sv[ke].1 < sv[ki].1);
            assert(false);
        }
        assert(sv[ki].0 > e.0);
        assert(sv[ki].0 == cand_dist_mm(cands[i], a, b));
        assert(e.0 == cand_dist_mm(cands[e.1], a, b));
        assert(false);
    }
}

/// The second limit value is what the first can become: the same rule
/// with, for a location limit, a candidate pool that lost some members
/// but gained none.
pub open spec fn pool_evolves(a: LimitV, b: LimitV) -> bool {
    match (a, b) {
        (LimitV::Points(m1), LimitV::Points(m2)) => m1 == m2,
        (LimitV::Length(m1), LimitV::Length(m2)) => m1 == m2,
        (LimitV::Location(cs1, d1), LimitV::Location(cs2, d2)) => {
            &&& d1 == d2
            &&& cs2.len() <= cs1.len()
            &&& forall|x: WaypointV| cs2.contains(x) ==> cs1.contains(x)
        },
        _ => false,
    }
}

/// One check of the limit evolves it: a pure limit stays exactly as it
/// was, a location limit at most loses one candidate.
proof fn lemma_limit_after_evolves(l: LimitV, pts: Seq<WaypointV>)
    ensures
        pool_evolves(l, limit_after(l, pts)),
{
    match l {
        LimitV::Points(_) => {},
        LimitV::Length(_) => {},
        LimitV::Location(cs, d) => {
            match location_choice(cs, pts, d) {
                None => {},
                Some(e) => {
                    let a = pts[pts.len() - 2];
                    let b = pts[pts.len() - 1];
                    let sv = survivors(cs, a, b, d);
                    lemma_min_entry_props(sv);
                    lemma_survivors_shape(cs, a, b, d);
                    let k = choose|k: int| 0 <= k < sv.len() && sv[k] == e;
                    assert(0 <= e.1 < cs.len());
                    let cs2 = cs.remove(e.1);
                    assert forall|x: WaypointV| cs2.contains(x) implies cs.contains(x) by {
                        let i = choose|i: int| 0 <= i < cs2.len() && cs2[i] == x;
                        if i < e.1 {
                            assert(cs[i] == x);
                        } else {
                            assert(cs[i + 1] == x);
                        }
                    }
                },
            }
        },
    }
}

/// Evolution is transitive.
proof fn lemma_pool_evolves_trans(a: LimitV, b: LimitV, c: LimitV)
    requires
        pool_evolves(a, b),
        pool_evolves(b, c),
    ensures
        pool_evolves(a, c),
{
}

/// Feeding points evolves the limit.
proof fn lemma_feed_points_evolves(st: SplitState, ti: int, pts: Seq<WaypointV>, n: int)
    requires
        0 <= n,
    ensures
        pool_evolves(st.limit, feed_points(st, ti, pts, n).limit),
    decreases n,
{
    if n <= 0 {
        lemma_limit_after_evolves(st.limit, Seq::empty());
        assert(pool_evolves(st.limit, st.limit));
    } else {
        lemma_feed_points_evolves(st, ti, pts, n - 1);
        let prev = feed_points(st, ti, pts, n - 1);
        lemma_limit_after_evolves(prev.limit, prev.acc.push(pts[n - 1]));
        lemma_pool_evolves_trans(st.limit, prev.limit, feed_points(st, ti, pts, n).limit);
    }
}

/// Feeding traces evolves the limit.
proof fn lemma_feed_traces_evolves(st: SplitState, tv: Seq<Seq<WaypointV>>, n: int)
    requires
        0 <= n,
    ensures
        pool_evolves(st.limit, feed_traces(st, tv, n).limit),
    decreases n,
{
    if n <= 0 {
        lemma_limit_after_evolves(st.limit, Seq::empty());
    } else {
        lemma_feed_traces_evolves(st, tv, n - 1);
        let prev = feed_traces(st, tv, n - 1);
        lemma_feed_points_evolves(prev, n - 1, tv[n - 1], tv[n - 1].len() as int);
        lemma_pool_evolves_trans(st.limit, prev.limit, feed_traces(st, tv, n).limit);
    }
}

/// Over a whole run, a pure limit comes back exactly as it went in, and a
/// location limit comes back with the same maximum distance and a
/// candidate pool that lost some members but gained none.
pub proof fn lemma_limit_monotonic(l: LimitV, traces: Seq<Seq<WaypointV>>)
    ensures
        pool_evolves(l, split_limit_after(l, traces)),
        pure_limit(l) ==> split_limit_after(l, traces) == l,
{
    lemma_feed_traces_evolves(initial_state(l), traces, traces.len() as int);
    match (l, split_limit_after(l, traces)) {
        (LimitV::Points(_), LimitV::Points(_)) => {},
        (LimitV::Length(_), LimitV::Length(_)) => {},
        _ => {},
    }
}

/// Every fragment in the sequence satisfies the limit.
spec fn frags_exceed(l: LimitV, fs: Seq<(int, Seq<WaypointV>)>) -> bool {
    forall|k: int| 0 <= k < fs.len() ==> limit_exceeds(l, (#[trigger] fs[k]).1)
}

/// One point keeps every emitted fragment a fragment the limit asked for.
proof fn lemma_feed_point_exceeds(l: LimitV, st: SplitState, ti: int, p: WaypointV)
    requires
        pure_limit(l),
        st.limit == l,
        frags_exceed(l, st.frags),
    ensures
        feed_point(st, ti, p).limit == l,
        frags_exceed(l, feed_point(st, ti, p).frags),
{
    let acc1 = st.acc.push(p);
    assert(crate::limit::points_after(l, acc1) == acc1);
    assert(crate::limit::limit_after(l, acc1) == l);
    if limit_exceeds(l, acc1) {
        let fs = feed_point(st, ti, p).frags;
        assert forall|k: int| 0 <= k < fs.len() implies limit_exceeds(l, (#[trigger] fs[k]).1) by {
            if k < st.frags.len() {
                assert(fs[k] == st.frags[k]);
            } else {
                assert(fs[k].1 == acc1);
            }
        }
    }
}

/// Feeding a run of points keeps it.
proof fn lemma_feed_points_exceeds(
    l: LimitV,
    st: SplitState,
    ti: int,
    pts: Seq<WaypointV>,
    n: int,
)
    requires
        pure_limit(l),
        st.limit == l,
        frags_exceed(l, st.frags),
        0 <= n,
    ensures
        feed_points(st, ti, pts, n).limit == l,
        frags_exceed(l, feed_points(st, ti, pts, n).frags),
    decreases n,
{
    if n > 0 {
        lemma_feed_points_exceeds(l, st, ti, pts, n - 1);
        lemma_feed_point_exceeds(l, feed_points(st, ti, pts, n - 1), ti, pts[n - 1]);
    }
}

/// Feeding whole traces keeps it.
proof fn lemma_feed_traces_exceeds(l: LimitV, tv: Seq<Seq<WaypointV>>, n: int)
    requires
        pure_limit(l),
        0 <= n,
    ensures
        feed_traces(initial_state(l), tv, n).limit == l,
        frags_exceed(l, feed_traces(initial_state(l), tv, n).frags),
    decreases n,
{
    if n > 0 {
        lemma_feed_traces_exceeds(l, tv, n - 1);
        let prev = feed_traces(initial_state(l), tv, n - 1);
        lemma_feed_points_exceeds(l, prev, n - 1, tv[n - 1], tv[n - 1].len() as int);
    }
}

/// Every emitted fragment, except possibly the very last, satisfies
/// "limit exceeded": it was emitted because the limit asked for the cut.
/// Stated for the pure rules, whose verdict depends on the points alone.
pub proof fn lemma_fragments_exceed(l: LimitV, traces: Seq<Seq<WaypointV>>)
    requires
        pure_limit(l),
    ensures
        ({
            let fs = split_frags(l, traces);
            forall|k: int| 0 <= k < fs.len() - 1 ==> limit_exceeds(l, (#[trigger] fs[k]).1)
        }),
{
    lemma_feed_traces_exceeds(l, traces, traces.len() as int);
    let fin = feed_traces(initial_state(l), traces, traces.len() as int);
    let fs = split_frags(l, traces);
    assert forall|k: int| 0 <= k < fs.len() - 1 implies limit_exceeds(l, (#[trigger] fs[k]).1) by {
        assert(fs[k] == fin.frags[k]);
    }
}

/// The cumulative length of a prefix never exceeds that of the whole
/// sequence.
pub proof fn lemma_cumulative_take_le(s: Seq<WaypointV>, n: int)
    requires
        0 <= n <= s.len(),
    ensures
        cumulative_mm(s.take(n)) <= cumulative_mm(s),
    decreases s.len() - n,
{
    crate::geo::lemma_cumulative_mm_bounds(s);
    if n == s.len() {
        assert(s.take(n) =~= s);
    } else {
        lemma_cumulative_take_le(s, n + 1);
        let t1 = s.take(n + 1);
        if t1.len() < 2 {
            assert(cumulative_mm(s.take(n)) == 0);
            crate::geo::lemma_cumulative_mm_bounds(s.take(n + 1));
        } else {
            assert(t1.drop_last() =~= s.take(n));
            assert(cumulative_mm(t1) == cumulative_mm(s.take(n)) + crate::geo::wp_dist_mm(
                t1[t1.len() - 2],
                t1[t1.len() - 1],
            ));
        }
    }
}

/// A pure limit that the whole point sequence does not exceed is not
/// exceeded by any prefix either.
pub proof fn lemma_unexceeded_prefix(l: LimitV, pts: Seq<WaypointV>, n: int)
    requires
        0 <= n <= pts.len(),
        match l {
            LimitV::Points(m) => pts.len() < m,
            LimitV::Length(m) => cumulative_mm(pts) <= (m as int) * 1000,
            LimitV::Location(_, _) => false,
        },
    ensures
        !limit_exceeds(l, pts.take(n)),
{
    match l {
        LimitV::Points(_) => {},
        LimitV::Length(_) => {
            lemma_cumulative_take_le(pts, n);
        },
        LimitV::Location(_, _) => {},
    }
}

/// Feeding a single never-exceeding trace leaves everything in the
/// accumulator: no cut falls, no candidate is consumed.
proof fn lemma_noop_feed(l: LimitV, pts: Seq<WaypointV>, n: int)
    requires
        0 <= n <= pts.len(),
        match l {
            LimitV::Points(m) => pts.len() < m,
            LimitV::Length(m) => cumulative_mm(pts) <= (m as int) * 1000,
            LimitV::Location(_, _) => false,
        },
    ensures
        feed_points(initial_state(l), 0, pts, n) == (SplitState {
            limit: l,
            acc: pts.take(n),
            frags: Seq::<(int, Seq<WaypointV>)>::empty(),
        }),
    decreases n,
{
    if n == 0 {
        assert(pts.take(0) =~= Seq::<WaypointV>::empty());
    } else {
        lemma_noop_feed(l, pts, n - 1);
        let st = feed_points(initial_state(l), 0, pts, n - 1);
        lemma_unexceeded_prefix(l, pts, n);
        assert(st.acc.push(pts[n - 1]) =~= pts.take(n));
    }
}

/// Idempotence of no-op splitting: a single trace of at least two points,
/// split under a pure limit whose threshold its whole extent stays
/// within, comes back as exactly one fragment — the trace's own points,
/// unchanged — and the limit comes back as it was.
pub proof fn lemma_noop_split(l: LimitV, pts: Seq<WaypointV>)
    requires
        pts.len() >= 2,
        match l {
            LimitV::Points(m) => pts.len() < m,
            LimitV::Length(m) => cumulative_mm(pts) <= (m as int) * 1000,
            LimitV::Location(_, _) => false,
        },
    ensures
        split_frags(l, seq![pts]) =~= seq![(0int, pts)],
        split_limit_after(l, seq![pts]) == l,
{
    let tv = seq![pts];
    assert(feed_traces(initial_state(l), tv, 1) == feed_points(
        feed_traces(initial_state(l), tv, 0),
        0,
        tv[0],
        tv[0].len() as int,
    ));
    lemma_noop_feed(l, pts, pts.len() as int);
    assert(pts.take(pts.len() as int) =~= pts);
}

/// The limit is a pure rule: it reads the accumulated points and keeps no
/// consumable state.
pub open spec fn pure_limit(l: LimitV) -> bool {
    l is Points || l is Length
}

/// The point sequences of the fragments, in emission order.
pub open spec fn frag_points(fs: Seq<(int, Seq<WaypointV>)>) -> Seq<Seq<WaypointV>> {
    fs.map_values(|f: (int, Seq<WaypointV>)| f.1)
}

/// Consecutive pieces chained by a shared boundary point: every piece
/// holds at least one point, and each piece after the first starts with
/// the point the previous one ends with.
pub open spec fn chain_ok(xs: Seq<Seq<WaypointV>>) -> bool {
    &&& forall|k: int| 0 <= k < xs.len() ==> (#[trigger] xs[k]).len() >= 1
    &&& forall|k: int| 1 <= k < xs.len() ==> (#[trigger] xs[k])[0] == xs[k - 1].last()
}

/// The pieces glued back together: the first piece whole, every later
/// piece without its first (shared) point.
pub open spec fn glued(xs: Seq<Seq<WaypointV>>) -> Seq<WaypointV>
    decreases xs.len(),
{
    if xs.len() == 0 {
        Seq::empty()
    } else if xs.len() == 1 {
        xs[0]
    } else {
        glued(xs.drop_last()) + xs.last().drop_first()
    }
}

/// The total number of points over all pieces.
pub open spec fn sum_lens(xs: Seq<Seq<WaypointV>>) -> int
    decreases xs.len(),
{
    if xs.len() == 0 {
        0
    } else {
        sum_lens(xs.drop_last()) + xs.last().len()
    }
}

/// Appending a point to the last piece appends it to the glued whole.
proof fn lemma_glued_push_last(ps: Seq<Seq<WaypointV>>, acc: Seq<WaypointV>, p: WaypointV)
    requires
        ps.len() == 0 || acc.len() >= 1,
    ensures
        glued(ps.push(acc.push(p))) =~= glued(ps.push(acc)).push(p),
{
    if ps.len() == 0 {
        assert(glued(ps.push(acc.push(p))) == acc.push(p));
        assert(glued(ps.push(acc)) == acc);
    } else {
        assert(ps.push(acc.push(p)).drop_last() =~= ps);
        assert(ps.push(acc).drop_last() =~= ps);
        assert(glued(ps.push(acc.push(p))) == glued(ps) + acc.push(p).drop_first());
        assert(glued(ps.push(acc)) == glued(ps) + acc.drop_first());
        assert(acc.push(p).drop_first() =~= acc.drop_first().push(p));
    }
}

/// Re-seeding the accumulator with the last point of a cut fragment adds
/// nothing to the glued whole.
proof fn lemma_glued_reseed(ps: Seq<Seq<WaypointV>>, acc1: Seq<WaypointV>)
    requires
        acc1.len() >= 1,
    ensures
        glued(ps.push(acc1).push(seq![acc1.last()])) =~= glued(ps.push(acc1)),
{
    let xs = ps.push(acc1).push(seq![acc1.last()]);
    assert(xs.drop_last() =~= ps.push(acc1));
    assert(xs.last() =~= seq![acc1.last()]);
    assert(xs.last().drop_first() =~= Seq::<WaypointV>::empty());
    assert(glued(xs) =~= glued(ps.push(acc1)) + Seq::<WaypointV>::empty());
}

/// The glued whole holds every point once, less one shared boundary point
/// per piece after the first.
proof fn lemma_glued_len(xs: Seq<Seq<WaypointV>>)
    requires
        forall|k: int| 1 <= k < xs.len() ==> (#[trigger] xs[k]).len() >= 1,
    ensures
        xs.len() == 0 ==> glued(xs).len() == 0,
        xs.len() >= 1 ==> glued(xs).len() == sum_lens(xs) - (xs.len() - 1),
    decreases xs.len(),
{
    if xs.len() == 1 {
        assert(sum_lens(xs) == sum_lens(xs.drop_last()) + xs.last().len());
        assert(xs.drop_last().len() == 0);
        assert(sum_lens(xs.drop_last()) == 0);
        assert(xs.last() == xs[0]);
    } else if xs.len() > 1 {
        lemma_glued_len(xs.drop_last());
        assert(forall|k: int|
            1 <= k < xs.len() - 1 ==> (#[trigger] xs.drop_last()[k]).len() >= 1);
        assert(xs.drop_last().len() >= 1);
        assert(xs[xs.len() - 1].len() >= 1);
        assert(glued(xs) == glued(xs.drop_last()) + xs.last().drop_first());
        assert(sum_lens(xs) == sum_lens(xs.drop_last()) + xs.last().len());
    }
}

/// The running shape of a pure-limit run: the fragments so far plus the
/// accumulator, chained at their boundaries, glue back to exactly the
/// points fed so far.
spec fn pure_inv(l: LimitV, st: SplitState, fed: Seq<WaypointV>) -> bool {
    let combined = frag_points(st.frags).push(st.acc);
    &&& st.limit == l
    &&& (fed.len() == 0 ==> st.acc == Seq::<WaypointV>::empty() && st.frags.len() == 0)
    &&& (fed.len() > 0 ==> st.acc.len() >= 1 && chain_ok(combined) && glued(combined) == fed)
}

/// One point keeps the shape.
proof fn lemma_pure_step(l: LimitV, st: SplitState, fed: Seq<WaypointV>, ti: int, p: WaypointV)
    requires
        pure_limit(l),
        pure_inv(l, st, fed),
    ensures
        pure_inv(l, feed_point(st, ti, p), fed.push(p)),
{
    let acc1 = st.acc.push(p);
    let ps = frag_points(st.frags);
    assert(crate::limit::points_after(l, acc1) == acc1);
    assert(crate::limit::limit_after(l, acc1) == l);
    let stn = feed_point(st, ti, p);
    if fed.len() == 0 {
        assert(ps =~= Seq::<Seq<WaypointV>>::empty());
        assert(acc1 =~= seq![p]);
        if limit_exceeds(l, acc1) {
            assert(frag_points(stn.frags) =~= ps.push(acc1));
            let combined = frag_points(stn.frags).push(stn.acc);
            assert(stn.acc =~= seq![p]);
            assert(combined =~= seq![acc1, seq![p]]);
            assert(combined.drop_last() =~= seq![acc1]);
            assert(glued(seq![acc1]) == acc1);
            assert(glued(combined) == glued(combined.drop_last()) + combined.last().drop_first());
            assert(glued(combined) =~= acc1 + seq![p].drop_first());
            assert(glued(combined) =~= seq![p]);
            assert(fed.push(p) =~= seq![p]);
        } else {
            let combined = ps.push(acc1);
            assert(glued(combined) == acc1);
            assert(fed.push(p) =~= seq![p]);
        }
    } else {
        lemma_glued_push_last(ps, st.acc, p);
        assert(glued(ps.push(acc1)) == fed.push(p));
        assert(chain_ok(ps.push(st.acc)));
        assert forall|k: int| 0 <= k < ps.push(acc1).len() implies (#[trigger] ps.push(acc1)[k]).len()
            >= 1 by {
            if k < ps.len() {
                assert(ps.push(st.acc)[k] == ps[k]);
            }
        }
        assert forall|k: int| 1 <= k < ps.push(acc1).len() implies (#[trigger] ps.push(acc1)[k])[0]
            == ps.push(acc1)[k - 1].last() by {
            if k < ps.len() {
                assert(ps.push(st.acc)[k] == ps[k]);
                assert(ps.push(st.acc)[k - 1] == ps[k - 1]);
            } else {
                assert(acc1[0] == st.acc[0]);
                if k - 1 < ps.len() {
                    assert(ps.push(st.acc)[k - 1] == ps[k - 1]);
                }
            }
        }
        assert(chain_ok(ps.push(acc1)));
        if limit_exceeds(l, acc1) {
            lemma_glued_reseed(ps, acc1);
            assert(frag_points(stn.frags) =~= ps.push(acc1));
            let combined = frag_points(stn.frags).push(stn.acc);
            assert(combined =~= ps.push(acc1).push(seq![acc1.last()]));
            assert(glued(combined) == fed.push(p));
            assert forall|k: int| 0 <= k < combined.len() implies (#[trigger] combined[k]).len()
                >= 1 by {
                if k < ps.len() + 1 {
                    assert(combined[k] == ps.push(acc1)[k]);
                }
            }
            assert forall|k: int| 1 <= k < combined.len() implies (#[trigger] combined[k])[0]
                == combined[k - 1].last() by {
                if k < ps.len() + 1 {
                    assert(combined[k] == ps.push(acc1)[k]);
                    assert(combined[k - 1] == ps.push(acc1)[k - 1]);
                } else {
                    assert(combined[k] == seq![acc1.last()]);
                    assert(combined[k - 1] == acc1);
                }
            }
        } else {
            assert(frag_points(stn.frags).push(stn.acc) =~= ps.push(acc1));
        }
    }
}

/// Feeding a run of points keeps the shape.
proof fn lemma_pure_feed_points(
    l: LimitV,
    st: SplitState,
    fed: Seq<WaypointV>,
    ti: int,
    pts: Seq<WaypointV>,
    n: int,
)
    requires
        pure_limit(l),
        pure_inv(l, st, fed),
        0 <= n <= pts.len(),
    ensures
        pure_inv(l, feed_points(st, ti, pts, n), fed + pts.take(n)),
    decreases n,
{
    if n == 0 {
        assert(fed + pts.take(0) =~= fed);
    } else {
        lemma_pure_feed_points(l, st, fed, ti, pts, n - 1);
        lemma_pure_step(l, feed_points(st, ti, pts, n - 1), fed + pts.take(n - 1), ti, pts[n - 1]);
        assert((fed + pts.take(n - 1)).push(pts[n - 1]) =~= fed + pts.take(n));
    }
}

/// Feeding whole traces keeps the shape, against the flattened input.
proof fn lemma_pure_feed_traces(l: LimitV, tv: Seq<Seq<WaypointV>>, n: int)
    requires
        pure_limit(l),
        0 <= n <= tv.len(),
    ensures
        pure_inv(l, feed_traces(initial_state(l), tv, n), tv.take(n).flatten()),
    decreases n,
{
    if n == 0 {
        assert(tv.take(0) =~= Seq::<Seq<WaypointV>>::empty());
        assert(tv.take(0).flatten() =~= Seq::<WaypointV>::empty());
        assert(frag_points(Seq::<(int, Seq<WaypointV>)>::empty()) =~= Seq::<Seq<WaypointV>>::empty());
    } else {
        lemma_pure_feed_traces(l, tv, n - 1);
        let prev = feed_traces(initial_state(l), tv, n - 1);
        lemma_pure_feed_points(l, prev, tv.take(n - 1).flatten(), n - 1, tv[n - 1], tv[n - 1].len() as int);
        assert(tv[n - 1].take(tv[n - 1].len() as int) =~= tv[n - 1]);
        tv.take(n - 1).lemma_flatten_push(tv[n - 1]);
        assert(tv.take(n) =~= tv.take(n - 1).push(tv[n - 1]));
    }
}

/// Count conservation: under a pure limit the emitted fragments carry
/// every point of the flattened input exactly once, except that each
/// fragment after the first repeats the boundary point the previous one
/// ends with.  Glued back together at those shared points the fragments
/// restore the flattened input exactly; in counts, the fragments hold one
/// extra point per shared boundary.
pub proof fn lemma_count_conservation(l: LimitV, traces: Seq<Seq<WaypointV>>)
    requires
        pure_limit(l),
    ensures
        ({
            let flat = traces.flatten();
            let ps = frag_points(split_frags(l, traces));
            &&& (ps.len() == 0 ==> flat.len() <= 1)
            &&& (ps.len() >= 1 ==> chain_ok(ps) && glued(ps) == flat && sum_lens(ps) == flat.len()
                + ps.len() - 1)
        }),
{
    lemma_pure_feed_traces(l, traces, traces.len() as int);
    let fin = feed_traces(initial_state(l), traces, traces.len() as int);
    assert(traces.take(traces.len() as int) =~= traces);
    let flat = traces.flatten();
    let ps0 = frag_points(fin.frags);
    let combined = ps0.push(fin.acc);
    if fin.acc.len() > 1 && traces.len() > 0 {
        assert(flat.len() > 0);
        let ps = frag_points(split_frags(l, traces));
        assert(ps =~= combined);
        lemma_glued_len(ps);
    } else {
        let ps = frag_points(split_frags(l, traces));
        assert(ps =~= ps0);
        if flat.len() == 0 {
            assert(fin.frags.len() == 0);
            assert(ps.len() == 0);
        } else {
            assert(fin.acc.len() == 1 || traces.len() == 0);
            assert(traces.len() > 0) by {
                if traces.len() == 0 {
                    assert(traces =~= Seq::<Seq<WaypointV>>::empty());
                    assert(flat.len() == 0);
                }
            }
            assert(fin.acc.len() == 1);
            if ps0.len() == 0 {
                assert(combined =~= seq![fin.acc]);
                assert(glued(combined) == fin.acc);
                assert(flat.len() == 1);
            } else {
                assert(combined.drop_last() =~= ps0);
                assert(glued(combined) == glued(ps0) + fin.acc.drop_first());
                assert(fin.acc.drop_first() =~= Seq::<WaypointV>::empty());
                assert(glued(ps0) =~= flat);
                assert forall|k: int| 0 <= k < ps0.len() implies (#[trigger] ps0[k]).len() >= 1 by {
                    assert(combined[k] == ps0[k]);
                }
                assert forall|k: int| 1 <= k < ps0.len() implies (#[trigger] ps0[k])[0] == ps0[k
                    - 1].last() by {
                    assert(combined[k] == ps0[k]);
                    assert(combined[k - 1] == ps0[k - 1]);
                }
                lemma_glued_len(ps0);
            }
        }
    }
}

/// After `n` points under a points limit of `m`, the fragment count and
/// the accumulator balance the points fed: every fragment took `m`
/// points and gave one back as the next fragment's seed.
proof fn lemma_points_feed(m: u32, pts: Seq<WaypointV>, n: int)
    requires
        m >= 2,
        1 <= n <= pts.len(),
    ensures
        ({
            let st = feed_points(initial_state(LimitV::Points(m)), 0, pts, n);
            &&& st.limit == LimitV::Points(m)
            &&& 1 <= st.acc.len() <= m - 1
            &&& st.acc.len() + (m - 1) * st.frags.len() == n
        }),
    decreases n,
{
    let l = LimitV::Points(m);
    if n == 1 {
        let st = feed_points(initial_state(l), 0, pts, 1);
        assert(st == feed_point(initial_state(l), 0, pts[0]));
        assert(!limit_exceeds(l, Seq::<WaypointV>::empty().push(pts[0])));
        assert(st.acc.len() == 1);
        assert((m - 1) * st.frags.len() == 0) by (nonlinear_arith)
            requires st.frags.len() == 0
        ;
    } else {
        lemma_points_feed(m, pts, n - 1);
        let st = feed_points(initial_state(l), 0, pts, n - 1);
        let stn = feed_points(initial_state(l), 0, pts, n);
        assert(stn == feed_point(st, 0, pts[n - 1]));
        let acc1 = st.acc.push(pts[n - 1]);
        let f = st.frags.len() as int;
        if st.acc.len() == m - 1 {
            assert(limit_exceeds(l, acc1));
            assert(crate::limit::points_after(l, acc1) == acc1);
            assert(stn.acc.len() == 1);
            assert(stn.frags.len() == f + 1);
            assert((m - 1) * (f + 1) == (m - 1) * f + (m - 1)) by (nonlinear_arith);
        } else {
            assert(!limit_exceeds(l, acc1));
            assert(stn.acc.len() == st.acc.len() + 1);
        }
    }
}

/// Points-limit boundary: a single trace of `N ≥ 2` points split with a
/// points limit of `M ≥ 2` yields exactly the ceiling of `(N−1)/(M−1)`
/// fragments — written below with integer division as `(N−2)/(M−1) + 1`
/// — since consecutive fragments share one boundary point each.
pub proof fn lemma_points_fragment_count(m: u32, pts: Seq<WaypointV>)
    requires
        m >= 2,
        pts.len() >= 2,
    ensures
        split_frags(LimitV::Points(m), seq![pts]).len() == (pts.len() - 2) / (m as int - 1) + 1,
{
    let l = LimitV::Points(m);
    let tv = seq![pts];
    let n = pts.len() as int;
    assert(feed_traces(initial_state(l), tv, 1) == feed_points(
        feed_traces(initial_state(l), tv, 0),
        0,
        tv[0],
        tv[0].len() as int,
    ));
    lemma_points_feed(m, pts, n);
    let fin = feed_traces(initial_state(l), tv, 1);
    let a = fin.acc.len() as int;
    let f = fin.frags.len() as int;
    let d = m as int - 1;
    assert(a + d * f == n);
    if a == 1 {
        assert(f >= 1) by (nonlinear_arith)
            requires 1 + d * f == n, n >= 2, d >= 1, f >= 0
        ;
        assert(n - 2 == (f - 1) * d + (d - 1)) by (nonlinear_arith)
            requires 1 + d * f == n
        ;
        vstd::arithmetic::div_mod::lemma_fundamental_div_mod_converse_div(n - 2, d, f - 1, d - 1);
        assert(split_frags(l, tv).len() == f);
    } else {
        assert(n - 2 == f * d + (a - 2)) by (nonlinear_arith)
            requires a + d * f == n
        ;
        vstd::arithmetic::div_mod::lemma_fundamental_div_mod_converse_div(n - 2, d, f, a - 2);
        assert(split_frags(l, tv).len() == f + 1);
    }
}

} // verus!
