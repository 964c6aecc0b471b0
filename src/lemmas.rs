//! Properties of the scan, stated over the spec functions of `radar`.
use vstd::prelude::*;
use crate::geometry::{cross, dist_sq, Vec2};
use crate::radar::{
    best_target, candidate, clamp_range_sq, inside_beam, intensity, lemma_best_among,
    lemma_ceil_div_exceeds, offset, scan_result, signal_den, signal_num, spread, Emitter, Noise,
    Reflector, FULL_TURN,
};

verus! {

/// With a full-circle sector, any opposing reflector whose intensity beats
/// `min_rssi` leads to a detection, whatever its bearing; the target found
/// is at least as strong.
pub proof fn lemma_full_circle_detects(e: Emitter, rs: Seq<Reflector>, k: int)
    requires
        e.width >= FULL_TURN,
        0 <= k < rs.len(),
        rs[k].team != e.team,
        intensity(e, rs[k]) > e.min_rssi,
    ensures
        best_target(e, rs) matches Some(b) && b.1 >= intensity(e, rs[k]),
{
    lemma_best_among(e, rs, rs.len() as int);
    assert(candidate(e, rs[k]));
}

/// The start edge of a sector narrower than a full turn belongs to it; the
/// end edge does not, unless the two edges are collinear.
pub proof fn lemma_sector_edges(e: Emitter, on_start: Vec2, on_end: Vec2, k: int)
    requires
        0 < e.width < FULL_TURN,
        e.wf(),
        on_start.bounded(),
        on_end.bounded(),
        k >= 1,
        on_start.x == e.center.x + k * e.start_ray.x,
        on_start.y == e.center.y + k * e.start_ray.y,
        on_end.x == e.center.x + k * e.end_ray.x,
        on_end.y == e.center.y + k * e.end_ray.y,
    ensures
        inside_beam(e, on_start),
        cross(e.start_ray, e.end_ray) != 0 ==> !inside_beam(e, on_end),
{
    let s = e.start_ray;
    let t = e.end_ray;
    let ds = offset(e.center, on_start);
    let dt = offset(e.center, on_end);
    assert(ds.x == k * s.x && ds.y == k * s.y);
    assert(dt.x == k * t.x && dt.y == k * t.y);
    assert(cross(s, ds) == 0) by (nonlinear_arith)
        requires ds.x == k * s.x, ds.y == k * s.y;
    assert(cross(t, dt) == 0) by (nonlinear_arith)
        requires dt.x == k * t.x, dt.y == k * t.y;
    assert(cross(t, ds) == k * cross(t, s)) by (nonlinear_arith)
        requires ds.x == k * s.x, ds.y == k * s.y;
    assert(cross(s, dt) == k * cross(s, t)) by (nonlinear_arith)
        requires dt.x == k * t.x, dt.y == k * t.y;
    assert(cross(t, s) == -cross(s, t));
    if cross(t, s) < 0 {
        assert(k * cross(t, s) < 0) by (nonlinear_arith) requires k >= 1, cross(t, s) < 0;
    }
    if cross(s, t) < 0 {
        assert(k * cross(s, t) < 0) by (nonlinear_arith) requires k >= 1, cross(s, t) < 0;
    }
    if cross(s, t) > 0 {
        assert(k * cross(s, t) > 0) by (nonlinear_arith) requires k >= 1, cross(s, t) > 0;
    }
}

/// A teammate is never the target, and an emitter surrounded by teammates
/// reports nothing, whatever the geometry and the signal.
pub proof fn lemma_teammates_never_detected(e: Emitter, rs: Seq<Reflector>, noise: Noise)
    ensures
        best_target(e, rs) matches Some(b) ==> rs[b.0].team != e.team,
        (forall|k: int| 0 <= k < rs.len() ==> (#[trigger] rs[k]).team == e.team) ==> scan_result(
            e,
            rs,
            noise,
        ) is None,
{
    lemma_best_among(e, rs, rs.len() as int);
    if forall|k: int| 0 <= k < rs.len() ==> (#[trigger] rs[k]).team == e.team {
        if let Some(b) = best_target(e, rs) {
            assert(rs[b.0].team == e.team);
        }
    }
}

/// Moving a reflector farther away never raises its intensity, so once a
/// lone reflector drops below `min_rssi` it stays undetected farther out.
pub proof fn lemma_detection_monotone_in_distance(e: Emitter, near: Reflector, far: Reflector)
    requires
        near.radar_cross_section == far.radar_cross_section,
        dist_sq(e.center, near.position) <= dist_sq(e.center, far.position),
        candidate(e, near),
    ensures
        intensity(e, near) >= intensity(e, far),
        best_target(e, seq![far]) is Some ==> best_target(e, seq![near]) is Some,
        best_target(e, seq![near]) is None ==> best_target(e, seq![far]) is None,
{
    let num = signal_num(e, near);
    assert(num == signal_num(e, far));
    assert(num >= 0) by (nonlinear_arith)
        requires
            num == e.power * near.radar_cross_section * e.rx_cross_section,
            e.power >= 0,
            near.radar_cross_section >= 0,
            e.rx_cross_section >= 0,
    ;
    let w = spread(e.width);
    let dn = clamp_range_sq(dist_sq(e.center, near.position));
    let df = clamp_range_sq(dist_sq(e.center, far.position));
    assert(dn <= df);
    assert(1 <= w * dn <= w * df) by (nonlinear_arith) requires 1 <= w, 1 <= dn <= df;
    let c2 = intensity(e, far);
    lemma_ceil_div_exceeds(num, w * df, c2 - 1);
    lemma_ceil_div_exceeds(num, w * dn, c2 - 1);
    if c2 >= 1 {
        assert((c2 - 1) * (w * dn) <= (c2 - 1) * (w * df)) by (nonlinear_arith)
            requires c2 >= 1, w * dn <= w * df;
    } else {
        lemma_ceil_div_exceeds(num, w * dn, 0);
    }
    lemma_best_among(e, seq![near], 1);
    lemma_best_among(e, seq![far], 1);
    assert(seq![near][0] == near);
    assert(seq![far][0] == far);
}

/// Moving reflectors farther from the emitter, without bringing any into
/// the sector or changing its cross section, never turns an empty scan
/// into a detection: for any snapshot, detection can only stop as
/// distances grow.
pub proof fn lemma_farther_snapshot_stays_undetected(
    e: Emitter,
    rs: Seq<Reflector>,
    moved: Seq<Reflector>,
    noise: Noise,
)
    requires
        moved.len() == rs.len(),
        forall|k: int|
            0 <= k < rs.len() ==> (#[trigger] moved[k]).radar_cross_section
                == rs[k].radar_cross_section && dist_sq(e.center, rs[k].position) <= dist_sq(
                e.center,
                moved[k].position,
            ) && (candidate(e, moved[k]) ==> candidate(e, rs[k])),
        scan_result(e, rs, noise) is None,
    ensures
        scan_result(e, moved, noise) is None,
{
    lemma_best_among(e, rs, rs.len() as int);
    lemma_best_among(e, moved, moved.len() as int);
    if let Some(b) = best_target(e, moved) {
        let k = b.0;
        assert(candidate(e, moved[k]));
        assert(candidate(e, rs[k]));
        lemma_detection_monotone_in_distance(e, rs[k], moved[k]);
        assert(intensity(e, rs[k]) <= e.min_rssi);
    }
}

/// A scan reports a target exactly when some opposing reflector in the
/// sector beats `min_rssi`; the target's class is revealed exactly when the
/// winning intensity also strictly exceeds `classify_rssi`.
pub proof fn lemma_classification_gate(e: Emitter, rs: Seq<Reflector>, noise: Noise)
    ensures
        scan_result(e, rs, noise) is Some <==> exists|k: int|
            0 <= k < rs.len() && candidate(e, #[trigger] rs[k]) && intensity(e, rs[k])
                > e.min_rssi,
        scan_result(e, rs, noise) matches Some(s) ==> {
            &&& best_target(e, rs) matches Some(b)
            &&& (s.class is Some <==> b.1 > e.classify_rssi)
            &&& (s.class is Some ==> s.class == Some(rs[b.0].class))
        },
{
    lemma_best_among(e, rs, rs.len() as int);
    if let Some(b) = best_target(e, rs) {
        assert(candidate(e, rs[b.0]) && intensity(e, rs[b.0]) > e.min_rssi);
    }
}

/// The threshold tests follow the exact quotient: the intensity exceeds an
/// integer threshold exactly when `signal_num / signal_den` does, and a
/// positive signal never reads as zero.
pub proof fn lemma_intensity_exceeds(e: Emitter, r: Reflector, m: int)
    ensures
        intensity(e, r) > m <==> signal_num(e, r) > m * signal_den(e, r),
        signal_num(e, r) > 0 ==> intensity(e, r) > 0,
{
    let n = signal_num(e, r);
    assert(n >= 0) by (nonlinear_arith)
        requires
            n == e.power * r.radar_cross_section * e.rx_cross_section,
            e.power >= 0,
            r.radar_cross_section >= 0,
            e.rx_cross_section >= 0,
    ;
    let w = spread(e.width);
    let d = clamp_range_sq(dist_sq(e.center, r.position));
    assert(w * d >= 1) by (nonlinear_arith) requires w >= 1, d >= 1;
    lemma_ceil_div_exceeds(n, signal_den(e, r), m);
    lemma_ceil_div_exceeds(n, signal_den(e, r), 0);
}

/// A sector of width zero holds no point.
pub proof fn lemma_zero_width_is_empty(e: Emitter, p: Vec2)
    requires
        e.width == 0,
    ensures
        !inside_beam(e, p),
{
}

/// A point strictly counter-clockwise of the start edge and strictly
/// clockwise of the end edge lies in the sector; when the edges are more
/// than half a turn apart, being on the inner side of either edge suffices.
pub proof fn lemma_between_edges_inside(e: Emitter, p: Vec2)
    requires
        0 < e.width,
    ensures
        ({
            let dp = offset(e.center, p);
            let s = e.start_ray;
            let t = e.end_ray;
            &&& cross(s, t) > 0 && cross(s, dp) > 0 && cross(t, dp) < 0 ==> inside_beam(e, p)
            &&& cross(s, t) < 0 && (cross(s, dp) > 0 || cross(t, dp) < 0) ==> inside_beam(e, p)
        }),
{
    assert(cross(e.end_ray, e.start_ray) == -cross(e.start_ray, e.end_ray));
}

/// The emitter with its two edges swapped, which covers the rest of the turn.
pub open spec fn swapped(e: Emitter) -> Emitter {
    Emitter { start_ray: e.end_ray, end_ray: e.start_ray, ..e }
}

/// Swapping the two edges of a sector narrower than a full turn gives the
/// complementary sector when the edges are not collinear: every point lies
/// in exactly one of the two.
pub proof fn lemma_swapped_edges_complement(e: Emitter, p: Vec2)
    requires
        0 < e.width < FULL_TURN,
        cross(e.start_ray, e.end_ray) != 0,
    ensures
        inside_beam(swapped(e), p) == !inside_beam(e, p),
{
    assert(cross(e.end_ray, e.start_ray) == -cross(e.start_ray, e.end_ray));
}

} // verus!
