//! Sector scan, signal model, target selection and the per-tick pass.
use vstd::prelude::*;
use crate::geometry::{
    clockwise, dist_sq, displacement, distance_squared, is_clockwise, Vec2, COORD_LIMIT,
};

verus! {

/// One full turn in the model's angle unit, the millidegree.
pub const FULL_TURN: u32 = 360000;

/// What a radar reports of its strongest target. Position and velocity
/// carry noise scaled by the inverse of the received intensity.
#[derive(Clone, Copy, Debug, PartialEq, Eq)]
pub struct ScanResult {
    pub class: Option<u32>,
    pub position: Vec2,
    pub velocity: Vec2,
}

/// A radar's configuration and its last result.
///
/// `heading` is relative to the agent's heading and `width` is the sector's
/// angular span, both in millidegrees; a width of `FULL_TURN` or more scans
/// the full circle, and a width of zero scans nothing. The received intensity
/// is `power * target_rcs * rx_cross_section / (width * distance²)` with the
/// width in millidegrees, rounded up (see `intensity`).
#[derive(Clone, Copy, Debug, PartialEq, Eq)]
pub struct Radar {
    pub heading: i32,
    pub width: u32,
    pub power: u32,
    pub rx_cross_section: u32,
    pub min_rssi: u64,
    pub classify_rssi: u64,
    pub result: Option<ScanResult>,
}

/// An agent as the radar pass sees it.
#[derive(Clone, Copy, Debug, PartialEq, Eq)]
pub struct Ship {
    pub position: Vec2,
    pub velocity: Vec2,
    /// Agent heading in millidegrees.
    pub heading: i32,
    pub team: i32,
    pub class: u32,
    pub radar_cross_section: u32,
    pub radar: Option<Radar>,
}

/// Directions of a sector's two edges in world coordinates, at the start
/// and at the end bearing of the window that `bearing_window` gives.
#[derive(Clone, Copy, Debug, PartialEq, Eq)]
pub struct BeamEdges {
    pub start: Vec2,
    pub end: Vec2,
}

/// One draw of standard normal samples, in world units per unit of
/// intensity: each is divided by the winning intensity before it is added.
/// A tick takes a sequence of draws from one stream seeded by the tick; the
/// radars that find a target use them in turn, in registry order.
#[derive(Clone, Copy, Debug, PartialEq, Eq)]
pub struct Noise {
    pub position: Vec2,
    pub velocity: Vec2,
}

/// A scanning agent's parameters for one tick.
#[derive(Clone, Copy, Debug, PartialEq, Eq)]
pub struct Emitter {
    pub center: Vec2,
    pub start_ray: Vec2,
    pub end_ray: Vec2,
    pub width: u32,
    pub power: u32,
    pub rx_cross_section: u32,
    pub min_rssi: u64,
    pub classify_rssi: u64,
    pub team: i32,
}

/// A potential target, copied from the tick-start state of an agent.
#[derive(Clone, Copy, Debug, PartialEq, Eq)]
pub struct Reflector {
    pub position: Vec2,
    pub velocity: Vec2,
    pub radar_cross_section: u32,
    pub team: i32,
    pub class: u32,
}

impl Emitter {
    pub open spec fn wf(self) -> bool {
        &&& self.center.bounded()
        &&& self.start_ray.bounded()
        &&& self.end_ray.bounded()
    }
}

impl Reflector {
    pub open spec fn wf(self) -> bool {
        self.position.bounded() && self.velocity.bounded()
    }
}

impl Ship {
    pub open spec fn wf(self) -> bool {
        self.position.bounded() && self.velocity.bounded()
    }
}

impl BeamEdges {
    pub open spec fn wf(self) -> bool {
        self.start.bounded() && self.end.bounded()
    }
}

impl Noise {
    pub open spec fn wf(self) -> bool {
        self.position.bounded() && self.velocity.bounded()
    }
}

pub open spec fn offset(from: Vec2, to: Vec2) -> Vec2 {
    Vec2 { x: (to.x - from.x) as i64, y: (to.y - from.y) as i64 }
}

/// The sector test: full circle from `FULL_TURN` on, empty at width zero;
/// otherwise the point lies
/// counter-clockwise of (or on) the start edge and strictly clockwise of the
/// end edge, read the long way round when the edges are more than half a
/// turn apart.
pub open spec fn inside_beam(e: Emitter, p: Vec2) -> bool {
    let dp = offset(e.center, p);
    if e.width >= FULL_TURN {
        true
    } else if e.width == 0 {
        false
    } else if clockwise(e.end_ray, e.start_ray) {
        !clockwise(e.start_ray, dp) && clockwise(e.end_ray, dp)
    } else {
        clockwise(e.end_ray, dp) || !clockwise(e.start_ray, dp)
    }
}

/// The width used as a divisor: a zero width counts as one millidegree (such
/// a sector holds no point, so this only keeps the quotient defined).
pub open spec fn spread(w: u32) -> int {
    if w == 0 { 1 } else { w as int }
}

/// The squared range used as a divisor: coincident points count as one unit apart.
pub open spec fn clamp_range_sq(d: int) -> int {
    if d <= 0 { 1 } else { d }
}

/// `a / b` rounded up, for `a >= 0` and `b >= 1`.
pub open spec fn ceil_div(a: int, b: int) -> int {
    (a + b - 1) / b
}

/// Numerator of the intensity: power times both cross sections.
pub open spec fn signal_num(e: Emitter, r: Reflector) -> int {
    e.power * r.radar_cross_section * e.rx_cross_section
}

/// Denominator of the intensity: width in millidegrees times squared range.
pub open spec fn signal_den(e: Emitter, r: Reflector) -> int {
    spread(e.width) * clamp_range_sq(dist_sq(e.center, r.position))
}

/// Received intensity from a reflector: `signal_num / signal_den` rounded
/// up, so a positive signal never reads as zero and, for an integer
/// threshold `m`, `intensity > m` holds exactly when the exact quotient
/// exceeds `m` (see `lemma_intensity_exceeds`).
///
/// Unit: with the width `w` in radians, the intensity of the physical model
/// is `P * σ * A / (2π * w * d²)`; taking the width in millidegrees and
/// dropping the 2π multiplies it by `(2π)² / 360000`.
pub open spec fn intensity(e: Emitter, r: Reflector) -> int {
    ceil_div(signal_num(e, r), signal_den(e, r))
}

/// A reflector that the emitter may report: another team, inside the sector.
pub open spec fn candidate(e: Emitter, r: Reflector) -> bool {
    e.team != r.team && inside_beam(e, r.position)
}

/// The strongest candidate among the first `n` reflectors whose intensity
/// strictly exceeds `min_rssi`, as its index and intensity; the first one
/// found wins a tie.
pub open spec fn best_among(e: Emitter, rs: Seq<Reflector>, n: int) -> Option<(int, int)>
    decreases n,
{
    if n <= 0 {
        None
    } else {
        let prev = best_among(e, rs, n - 1);
        let bar = match prev {
            Some(b) => b.1,
            None => e.min_rssi as int,
        };
        if candidate(e, rs[n - 1]) && intensity(e, rs[n - 1]) > bar {
            Some((n - 1, intensity(e, rs[n - 1])))
        } else {
            prev
        }
    }
}

pub open spec fn best_target(e: Emitter, rs: Seq<Reflector>) -> Option<(int, int)> {
    best_among(e, rs, rs.len() as int)
}

/// A noise sample divided by the intensity, its magnitude rounded up, so
/// that a nonzero sample never vanishes.
pub open spec fn scaled(s: i64, v: int) -> int {
    if s == 0 {
        0
    } else if s > 0 {
        ceil_div(s as int, v)
    } else {
        -ceil_div(-(s as int), v)
    }
}

/// A true value offset by a noise sample scaled by the intensity.
pub open spec fn perturb(p: Vec2, s: Vec2, v: int) -> Vec2 {
    Vec2 { x: (p.x + scaled(s.x, v)) as i64, y: (p.y + scaled(s.y, v)) as i64 }
}

/// What an emitter reports against a snapshot: nothing when no candidate
/// beats `min_rssi`; otherwise the winner's noisy position and velocity, and
/// its class when the intensity also strictly exceeds `classify_rssi`.
pub open spec fn scan_result(e: Emitter, rs: Seq<Reflector>, noise: Noise) -> Option<ScanResult> {
    match best_target(e, rs) {
        None => None,
        Some(b) => {
            let r = rs[b.0];
            Some(
                ScanResult {
                    class: if b.1 > e.classify_rssi {
                        Some(r.class)
                    } else {
                        None
                    },
                    position: perturb(r.position, noise.position, b.1),
                    velocity: perturb(r.velocity, noise.velocity, b.1),
                },
            )
        },
    }
}

/// The reflector that an agent presents to every radar during a tick.
pub open spec fn reflector_of(s: Ship) -> Reflector {
    Reflector {
        position: s.position,
        velocity: s.velocity,
        radar_cross_section: s.radar_cross_section,
        team: s.team,
        class: s.class,
    }
}

/// The tick-start snapshot of all agents, in registry order.
pub open spec fn snapshot(ships: Seq<Ship>) -> Seq<Reflector> {
    ships.map_values(|s: Ship| reflector_of(s))
}

/// The absolute sector centre of a radar on an agent, in millidegrees.
pub open spec fn bearing_center(ship_heading: i32, radar: Radar) -> int {
    ship_heading + radar.heading
}

/// The emitter of a radar on an agent, with the given sector edges.
pub open spec fn emitter_of(s: Ship, radar: Radar, edges: BeamEdges) -> Emitter {
    Emitter {
        center: s.position,
        start_ray: edges.start,
        end_ray: edges.end,
        width: radar.width,
        power: radar.power,
        rx_cross_section: radar.rx_cross_section,
        min_rssi: radar.min_rssi,
        classify_rssi: radar.classify_rssi,
        team: s.team,
    }
}

/// Whether agent `s` has a radar that finds a target in the snapshot.
pub open spec fn reports(s: Ship, edges: BeamEdges, snap: Seq<Reflector>) -> bool {
    match s.radar {
        None => false,
        Some(radar) => best_target(emitter_of(s, radar, edges), snap) is Some,
    }
}

/// How many of the first `i` agents report a target: the index of the noise
/// draw that agent `i` uses.
pub open spec fn draws_before(ships: Seq<Ship>, edges: Seq<BeamEdges>, snap: Seq<Reflector>, i: int) -> int
    decreases i,
{
    if i <= 0 {
        0
    } else {
        draws_before(ships, edges, snap, i - 1) + if reports(ships[i - 1], edges[i - 1], snap) {
            1int
        } else {
            0int
        }
    }
}

/// An agent after one radar pass: its radar, if any, holds the result of a
/// scan against the snapshot; nothing else changes.
pub open spec fn ticked(s: Ship, edges: BeamEdges, snap: Seq<Reflector>, noise: Noise) -> Ship {
    match s.radar {
        None => s,
        Some(radar) => Ship {
            radar: Some(
                Radar { result: scan_result(emitter_of(s, radar, edges), snap, noise), ..radar },
            ),
            ..s
        },
    }
}

/// Facts about the running best: it is a candidate above `min_rssi` that no
/// candidate beats, and no earlier candidate ties it.
pub proof fn lemma_best_among(e: Emitter, rs: Seq<Reflector>, n: int)
    requires
        0 <= n <= rs.len(),
    ensures
        best_among(e, rs, n) matches Some(b) ==> {
            &&& 0 <= b.0 < n
            &&& candidate(e, rs[b.0])
            &&& b.1 == intensity(e, rs[b.0])
            &&& b.1 > e.min_rssi
            &&& forall|k: int|
                0 <= k < n && candidate(e, #[trigger] rs[k]) ==> intensity(e, rs[k]) <= b.1
            &&& forall|k: int|
                0 <= k < b.0 && candidate(e, #[trigger] rs[k]) ==> intensity(e, rs[k]) < b.1
        },
        best_among(e, rs, n) is None ==> forall|k: int|
            0 <= k < n && candidate(e, #[trigger] rs[k]) ==> intensity(e, rs[k]) <= e.min_rssi,
    decreases n,
{
    if n > 0 {
        lemma_best_among(e, rs, n - 1);
    }
}

/// Whether `p` lies in the emitter's sector.
pub fn check_inside_beam(e: &Emitter, p: Vec2) -> (r: bool)
    requires
        e.wf(),
        p.bounded(),
    ensures
        r == inside_beam(*e, p),
{
    if e.width >= FULL_TURN {
        return true;
    }
    if e.width == 0 {
        return false;
    }
    let dp = displacement(e.center, p);
    if is_clockwise(e.end_ray, e.start_ray) {
        !is_clockwise(e.start_ray, dp) && is_clockwise(e.end_ray, dp)
    } else {
        is_clockwise(e.end_ray, dp) || !is_clockwise(e.start_ray, dp)
    }
}

/// Received intensity from a reflector.
pub fn compute_rssi(e: &Emitter, r: &Reflector) -> (v: u128)
    requires
        e.wf(),
        r.wf(),
    ensures
        v == intensity(*e, *r),
{
    let p = e.power as u128;
    let c = r.radar_cross_section as u128;
    let x = e.rx_cross_section as u128;
    proof {
        assert(p * c <= 0xffff_ffff_ffff_ffff) by (nonlinear_arith)
            requires p <= 0xffff_ffff, c <= 0xffff_ffff, p >= 0, c >= 0;
        assert(p * c * x <= 0xffff_ffff_ffff_ffff * 0xffff_ffff) by (nonlinear_arith)
            requires p * c <= 0xffff_ffff_ffff_ffff, x <= 0xffff_ffff, p * c >= 0, x >= 0;
    }
    let num = p * c * x;
    let w: u128 = if e.width == 0 { 1 } else { e.width as u128 };
    let d0 = distance_squared(e.center, r.position);
    let d: u128 = if d0 == 0 { 1 } else { d0 as u128 };
    proof {
        assert(w * d <= 0xffff_ffff * 0xffff_ffff_ffff_ffff) by (nonlinear_arith)
            requires w <= 0xffff_ffff, d <= 0xffff_ffff_ffff_ffff, w >= 1, d >= 1;
        assert(w * d >= 1) by (nonlinear_arith) requires w >= 1, d >= 1;
    }
    let den = w * d;
    (num + den - 1) / den
}

/// The strongest detectable target of `e` among `rs`, as its index and
/// intensity.
pub fn select_target(e: &Emitter, rs: &Vec<Reflector>) -> (best: Option<(usize, u128)>)
    requires
        e.wf(),
        forall|i: int| 0 <= i < rs.len() ==> (#[trigger] rs@[i]).wf(),
    ensures
        best matches Some(b) ==> best_target(*e, rs@) == Some((b.0 as int, b.1 as int)),
        best is None <==> best_target(*e, rs@) is None,
{
    let mut best: Option<(usize, u128)> = None;
    let mut bar: u128 = e.min_rssi as u128;
    let mut i: usize = 0;
    while i < rs.len()
        invariant
            0 <= i <= rs.len(),
            e.wf(),
            forall|k: int| 0 <= k < rs.len() ==> (#[trigger] rs@[k]).wf(),
            best matches Some(b) ==> best_among(*e, rs@, i as int) == Some(
                (b.0 as int, b.1 as int),
            ) && bar == b.1,
            best is None <==> best_among(*e, rs@, i as int) is None,
            best is None ==> bar == e.min_rssi,
        decreases rs.len() - i,
    {
        let r = &rs[i];
        if e.team != r.team && check_inside_beam(e, r.position) {
            let v = compute_rssi(e, r);
            if v > bar {
                best = Some((i, v));
                bar = v;
            }
        }
        i = i + 1;
    }
    best
}

/// A rounded-up quotient exceeds an integer `m` exactly when the exact
/// quotient does.
pub proof fn lemma_ceil_div_exceeds(a: int, b: int, m: int)
    requires
        a >= 0,
        b >= 1,
    ensures
        ceil_div(a, b) > m <==> a > m * b,
        ceil_div(a, b) >= 0,
{
    let x = a + b - 1;
    let q = x / b;
    let r = x % b;
    vstd::arithmetic::div_mod::lemma_fundamental_div_mod(x, b);
    vstd::arithmetic::div_mod::lemma_mod_bound(x, b);
    assert(q > m <==> a > m * b) by (nonlinear_arith)
        requires x == a + b - 1, x == b * q + r, 0 <= r < b, b >= 1;
    assert(q >= 0) by (nonlinear_arith)
        requires x == a + b - 1, x == b * q + r, 0 <= r < b, b >= 1, a >= 0;
}

/// Bounds on a rounded-up quotient: at least one, at most the dividend, and
/// exactly one when the divisor is at least the dividend.
proof fn lemma_ceil_div_bounds(m: int, v: int)
    requires
        m >= 1,
        v >= 1,
    ensures
        1 <= ceil_div(m, v) <= m,
        m <= v ==> ceil_div(m, v) == 1,
{
    lemma_ceil_div_exceeds(m, v, 1);
    lemma_ceil_div_exceeds(m, v, 0);
    assert(m * v >= m * 1) by (nonlinear_arith) requires m >= 1, v >= 1;
    lemma_ceil_div_exceeds(m, v, m);
}

/// A noise sample divided by the intensity, its magnitude rounded up.
pub fn scale_noise(s: i64, v: u128) -> (r: i64)
    requires
        -COORD_LIMIT <= s <= COORD_LIMIT,
        v >= 1,
    ensures
        r == scaled(s, v as int),
        s != 0 ==> r != 0,
        -COORD_LIMIT <= r <= COORD_LIMIT,
{
    if s == 0 {
        0
    } else if s > 0 {
        let m = s as u128;
        proof {
            lemma_ceil_div_bounds(m as int, v as int);
        }
        if v >= m {
            1
        } else {
            ((m + v - 1) / v) as i64
        }
    } else {
        let m = (-s) as u128;
        proof {
            lemma_ceil_div_bounds(m as int, v as int);
        }
        if v >= m {
            -1
        } else {
            -(((m + v - 1) / v) as i64)
        }
    }
}

/// The emitter's report against the reflectors: the strongest detectable
/// target, with noise scaled by the inverse of its intensity.
pub fn detect(e: &Emitter, rs: &Vec<Reflector>, noise: Noise) -> (r: Option<ScanResult>)
    requires
        e.wf(),
        noise.wf(),
        forall|i: int| 0 <= i < rs.len() ==> (#[trigger] rs@[i]).wf(),
    ensures
        r == scan_result(*e, rs@, noise),
{
    let best = select_target(e, rs);
    proof {
        lemma_best_among(*e, rs@, rs@.len() as int);
    }
    match best {
        None => None,
        Some((j, v)) => {
            let t = &rs[j];
            let px = scale_noise(noise.position.x, v);
            let py = scale_noise(noise.position.y, v);
            let vx = scale_noise(noise.velocity.x, v);
            let vy = scale_noise(noise.velocity.y, v);
            let class = if v > e.classify_rssi as u128 {
                Some(t.class)
            } else {
                None
            };
            Some(
                ScanResult {
                    class,
                    position: Vec2 { x: t.position.x + px, y: t.position.y + py },
                    velocity: Vec2 { x: t.velocity.x + vx, y: t.velocity.y + vy },
                },
            )
        },
    }
}

/// The absolute bearing window `[start, end]` of a radar on an agent, in
/// millidegrees: centred on the agent's heading plus the radar's, `width` wide.
pub fn bearing_window(ship_heading: i32, radar: &Radar) -> (r: (i64, i64))
    ensures
        r.0 == bearing_center(ship_heading, *radar) - radar.width / 2,
        r.1 == bearing_center(ship_heading, *radar) + (radar.width - radar.width / 2),
        r.1 - r.0 == radar.width,
{
    let c = ship_heading as i64 + radar.heading as i64;
    let half = (radar.width / 2) as i64;
    (c - half, c + (radar.width as i64 - half))
}

/// The emitter of a radar on an agent, with the given sector edges.
pub fn make_emitter(s: &Ship, radar: &Radar, edges: BeamEdges) -> (e: Emitter)
    ensures
        e == emitter_of(*s, *radar, edges),
{
    Emitter {
        center: s.position,
        start_ray: edges.start,
        end_ray: edges.end,
        width: radar.width,
        power: radar.power,
        rx_cross_section: radar.rx_cross_section,
        min_rssi: radar.min_rssi,
        classify_rssi: radar.classify_rssi,
        team: s.team,
    }
}

/// The tick-start snapshot of all agents.
pub fn build_snapshot(ships: &Vec<Ship>) -> (rs: Vec<Reflector>)
    ensures
        rs@ == snapshot(ships@),
{
    let mut rs: Vec<Reflector> = Vec::new();
    let mut i: usize = 0;
    while i < ships.len()
        invariant
            0 <= i <= ships.len(),
            rs@ == snapshot(ships@.subrange(0, i as int)),
        decreases ships.len() - i,
    {
        let s = &ships[i];
        rs.push(
            Reflector {
                position: s.position,
                velocity: s.velocity,
                radar_cross_section: s.radar_cross_section,
                team: s.team,
                class: s.class,
            },
        );
        i = i + 1;
        assert(ships@.subrange(0, i as int) == ships@.subrange(0, i - 1).push(ships@[i - 1]));
        assert(rs@ =~= snapshot(ships@.subrange(0, i as int)));
    }
    assert(ships@.subrange(0, i as int) == ships@);
    rs
}

/// One radar pass: every agent with a radar scans the same tick-start
/// snapshot, and its radar's result is overwritten with what it found.
/// `edges[i]` holds the sector edges of agent `i`'s radar; the radars that
/// find a target take the draws of `noise` in turn, in registry order.
pub fn tick(ships: &mut Vec<Ship>, edges: &Vec<BeamEdges>, noise: &Vec<Noise>)
    requires
        old(ships).len() == edges.len(),
        old(ships).len() <= noise.len(),
        forall|i: int| 0 <= i < noise.len() ==> (#[trigger] noise@[i]).wf(),
        forall|i: int| 0 <= i < old(ships).len() ==> (#[trigger] old(ships)@[i]).wf(),
        forall|i: int| 0 <= i < edges.len() ==> (#[trigger] edges@[i]).wf(),
    ensures
        final(ships).len() == old(ships).len(),
        forall|i: int|
            0 <= i < old(ships).len() ==> #[trigger] final(ships)@[i] == ticked(
                old(ships)@[i],
                edges@[i],
                snapshot(old(ships)@),
                noise@[draws_before(old(ships)@, edges@, snapshot(old(ships)@), i)],
            ),
{
    let reflectors = build_snapshot(ships);
    let ghost snap = snapshot(old(ships)@);
    let ghost olds = old(ships)@;
    let n = ships.len();
    let mut i: usize = 0;
    let mut used: usize = 0;
    while i < n
        invariant
            0 <= used <= i <= n,
            n == ships.len(),
            n == olds.len(),
            n == edges.len(),
            n <= noise.len(),
            olds == old(ships)@,
            used == draws_before(olds, edges@, snap, i as int),
            forall|k: int| 0 <= k < noise.len() ==> (#[trigger] noise@[k]).wf(),
            reflectors@ == snap,
            snap == snapshot(olds),
            forall|k: int| 0 <= k < n ==> (#[trigger] olds[k]).wf(),
            forall|k: int| 0 <= k < n ==> (#[trigger] edges@[k]).wf(),
            forall|k: int|
                0 <= k < i ==> #[trigger] ships@[k] == ticked(
                    olds[k],
                    edges@[k],
                    snap,
                    noise@[draws_before(olds, edges@, snap, k)],
                ),
            forall|k: int| i <= k < n ==> #[trigger] ships@[k] == olds[k],
        decreases n - i,
    {
        let s = ships[i];
        if let Some(radar) = s.radar {
            let e = make_emitter(&s, &radar, edges[i]);
            assert forall|k: int| 0 <= k < reflectors.len() implies (
            #[trigger] reflectors@[k]).wf() by {
                assert(reflectors@[k] == reflector_of(olds[k]));
            }
            let result = detect(&e, &reflectors, noise[used]);
            ships[i] = Ship { radar: Some(Radar { result, ..radar }), ..s };
            if result.is_some() {
                used = used + 1;
            }
        }
        i = i + 1;
    }
}

/// Cross-section of the nominal target for which the displayed range is drawn.
pub const NOMINAL_CROSS_SECTION: u128 = 5;

/// Number of arc segments in the drawn sector wedge.
pub const WEDGE_SEGMENTS: u32 = 20;

/// The squared range at which a nominal target's intensity falls to
/// `min_rssi` (a zero threshold counts as one).
pub open spec fn approx_range_sq(e: Emitter) -> int {
    (e.power * NOMINAL_CROSS_SECTION * e.rx_cross_section) / (spread(e.width) * (if e.min_rssi
        == 0 {
        1
    } else {
        e.min_rssi as int
    }))
}

/// Display range of the sector wedge: the integer square root of
/// `approx_range_sq`.
pub fn compute_approx_range(e: &Emitter) -> (r: u64)
    ensures
        r * r <= approx_range_sq(*e) < (r + 1) * (r + 1),
{
    let p = e.power as u128;
    let x = e.rx_cross_section as u128;
    proof {
        assert(p * 5 * x <= 5 * 0xffff_ffff * 0xffff_ffff) by (nonlinear_arith)
            requires 0 <= p <= 0xffff_ffff, 0 <= x <= 0xffff_ffff;
    }
    let num = p * NOMINAL_CROSS_SECTION * x;
    let w: u128 = if e.width == 0 { 1 } else { e.width as u128 };
    let m: u128 = if e.min_rssi == 0 { 1 } else { e.min_rssi as u128 };
    proof {
        assert(1 <= w * m <= 0xffff_ffff * 0xffff_ffff_ffff_ffff) by (nonlinear_arith)
            requires 1 <= w <= 0xffff_ffff, 1 <= m <= 0xffff_ffff_ffff_ffff;
    }
    let q = num / (w * m);
    proof {
        vstd::arithmetic::div_mod::lemma_div_is_ordered_by_denominator(num as int, 1, (w * m) as int);
    }
    let mut lo: u128 = 0;
    let mut hi: u128 = 0x8_0000_0000;
    assert(hi * hi == 0x40_0000_0000_0000_0000) by (nonlinear_arith) requires hi == 0x8_0000_0000;
    while hi - lo > 1
        invariant
            lo < hi <= 0x8_0000_0000,
            lo * lo <= q < hi * hi,
            q == approx_range_sq(*e),
        decreases hi - lo,
    {
        let mid = lo + (hi - lo) / 2;
        assert(mid * mid <= 0x40_0000_0000_0000_0000) by (nonlinear_arith)
            requires mid <= 0x8_0000_0000;
        if mid * mid <= q {
            lo = mid;
        } else {
            hi = mid;
        }
    }
    assert(hi == lo + 1);
    lo as u64
}

/// Bearings of the `n + 1` points of the wedge's arc, evenly spread from
/// `start` over `width` millidegrees.
pub fn arc_bearings(start: i64, width: u32, n: u32) -> (r: Vec<i64>)
    requires
        n >= 1,
        -0x4000_0000_0000_0000 <= start <= 0x4000_0000_0000_0000,
    ensures
        r.len() == n + 1,
        forall|i: int| 0 <= i <= n ==> #[trigger] r@[i] == start + (width * i) / (n as int),
{
    let mut r: Vec<i64> = Vec::new();
    let mut i: u64 = 0;
    while i <= n as u64
        invariant
            0 <= i <= n + 1,
            n >= 1,
            -0x4000_0000_0000_0000 <= start <= 0x4000_0000_0000_0000,
            r.len() == i,
            forall|k: int| 0 <= k < i ==> #[trigger] r@[k] == start + (width * k) / (n as int),
        decreases n + 1 - i,
    {
        proof {
            assert(width * i <= width * n) by (nonlinear_arith) requires i <= n, width >= 0;
            assert(width * n <= 0xffff_ffff * 0xffff_ffff) by (nonlinear_arith)
                requires n <= 0xffff_ffff, 0 <= width <= 0xffff_ffff;
        }
        let prod = (width as u64) * i;
        proof {
            vstd::arithmetic::div_mod::lemma_div_is_ordered(prod as int, (width * n) as int, n as int);
            assert((width * n) / (n as int) == width) by (nonlinear_arith) requires n >= 1;
        }
        let step = (prod / (n as u64)) as i64;
        r.push(start + step);
        i = i + 1;
    }
    r
}

/// The last result of agent `handle`'s radar; `None` when it has no radar
/// or found nothing.
pub fn scan(ships: &Vec<Ship>, handle: usize) -> (r: Option<ScanResult>)
    requires
        handle < ships.len(),
    ensures
        r == match ships@[handle as int].radar {
            Some(radar) => radar.result,
            None => None,
        },
{
    match ships[handle].radar {
        Some(radar) => radar.result,
        None => None,
    }
}

} // verus!
