//! The collision-resolving mover. A tick's desired motion is resolved
//! one sweep at a time: the caller queries its geometry service for the
//! nearest blocking surface along the remaining travel and hands the
//! answer back; the mover advances the body up to the surface (keeping
//! a small skin-width clearance), projects the blocked leftover motion
//! onto the struck plane, and either finishes the tick or asks for the
//! next sweep, up to a fixed bounce budget.
//!
//! Every step is specified exactly by [`step_model`]; the executable
//! code proves it computes precisely that function.

use vstd::prelude::*;
use crate::vecfix::{
    dot, div_trunc, mul_div, norm, Vec3Fix, Vec3Model, dot3, div_tz, mul_div_tz,
    lemma_component_le_norm, lemma_div_tz_bound, lemma_dot3_bound, lemma_mul_div_tz_bound,
    lemma_mul_div_tz_exact, lemma_mul_div_tz_le, lemma_mul_div_tz_num_bound, lemma_norm_le,
    lemma_norm_sq_nonneg, lemma_sqrt_floor_pos, norm_sq, v_add, v_bounded, v_norm, v_scale_div,
    v_sub, v_zero, MICRO,
};

verus! {

/// Clearance kept between the body and any surface it stops against:
/// 0.005 world units.
pub const SKIN_WIDTH: i64 = 5_000;

/// How many sweeps one tick may resolve before the mover gives up and
/// keeps whatever partial translation has accumulated.
pub const MAX_BOUNCES: u32 = 5;

/// Push applied along a surface normal when the body is wedged between
/// two nearly parallel planes: 0.01 world units.
pub const NUDGE: i64 = 10_000;

/// Two unit normals (scaled by `MICRO`) count as nearly parallel when
/// their dot product exceeds 0.99, i.e. this value at micro-unit scale.
pub const PARALLEL_THRESHOLD: i64 = 990_000_000_000;

/// Largest velocity component accepted, in micro-units per second.
pub const VEL_LIMIT: i64 = 0x2_0000_0000;

/// Longest tick accepted, in microseconds (about 2.1 s).
pub const TICK_LIMIT: u64 = 0x20_0000;

/// Largest position component accepted at the start of a tick.
pub const POS_LIMIT: i64 = 0x8000_0000_0000;

/// Largest remaining distance a move can carry.
pub const REM_LIMIT: i64 = 0x10_0000_0000;

pub open spec fn pow4(k: int) -> int
    decreases k,
{
    if k <= 0 {
        1
    } else {
        4 * pow4(k - 1)
    }
}

/// Bound on a travel component after `k` bounces: projecting can grow a
/// component at most fourfold, and the crease nudges add a bounded push.
pub open spec fn travel_bound(k: int) -> int {
    0x10_0000_0000 * pow4(k) - 17000
}

/// Bound on a position component after `k` bounces.
pub open spec fn pos_bound(k: int) -> int {
    POS_LIMIT + k * 0x1000_0000_0000
}

/// The nearest blocking surface found by one sweep: the surface's
/// outward unit normal (scaled by `MICRO`), the world-space contact
/// point, and the distance along the sweep at which contact occurs.
#[derive(Clone, Copy, PartialEq, Eq, Structural, Debug)]
pub struct SweepHit {
    pub normal: Vec3Fix,
    pub point: Vec3Fix,
    pub time_of_impact: i64,
}

/// The mathematical value of a sweep hit.
pub struct HitModel {
    pub normal: Vec3Model,
    pub point: Vec3Model,
    pub time_of_impact: int,
}

impl View for SweepHit {
    type V = HitModel;

    open spec fn view(&self) -> HitModel {
        HitModel {
            normal: self.normal@,
            point: self.point@,
            time_of_impact: self.time_of_impact as int,
        }
    }
}

/// What one sweep query must ask the geometry service: sweep the body's
/// collider from `origin` along the direction of `travel` for at most
/// `max_distance`, excluding the body itself.
#[derive(Clone, Copy, PartialEq, Eq, Structural, Debug)]
pub struct SweepRequest {
    pub origin: Vec3Fix,
    pub travel: Vec3Fix,
    pub max_distance: i64,
}

/// A move in progress: where the body stands, the remaining travel
/// vector (whose direction is the next sweep direction), the remaining
/// distance, the tick's original travel (to detect backtracking), the
/// normals struck so far, and how many sweeps have been resolved.
pub struct MoveState {
    pub position: Vec3Fix,
    pub travel: Vec3Fix,
    pub start_travel: Vec3Fix,
    pub remaining: i64,
    pub planes: Vec<Vec3Fix>,
    pub bounces: u32,
}

/// The mathematical value of a move in progress.
pub struct MoveModel {
    pub position: Vec3Model,
    pub travel: Vec3Model,
    pub start_travel: Vec3Model,
    pub remaining: int,
    pub planes: Seq<Vec3Model>,
    pub bounces: int,
}

impl View for MoveState {
    type V = MoveModel;

    open spec fn view(&self) -> MoveModel {
        MoveModel {
            position: self.position@,
            travel: self.travel@,
            start_travel: self.start_travel@,
            remaining: self.remaining as int,
            planes: self.planes@.map_values(|p: Vec3Fix| p@),
            bounces: self.bounces as int,
        }
    }
}

/// What one resolved sweep leaves behind: either the tick's final
/// position, or a new in-progress state whose next sweep the caller
/// must run.
pub enum MoveProgress {
    Finished { position: Vec3Fix },
    Continuing { state: MoveState },
}

pub enum StepModel {
    Finished { position: Vec3Model },
    Continuing { state: MoveModel },
}

impl View for MoveProgress {
    type V = StepModel;

    open spec fn view(&self) -> StepModel {
        match self {
            MoveProgress::Finished { position } => StepModel::Finished { position: position@ },
            MoveProgress::Continuing { state } => StepModel::Continuing { state: state@ },
        }
    }
}

/// The position a step leaves the body at, whether or not the move goes
/// on.
pub open spec fn progress_position(s: StepModel) -> Vec3Model {
    match s {
        StepModel::Finished { position } => position,
        StepModel::Continuing { state } => state.position,
    }
}

/// Well-formedness of a move in progress. All bounds are what keeps the
/// fixed-point arithmetic exact in 64-bit components.
pub open spec fn model_wf(m: MoveModel) -> bool {
    &&& 0 <= m.bounces < MAX_BOUNCES as int
    &&& m.planes.len() == m.bounces
    &&& forall|i: int| 0 <= i < m.planes.len() ==> v_bounded(#[trigger] m.planes[i], MICRO as int)
    &&& 1 <= m.remaining <= REM_LIMIT as int
    &&& m.remaining <= v_norm(m.travel)
    &&& v_bounded(m.travel, travel_bound(m.bounces))
    &&& v_bounded(m.start_travel, travel_bound(0))
    &&& v_bounded(m.position, pos_bound(m.bounces))
}

impl MoveState {
    pub open spec fn wf(self) -> bool {
        model_wf(self@)
    }

    /// The sweep the caller must run next: from the current position,
    /// along the travel vector's direction, out to the remaining
    /// distance plus the skin width. The margin keeps the sweep from
    /// reporting an immediate self-touch right after a contact.
    pub fn request(&self) -> (r: SweepRequest)
        requires
            self.wf(),
        ensures
            r.origin == self.position,
            r.travel == self.travel,
            r.max_distance as int == self@.remaining + SKIN_WIDTH as int,
    {
        SweepRequest {
            origin: self.position,
            travel: self.travel,
            max_distance: self.remaining + SKIN_WIDTH,
        }
    }
}

/// A hit the geometry service may legitimately answer with: a contact
/// no farther than asked for, with a normal no longer than one unit.
pub open spec fn hit_valid(m: MoveModel, h: HitModel) -> bool {
    &&& 0 <= h.time_of_impact <= m.remaining + SKIN_WIDTH as int
    &&& v_bounded(h.normal, MICRO as int)
}

/// The distance the body advances when a sweep stops at `toi`: up to
/// the contact, less the skin width, never negative.
pub open spec fn advance_of(toi: int) -> int {
    if toi - SKIN_WIDTH as int >= 0 {
        toi - SKIN_WIDTH as int
    } else {
        0
    }
}

/// The blocked leftover motion `ev` projected onto the plane with unit
/// normal `n` (normal scaled by `MICRO`, so the correction divides by
/// `MICRO * MICRO`).
pub open spec fn projected_off(ev: Vec3Model, n: Vec3Model) -> Vec3Model {
    let d = dot3(ev, n);
    Vec3Model {
        x: ev.x - div_tz(d * n.x, 1_000_000_000_000),
        y: ev.y - div_tz(d * n.y, 1_000_000_000_000),
        z: ev.z - div_tz(d * n.z, 1_000_000_000_000),
    }
}

/// The anti-jitter correction: for every previously struck plane whose
/// normal is nearly parallel to the new one, push the projected motion
/// a little along the new normal, in the order the planes were struck.
pub open spec fn nudged(p: Vec3Model, n: Vec3Model, planes: Seq<Vec3Model>) -> Vec3Model
    decreases planes.len(),
{
    if planes.len() == 0 {
        p
    } else {
        let q = if dot3(n, planes[0]) > PARALLEL_THRESHOLD as int {
            v_add(p, v_scale_div(n, NUDGE as int, MICRO as int))
        } else {
            p
        };
        nudged(q, n, planes.drop_first())
    }
}

/// Starting a tick's move: the travel vector is the desired velocity
/// times the tick length. A zero travel (zero or vanishing velocity)
/// means no move at all this tick.
pub open spec fn begin_model(position: Vec3Model, velocity: Vec3Model, tick_micros: int)
    -> Option<MoveModel> {
    let w = v_scale_div(velocity, tick_micros, MICRO as int);
    if w == v_zero() {
        None
    } else {
        Some(MoveModel {
            position,
            travel: w,
            start_travel: w,
            remaining: v_norm(w),
            planes: Seq::<Vec3Model>::empty(),
            bounces: 0,
        })
    }
}

/// One resolved sweep, exactly. Every translation scales the travel
/// vector by a distance over the travel's own length, so the travel
/// only sets the direction and the body never covers more ground than
/// the distance the sweep checked. With no hit the body covers the
/// whole remaining distance. With a hit at or past the remaining distance it
/// advances up to the contact less the skin width and is done. With a
/// blocking hit it advances to the contact, projects the blocked
/// leftover onto the struck plane, stops if the slide would backtrack
/// against the tick's original direction, applies the anti-jitter
/// nudges, and continues with the projected travel — whose remaining
/// distance is capped at the blocked leftover, so a tick never travels
/// farther than it asked to (exact projection cannot lengthen motion;
/// the cap keeps that true of the rounded fixed-point projection and of
/// the nudges as well).
pub open spec fn step_model(m: MoveModel, hit: Option<HitModel>) -> StepModel {
    let nrm = v_norm(m.travel);
    match hit {
        None => StepModel::Finished {
            position: v_add(m.position, v_scale_div(m.travel, m.remaining, nrm)),
        },
        Some(h) => {
            let a = advance_of(h.time_of_impact);
            if h.time_of_impact >= m.remaining {
                StepModel::Finished {
                    position: v_add(m.position, v_scale_div(m.travel, a, nrm)),
                }
            } else {
                // a blocking contact advances the body only when the
                // advance is at least a whole skin width; a shallower
                // contact redirects the motion without moving the body
                let moved = if a >= SKIN_WIDTH as int {
                    v_add(m.position, v_scale_div(m.travel, a, nrm))
                } else {
                    m.position
                };
                let extra = m.remaining - a;
                let ev = v_scale_div(m.travel, extra, nrm);
                let p0 = projected_off(ev, h.normal);
                if dot3(p0, m.start_travel) <= 0 {
                    StepModel::Finished { position: moved }
                } else {
                    let p1 = nudged(p0, h.normal, m.planes);
                    if p1 == v_zero() || m.bounces + 1 >= MAX_BOUNCES as int {
                        StepModel::Finished { position: moved }
                    } else {
                        StepModel::Continuing {
                            state: MoveModel {
                                position: moved,
                                travel: p1,
                                start_travel: m.start_travel,
                                remaining: if v_norm(p1) <= extra {
                                    v_norm(p1)
                                } else {
                                    extra
                                },
                                planes: m.planes.push(h.normal),
                                bounces: m.bounces + 1,
                            },
                        }
                    }
                }
            }
        },
    }
}

pub proof fn lemma_pow4_vals()
    ensures
        pow4(0) == 1,
        pow4(1) == 4,
        pow4(2) == 16,
        pow4(3) == 64,
        pow4(4) == 256,
        pow4(5) == 1024,
{
    assert(pow4(0) == 1);
    assert(pow4(1) == 4);
    assert(pow4(2) == 16);
    assert(pow4(3) == 64);
    assert(pow4(4) == 256);
    assert(pow4(5) == 1024);
}

/// One fold step of `nudged`, peeled from the back of the plane list.
pub proof fn lemma_nudged_push(p: Vec3Model, n: Vec3Model, s: Seq<Vec3Model>, q: Vec3Model)
    ensures
        nudged(p, n, s.push(q)) == (if dot3(n, q) > PARALLEL_THRESHOLD as int {
            v_add(nudged(p, n, s), v_scale_div(n, NUDGE as int, MICRO as int))
        } else {
            nudged(p, n, s)
        }),
    decreases s.len(),
{
    let nv = v_scale_div(n, NUDGE as int, MICRO as int);
    if s.len() == 0 {
        assert(s.push(q)[0] == q);
        assert(s.push(q).drop_first() =~= Seq::<Vec3Model>::empty());
        let step = if dot3(n, q) > PARALLEL_THRESHOLD as int {
            v_add(p, nv)
        } else {
            p
        };
        assert(nudged(p, n, s.push(q)) == nudged(step, n, s.push(q).drop_first()));
        assert(nudged(step, n, Seq::<Vec3Model>::empty()) == step);
        assert(nudged(p, n, s) == p);
    } else {
        assert(s.push(q)[0] == s[0]);
        assert(s.push(q).drop_first() =~= s.drop_first().push(q));
        let step = if dot3(n, s[0]) > PARALLEL_THRESHOLD as int {
            v_add(p, nv)
        } else {
            p
        };
        assert(nudged(p, n, s.push(q)) == nudged(step, n, s.drop_first().push(q)));
        lemma_nudged_push(step, n, s.drop_first(), q);
        assert(nudged(p, n, s) == nudged(step, n, s.drop_first()));
    }
}

/// Begin a tick's move for one controllable body. Returns `None`, and
/// the body holds still, exactly when the scaled travel vector is zero
/// — in particular whenever the desired velocity is zero.
pub fn begin_move(position: Vec3Fix, velocity: Vec3Fix, tick_micros: u64)
    -> (r: Option<MoveState>)
    requires
        v_bounded(position@, POS_LIMIT as int),
        v_bounded(velocity@, VEL_LIMIT as int),
        1 <= tick_micros <= TICK_LIMIT,
    ensures
        match r {
            Some(state) => {
                &&& begin_model(position@, velocity@, tick_micros as int)
                    == Some(state@)
                &&& state.wf()
            },
            None => begin_model(position@, velocity@, tick_micros as int) is None,
        },
{
    proof {
        lemma_mul_div_tz_bound(
            velocity@.x, tick_micros as int, MICRO as int, VEL_LIMIT as int, TICK_LIMIT as int);
        lemma_mul_div_tz_bound(
            velocity@.y, tick_micros as int, MICRO as int, VEL_LIMIT as int, TICK_LIMIT as int);
        lemma_mul_div_tz_bound(
            velocity@.z, tick_micros as int, MICRO as int, VEL_LIMIT as int, TICK_LIMIT as int);
    }
    let w = Vec3Fix {
        x: mul_div(velocity.x, tick_micros as i64, MICRO),
        y: mul_div(velocity.y, tick_micros as i64, MICRO),
        z: mul_div(velocity.z, tick_micros as i64, MICRO),
    };
    if w.is_zero() {
        None
    } else {
        proof {
            lemma_norm_sq_nonneg(w@);
            lemma_sqrt_floor_pos(norm_sq(w@));
            lemma_norm_le(w@, 0x4_0000_0000_0000);
            lemma_norm_le(w@, 18014398509);
            lemma_pow4_vals();
        }
        let remaining = norm(&w);
        let st = MoveState {
            position,
            travel: w,
            start_travel: w,
            remaining,
            planes: Vec::new(),
            bounces: 0,
        };
        proof {
            assert(st@.planes =~= Seq::<Vec3Model>::empty());
            assert(begin_model(position@, velocity@, tick_micros as int) == Some(st@));
        }
        Some(st)
    }
}

/// Resolve one sweep answer. The result is exactly
/// `step_model(state@, hit@)`, and a continuing state is again
/// well-formed, with one more bounce on the books.
pub fn apply_sweep(state: MoveState, hit: Option<SweepHit>) -> (r: MoveProgress)
    requires
        state.wf(),
        match hit {
            Some(h) => hit_valid(state@, h@),
            None => true,
        },
    ensures
        r@ == step_model(state@, match hit {
            Some(h) => Some(h@),
            None => None,
        }),
        r matches MoveProgress::Continuing { state: s2 } ==> s2.wf()
            && s2@.bounces == state@.bounces + 1,
{
    let ghost m = state@;
    let ghost tb = travel_bound(m.bounces);
    proof {
        lemma_pow4_vals();
        assert(tb <= 0x1000_0000_0000 - 17000) by {
            assert(pow4(m.bounces) <= 256);
        }
    }
    let nrm = norm(&state.travel);
    proof {
        assert(nrm as int == v_norm(m.travel));
        assert(1 <= m.remaining <= nrm as int);
    }
    match hit {
        None => {
            proof {
                lemma_mul_div_tz_le(m.travel.x, m.remaining, nrm as int, tb);
                lemma_mul_div_tz_le(m.travel.y, m.remaining, nrm as int, tb);
                lemma_mul_div_tz_le(m.travel.z, m.remaining, nrm as int, tb);
            }
            let step_vec = Vec3Fix {
                x: mul_div(state.travel.x, state.remaining, nrm),
                y: mul_div(state.travel.y, state.remaining, nrm),
                z: mul_div(state.travel.z, state.remaining, nrm),
            };
            let position = state.position.plus(&step_vec);
            MoveProgress::Finished { position }
        },
        Some(h) => {
            let toi = h.time_of_impact;
            let a: i64 = if toi >= SKIN_WIDTH {
                toi - SKIN_WIDTH
            } else {
                0
            };
            proof {
                assert(a as int == advance_of(toi as int));
                lemma_mul_div_tz_le(m.travel.x, a as int, nrm as int, tb);
                lemma_mul_div_tz_le(m.travel.y, a as int, nrm as int, tb);
                lemma_mul_div_tz_le(m.travel.z, a as int, nrm as int, tb);
            }
            let step_vec = Vec3Fix {
                x: mul_div(state.travel.x, a, nrm),
                y: mul_div(state.travel.y, a, nrm),
                z: mul_div(state.travel.z, a, nrm),
            };
            if toi >= state.remaining {
                return MoveProgress::Finished { position: state.position.plus(&step_vec) };
            }
            let moved = if a >= SKIN_WIDTH {
                state.position.plus(&step_vec)
            } else {
                state.position
            };
            let extra: i64 = state.remaining - a;
            proof {
                lemma_mul_div_tz_le(m.travel.x, extra as int, nrm as int, tb);
                lemma_mul_div_tz_le(m.travel.y, extra as int, nrm as int, tb);
                lemma_mul_div_tz_le(m.travel.z, extra as int, nrm as int, tb);
            }
            let ev = Vec3Fix {
                x: mul_div(state.travel.x, extra, nrm),
                y: mul_div(state.travel.y, extra, nrm),
                z: mul_div(state.travel.z, extra, nrm),
            };
            let d = dot(&ev, &h.normal);
            proof {
                lemma_dot3_bound(ev@, h.normal@, tb, MICRO as int);
                assert(-(3 * tb) * 1_000_000_000_000 <= dot3(ev@, h.normal@) * h.normal@.x
                    <= (3 * tb) * 1_000_000_000_000) by (nonlinear_arith)
                    requires
                        -(3 * (tb * 1_000_000)) <= dot3(ev@, h.normal@)
                            <= 3 * (tb * 1_000_000),
                        -1_000_000 <= h.normal@.x <= 1_000_000,
                        tb >= 0,
                ;
                assert(-(3 * tb) * 1_000_000_000_000 <= dot3(ev@, h.normal@) * h.normal@.y
                    <= (3 * tb) * 1_000_000_000_000) by (nonlinear_arith)
                    requires
                        -(3 * (tb * 1_000_000)) <= dot3(ev@, h.normal@)
                            <= 3 * (tb * 1_000_000),
                        -1_000_000 <= h.normal@.y <= 1_000_000,
                        tb >= 0,
                ;
                assert(-(3 * tb) * 1_000_000_000_000 <= dot3(ev@, h.normal@) * h.normal@.z
                    <= (3 * tb) * 1_000_000_000_000) by (nonlinear_arith)
                    requires
                        -(3 * (tb * 1_000_000)) <= dot3(ev@, h.normal@)
                            <= 3 * (tb * 1_000_000),
                        -1_000_000 <= h.normal@.z <= 1_000_000,
                        tb >= 0,
                ;
                lemma_div_tz_bound(
                    dot3(ev@, h.normal@) * h.normal@.x, 1_000_000_000_000, 3 * tb);
                lemma_div_tz_bound(
                    dot3(ev@, h.normal@) * h.normal@.y, 1_000_000_000_000, 3 * tb);
                lemma_div_tz_bound(
                    dot3(ev@, h.normal@) * h.normal@.z, 1_000_000_000_000, 3 * tb);
            }
            let cx = div_trunc(d * (h.normal.x as i128), 1_000_000_000_000);
            let cy = div_trunc(d * (h.normal.y as i128), 1_000_000_000_000);
            let cz = div_trunc(d * (h.normal.z as i128), 1_000_000_000_000);
            let p0 = Vec3Fix {
                x: (ev.x as i128 - cx) as i64,
                y: (ev.y as i128 - cy) as i64,
                z: (ev.z as i128 - cz) as i64,
            };
            proof {
                assert(p0@ == projected_off(ev@, h.normal@));
                assert(v_bounded(p0@, 4 * tb));
            }
            let bd = dot(&p0, &state.start_travel);
            if bd <= 0 {
                return MoveProgress::Finished { position: moved };
            }
            // anti-jitter: push along the new normal once for every
            // previously struck, nearly parallel plane
            proof {
                lemma_mul_div_tz_bound(
                    h.normal@.x, NUDGE as int, MICRO as int, MICRO as int, NUDGE as int);
                lemma_mul_div_tz_bound(
                    h.normal@.y, NUDGE as int, MICRO as int, MICRO as int, NUDGE as int);
                lemma_mul_div_tz_bound(
                    h.normal@.z, NUDGE as int, MICRO as int, MICRO as int, NUDGE as int);
            }
            let nudge_vec = Vec3Fix {
                x: mul_div(h.normal.x, NUDGE, MICRO),
                y: mul_div(h.normal.y, NUDGE, MICRO),
                z: mul_div(h.normal.z, NUDGE, MICRO),
            };
            let mut p1 = p0;
            let mut i: usize = 0;
            proof {
                assert(m.planes.take(0) =~= Seq::<Vec3Model>::empty());
            }
            while i < state.planes.len()
                invariant
                    i <= state.planes.len(),
                    state.planes.len() == m.planes.len() <= 4,
                    state@ == m,
                    model_wf(m),
                    p1@ == nudged(p0@, h.normal@, m.planes.take(i as int)),
                    v_bounded(p0@, 4 * tb),
                    v_bounded(p1@, 4 * tb + i * NUDGE as int),
                    nudge_vec@ == v_scale_div(h.normal@, NUDGE as int, MICRO as int),
                    v_bounded(nudge_vec@, NUDGE as int),
                    v_bounded(h.normal@, MICRO as int),
                    0 <= tb <= 0x1000_0000_0000,
                decreases state.planes.len() - i,
            {
                let pl = state.planes[i];
                proof {
                    assert(pl@ == m.planes[i as int]);
                    assert(v_bounded(pl@, MICRO as int));
                }
                let dn = dot(&h.normal, &pl);
                proof {
                    assert(m.planes.take(i as int + 1)
                        =~= m.planes.take(i as int).push(m.planes[i as int]));
                    lemma_nudged_push(
                        p0@, h.normal@, m.planes.take(i as int), m.planes[i as int]);
                }
                if dn > PARALLEL_THRESHOLD as i128 {
                    p1 = p1.plus(&nudge_vec);
                }
                i = i + 1;
            }
            proof {
                assert(m.planes.take(m.planes.len() as int) =~= m.planes);
                assert(p1@ == nudged(p0@, h.normal@, m.planes));
                assert(v_bounded(p1@, 4 * tb + 4 * NUDGE as int));
            }
            if p1.is_zero() {
                return MoveProgress::Finished { position: moved };
            }
            if state.bounces + 1 >= MAX_BOUNCES {
                return MoveProgress::Finished { position: moved };
            }
            proof {
                lemma_norm_sq_nonneg(p1@);
                lemma_sqrt_floor_pos(norm_sq(p1@));
                lemma_norm_le(p1@, 0x4_0000_0000_0000);
            }
            let nrm = norm(&p1);
            let new_remaining: i64 = if nrm < extra {
                nrm
            } else {
                extra
            };
            let mut planes2 = state.planes;
            planes2.push(h.normal);
            let next = MoveState {
                position: moved,
                travel: p1,
                start_travel: state.start_travel,
                remaining: new_remaining,
                planes: planes2,
                bounces: state.bounces + 1,
            };
            proof {
                assert(next@.planes =~= m.planes.push(h.normal@));
                assert(pow4(m.bounces + 1) == 4 * pow4(m.bounces));
                assert(travel_bound(m.bounces + 1) == 4 * travel_bound(m.bounces) + 51000)
                    by (nonlinear_arith)
                    requires
                        travel_bound(m.bounces) == 0x10_0000_0000 * pow4(m.bounces) - 17000,
                        travel_bound(m.bounces + 1)
                            == 0x10_0000_0000 * pow4(m.bounces + 1) - 17000,
                        pow4(m.bounces + 1) == 4 * pow4(m.bounces),
                ;
                assert(v_bounded(next@.travel, travel_bound(m.bounces + 1)));
                assert(model_wf(next@));
            }
            MoveProgress::Continuing { state: next }
        },
    }
}

/// The position a tick's whole move reaches: fold the sweep answers
/// through `step_model`; answers after the move finishes are ignored.
pub open spec fn run_model(m: MoveModel, evs: Seq<Option<HitModel>>) -> Vec3Model
    decreases evs.len(),
{
    if evs.len() == 0 {
        m.position
    } else {
        match step_model(m, evs[0]) {
            StepModel::Finished { position } => position,
            StepModel::Continuing { state } => run_model(state, evs.drop_first()),
        }
    }
}

/// Every sweep answer in the sequence is one the geometry service may
/// give for the state it answers.
pub open spec fn events_valid(m: MoveModel, evs: Seq<Option<HitModel>>) -> bool
    decreases evs.len(),
{
    if evs.len() == 0 {
        true
    } else {
        let ok = match evs[0] {
            Some(h) => hit_valid(m, h),
            None => true,
        };
        ok && match step_model(m, evs[0]) {
            StepModel::Finished { position } => true,
            StepModel::Continuing { state } => events_valid(state, evs.drop_first()),
        }
    }
}

/// The total sweep distance a run consumes: the whole remaining travel
/// when nothing blocks, otherwise each step's advance.
pub open spec fn consumed(m: MoveModel, evs: Seq<Option<HitModel>>) -> int
    decreases evs.len(),
{
    if evs.len() == 0 {
        0
    } else {
        match evs[0] {
            None => m.remaining,
            Some(h) => advance_of(h.time_of_impact) + (match step_model(m, evs[0]) {
                StepModel::Finished { position } => 0,
                StepModel::Continuing { state } => consumed(state, evs.drop_first()),
            }),
        }
    }
}

/// One whole tick for one body: no move at all when the scaled travel
/// is zero, otherwise the run over this tick's sweep answers.
pub open spec fn tick_model(
    position: Vec3Model,
    velocity: Vec3Model,
    tick_micros: int,
    evs: Seq<Option<HitModel>>,
) -> Vec3Model {
    match begin_model(position, velocity, tick_micros) {
        None => position,
        Some(m) => run_model(m, evs),
    }
}

/// A body with zero desired velocity does not move this tick, whatever
/// the geometry service would have answered.
pub proof fn lemma_zero_velocity_holds_still(
    position: Vec3Model,
    tick_micros: int,
    evs: Seq<Option<HitModel>>,
)
    ensures
        tick_model(position, v_zero(), tick_micros, evs) == position,
{
    assert(mul_div_tz(0, tick_micros, MICRO as int) == 0) by {
        assert(0 * tick_micros == 0);
        assert(div_tz(0, MICRO as int) == 0);
    }
    assert(v_scale_div(v_zero(), tick_micros, MICRO as int) == v_zero());
}

/// With nothing blocking the sweep, one tick translates the body by
/// exactly its desired velocity times the tick length — equally when
/// that product is the zero vector and no move begins at all.
pub proof fn lemma_unobstructed_tick(position: Vec3Model, velocity: Vec3Model, tick_micros: int)
    ensures
        tick_model(position, velocity, tick_micros, seq![Option::<HitModel>::None])
            == v_add(position, v_scale_div(velocity, tick_micros, MICRO as int)),
{
    let w = v_scale_div(velocity, tick_micros, MICRO as int);
    let evs = seq![Option::<HitModel>::None];
    assert(evs[0] is None);
    if w == v_zero() {
        assert(v_add(position, w) == position);
    } else {
        let m = begin_model(position, velocity, tick_micros).unwrap();
        let nrm = v_norm(w);
        lemma_norm_sq_nonneg(w);
        lemma_sqrt_floor_pos(norm_sq(w));
        lemma_mul_div_tz_exact(w.x, nrm);
        lemma_mul_div_tz_exact(w.y, nrm);
        lemma_mul_div_tz_exact(w.z, nrm);
        assert(v_scale_div(w, nrm, nrm) == w);
        assert(run_model(m, evs) == v_add(position, w));
    }
}

/// Driving straight into a wall nearer than the remaining travel stops
/// the body a skin width short of the contact: the advance never
/// reaches the surface, falls short of it by exactly the skin width,
/// and the position the step leaves — slide or no slide — is exact.
pub proof fn lemma_wall_stop(m: MoveModel, h: HitModel)
    requires
        m.remaining >= 1,
        hit_valid(m, h),
        2 * SKIN_WIDTH as int <= h.time_of_impact < m.remaining,
    ensures
        advance_of(h.time_of_impact) == h.time_of_impact - SKIN_WIDTH as int,
        advance_of(h.time_of_impact) < h.time_of_impact,
        progress_position(step_model(m, Some(h))) == v_add(
            m.position,
            v_scale_div(m.travel, h.time_of_impact - SKIN_WIDTH as int, v_norm(m.travel)),
        ),
{
}

/// The bounce budget: a tick's move is decided by its first
/// `MAX_BOUNCES - bounces` sweep answers; later answers cannot matter,
/// so no tick resolves more than `MAX_BOUNCES` sweeps.
pub proof fn lemma_bounce_budget(m: MoveModel, evs: Seq<Option<HitModel>>)
    requires
        0 <= m.bounces < MAX_BOUNCES as int,
        evs.len() >= MAX_BOUNCES as int - m.bounces,
    ensures
        run_model(m, evs) == run_model(m, evs.take(MAX_BOUNCES as int - m.bounces)),
    decreases evs.len(),
{
    let k = MAX_BOUNCES as int - m.bounces;
    let t = evs.take(k);
    assert(t[0] == evs[0]);
    match step_model(m, evs[0]) {
        StepModel::Finished { position } => {
            assert(run_model(m, evs) == position);
            assert(run_model(m, t) == position);
        },
        StepModel::Continuing { state } => {
            assert(state.bounces == m.bounces + 1);
            assert(state.bounces < MAX_BOUNCES as int);
            assert(t.drop_first() =~= evs.drop_first().take(k - 1));
            lemma_bounce_budget(state, evs.drop_first());
            assert(run_model(m, evs) == run_model(state, evs.drop_first()));
            assert(run_model(m, t) == run_model(state, t.drop_first()));
        },
    }
}

/// A tick never overshoots: over any valid sweep answers, the distance
/// a move consumes stays within the distance it set out to travel. The
/// projected leftover is capped at the blocked leftover at every
/// bounce, so neither rounding nor the crease nudges can stretch a
/// tick's travel.
/// No coordinate of the body moves farther than the distance the run
/// consumes: with `lemma_never_overshoots`, a tick's displacement is
/// bounded, component by component, by the distance it set out to
/// travel.
pub proof fn lemma_run_displacement(m: MoveModel, evs: Seq<Option<HitModel>>)
    requires
        1 <= m.remaining <= v_norm(m.travel),
        events_valid(m, evs),
    ensures
        v_bounded(v_sub(run_model(m, evs), m.position), consumed(m, evs)),
    decreases evs.len(),
{
    lemma_never_overshoots(m, evs);
    if evs.len() > 0 {
        let nrm = v_norm(m.travel);
        lemma_component_le_norm(m.travel);
        match evs[0] {
            None => {
                lemma_mul_div_tz_num_bound(m.travel.x, m.remaining, nrm);
                lemma_mul_div_tz_num_bound(m.travel.y, m.remaining, nrm);
                lemma_mul_div_tz_num_bound(m.travel.z, m.remaining, nrm);
            },
            Some(h) => {
                let a = advance_of(h.time_of_impact);
                assert(0 <= a <= m.remaining);
                lemma_mul_div_tz_num_bound(m.travel.x, a, nrm);
                lemma_mul_div_tz_num_bound(m.travel.y, a, nrm);
                lemma_mul_div_tz_num_bound(m.travel.z, a, nrm);
                match step_model(m, evs[0]) {
                    StepModel::Finished { position } => {},
                    StepModel::Continuing { state } => {
                        let extra = m.remaining - a;
                        assert(state.remaining >= 1) by {
                            let ev = v_scale_div(m.travel, extra, nrm);
                            let p1 = nudged(projected_off(ev, h.normal), h.normal, m.planes);
                            assert(p1 != v_zero());
                            lemma_norm_sq_nonneg(p1);
                            lemma_sqrt_floor_pos(norm_sq(p1));
                        }
                        lemma_run_displacement(state, evs.drop_first());
                    },
                }
            },
        }
    }
}

pub proof fn lemma_never_overshoots(m: MoveModel, evs: Seq<Option<HitModel>>)
    requires
        m.remaining >= 1,
        events_valid(m, evs),
    ensures
        0 <= consumed(m, evs) <= m.remaining,
    decreases evs.len(),
{
    if evs.len() > 0 {
        match evs[0] {
            None => {},
            Some(h) => {
                let a = advance_of(h.time_of_impact);
                assert(0 <= a <= m.remaining);
                match step_model(m, evs[0]) {
                    StepModel::Finished { position } => {},
                    StepModel::Continuing { state } => {
                        let extra = m.remaining - a;
                        assert(state.remaining <= extra);
                        assert(state.remaining >= 1) by {
                            let ev = v_scale_div(m.travel, extra, v_norm(m.travel));
                            let p0 = projected_off(ev, h.normal);
                            let p1 = nudged(p0, h.normal, m.planes);
                            assert(p1 != v_zero());
                            lemma_norm_sq_nonneg(p1);
                            lemma_sqrt_floor_pos(norm_sq(p1));
                        }
                        lemma_never_overshoots(state, evs.drop_first());
                    },
                }
            },
        }
    }
}


} // verus!
