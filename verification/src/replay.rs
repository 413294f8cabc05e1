//! Per-tick velocity recording and replay. A live session samples a
//! desired velocity every tick and records it under the tick index; a
//! playback session looks the index up instead and leaves the velocity
//! unchanged when no entry exists. Because every piece of the
//! simulation is a function of its inputs, a record that holds the live
//! session's velocities reproduces the live session's positions
//! tick for tick.

use vstd::prelude::*;
use std::collections::HashMap;
use crate::mover::{tick_model, HitModel};
use crate::vecfix::{v_zero, Vec3Fix, Vec3Model};

verus! {

broadcast use vstd::std_specs::hash::group_hash_axioms;

/// The desired velocity of one controllable body, set by the
/// input-mapping collaborator before the fixed-tick stage runs.
#[derive(Clone, Copy, PartialEq, Eq, Structural, Debug)]
pub struct CharacterController {
    pub velocity: Vec3Fix,
}

impl CharacterController {
    pub fn new() -> (c: CharacterController)
        ensures
            c.velocity@ == v_zero(),
    {
        CharacterController { velocity: Vec3Fix { x: 0, y: 0, z: 0 } }
    }
}

/// An ordered mapping from tick index to the desired velocity sampled
/// that tick.
pub struct RecordedVelocities {
    pub map: HashMap<u32, Vec3Fix>,
}

impl View for RecordedVelocities {
    type V = Map<u32, Vec3Fix>;

    open spec fn view(&self) -> Map<u32, Vec3Fix> {
        self.map@
    }
}

impl RecordedVelocities {
    pub fn new() -> (r: RecordedVelocities)
        ensures
            r@ == Map::<u32, Vec3Fix>::empty(),
    {
        RecordedVelocities { map: HashMap::new() }
    }

    /// Record the velocity sampled for `tick`, replacing any earlier
    /// entry for the same tick.
    pub fn record(&mut self, tick: u32, velocity: Vec3Fix)
        ensures
            final(self)@ == old(self)@.insert(tick, velocity),
    {
        self.map.insert(tick, velocity);
    }

    /// The velocity recorded for `tick`, if any.
    pub fn lookup(&self, tick: u32) -> (r: Option<Vec3Fix>)
        ensures
            match r {
                Some(v) => self@.contains_key(tick) && self@[tick] == v,
                None => !self@.contains_key(tick),
            },
    {
        match self.map.get(&tick) {
            Some(v) => Some(*v),
            None => None,
        }
    }

    pub fn len(&self) -> (n: usize)
        ensures
            n == self@.len(),
    {
        self.map.len()
    }
}

/// The per-tick velocity decision. During playback the recorded
/// velocity for this tick drives the body, and a missing entry leaves
/// the body's velocity unchanged; live, the sampled velocity drives the
/// body and is recorded under this tick.
pub fn select_velocity(
    playback: bool,
    store: &mut RecordedVelocities,
    tick: u32,
    live: Vec3Fix,
    body: &mut CharacterController,
)
    ensures
        playback ==> final(store)@ == old(store)@ && final(body).velocity == (
            if old(store)@.contains_key(tick) {
                old(store)@[tick]
            } else {
                old(body).velocity
            }),
        !playback ==> final(store)@ == old(store)@.insert(tick, live)
            && final(body).velocity == live,
{
    if playback {
        match store.lookup(tick) {
            Some(v) => {
                body.velocity = v;
            },
            None => {},
        }
    } else {
        body.velocity = live;
        store.record(tick, live);
    }
}

/// The positions a session commits, one per tick: each tick starts from
/// the last committed position, moves with that tick's desired velocity
/// and resolves that tick's sweep answers.
pub open spec fn session_model(
    position: Vec3Model,
    vels: Seq<Vec3Fix>,
    tick_micros: int,
    evss: Seq<Seq<Option<HitModel>>>,
) -> Seq<Vec3Model>
    decreases vels.len(),
{
    if vels.len() == 0 {
        Seq::<Vec3Model>::empty()
    } else {
        let p1 = tick_model(position, vels[0]@, tick_micros, evss[0]);
        seq![p1] + session_model(p1, vels.drop_first(), tick_micros, evss.drop_first())
    }
}

/// The record a live session leaves behind: tick `i` maps to the
/// velocity sampled at tick `i`.
pub open spec fn recording_of(vels: Seq<Vec3Fix>) -> Map<u32, Vec3Fix>
    decreases vels.len(),
{
    if vels.len() == 0 {
        Map::<u32, Vec3Fix>::empty()
    } else {
        recording_of(vels.drop_last()).insert((vels.len() - 1) as u32, vels.last())
    }
}

pub proof fn lemma_session_len(
    position: Vec3Model,
    vels: Seq<Vec3Fix>,
    tick_micros: int,
    evss: Seq<Seq<Option<HitModel>>>,
)
    ensures
        session_model(position, vels, tick_micros, evss).len() == vels.len(),
    decreases vels.len(),
{
    if vels.len() > 0 {
        let p1 = tick_model(position, vels[0]@, tick_micros, evss[0]);
        lemma_session_len(p1, vels.drop_first(), tick_micros, evss.drop_first());
    }
}

/// A live session's record holds every tick played, with the velocity
/// that drove it.
pub proof fn lemma_recording_complete(vels: Seq<Vec3Fix>, i: int)
    requires
        vels.len() <= u32::MAX,
        0 <= i < vels.len(),
    ensures
        recording_of(vels).contains_key(i as u32),
        recording_of(vels)[i as u32] == vels[i],
    decreases vels.len(),
{
    assert(vels.drop_last().len() == vels.len() - 1);
    if i < vels.len() - 1 {
        lemma_recording_complete(vels.drop_last(), i);
        assert(vels.drop_last()[i] == vels[i]);
        assert(i as u32 != (vels.len() - 1) as u32);
    } else {
        assert(recording_of(vels) == recording_of(vels.drop_last()).insert(
            (vels.len() - 1) as u32, vels.last()));
    }
}

/// Replay round trip: a playback session that finds every tick of the
/// live record selects the very velocities the live session sampled, so
/// both sessions commit the identical sequence of positions.
pub proof fn lemma_replay_round_trip(
    position: Vec3Model,
    vels: Seq<Vec3Fix>,
    tick_micros: int,
    evss: Seq<Seq<Option<HitModel>>>,
    replayed: Seq<Vec3Fix>,
)
    requires
        vels.len() <= u32::MAX,
        replayed.len() == vels.len(),
        forall|i: int| 0 <= i < replayed.len()
            ==> replayed[i] == recording_of(vels)[i as u32],
    ensures
        replayed == vels,
        session_model(position, replayed, tick_micros, evss)
            == session_model(position, vels, tick_micros, evss),
{
    assert forall|i: int| 0 <= i < vels.len() implies replayed[i] == vels[i] by {
        lemma_recording_complete(vels, i);
    }
    assert(replayed =~= vels);
}

/// A body whose desired velocity is zero on every tick never changes
/// position, over any number of ticks and whatever the geometry service
/// answers.
pub proof fn lemma_zero_velocity_session(
    position: Vec3Model,
    vels: Seq<Vec3Fix>,
    tick_micros: int,
    evss: Seq<Seq<Option<HitModel>>>,
)
    requires
        forall|i: int| 0 <= i < vels.len() ==> #[trigger] vels[i]@ == v_zero(),
        evss.len() == vels.len(),
    ensures
        forall|i: int| 0 <= i < vels.len()
            ==> session_model(position, vels, tick_micros, evss)[i] == position,
    decreases vels.len(),
{
    if vels.len() > 0 {
        crate::mover::lemma_zero_velocity_holds_still(position, tick_micros, evss[0]);
        assert(vels[0]@ == v_zero());
        let p1 = tick_model(position, vels[0]@, tick_micros, evss[0]);
        assert(p1 == position);
        let rest = vels.drop_first();
        let tail = session_model(position, rest, tick_micros, evss.drop_first());
        lemma_session_len(position, rest, tick_micros, evss.drop_first());
        assert(tail.len() == vels.len() - 1);
        assert(session_model(position, vels, tick_micros, evss) == seq![position] + tail);
        assert forall|j: int| 0 <= j < rest.len() implies #[trigger] rest[j]@ == v_zero() by {
            assert(rest[j] == vels[j + 1]);
            assert(vels[j + 1]@ == v_zero());
        }
        lemma_zero_velocity_session(position, rest, tick_micros, evss.drop_first());
        assert forall|i: int| 0 <= i < vels.len() implies
            session_model(position, vels, tick_micros, evss)[i] == position by {
            if i == 0 {
                assert((seq![position] + tail)[0] == position);
            } else {
                assert((seq![position] + tail)[i] == tail[i - 1]);
                assert(tail[i - 1] == position);
            }
        }
    }
}

} // verus!
