//! The rollback engine's decisions: when to rewind, when to stall, how to
//! keep score of rounds and sets, and how the desync hash is formed.
//!
//! The engine does no I/O itself. Each tick is planned here, the caller
//! performs the emulator work the plan asks for, then reports back.

use vstd::prelude::*;
use std::collections::HashMap;
use crate::checksum::{crc32, crc32_of};
use crate::dolphin_mem::{GCPadStatus, MatchOutcome, SaveStateRing, first_with_frame, KO_THRESHOLD};
use crate::netplay::{
    FrameInput, InputBuffer, InputPacket, NetplaySession, after_lookup, receive_all, remote_lookup,
    sorted_frames, frames_from, drop_frames_before,
};
use crate::wire::{le16_bytes, le32_bytes, u16_to_le, u32_to_le};
use crate::text::{dec_digits, push_dec, push_str, string_of};

verus! {

/// Settings of the rollback engine.
#[derive(Clone, Copy, Debug)]
pub struct RollbackConfig {
    /// Frames of intentional input delay.
    pub input_delay: u32,
    /// Most frames a rollback may rewind; beyond that the engine stalls.
    pub max_rollback: u32,
    /// How many snapshots the ring keeps.
    pub save_state_capacity: usize,
}

impl Default for RollbackConfig {
    fn default() -> (c: Self)
        ensures
            c.input_delay == 2,
            c.max_rollback == 7,
            c.save_state_capacity == 10,
    {
        RollbackConfig { input_delay: 2, max_rollback: 7, save_state_capacity: 10 }
    }
}

/// Where the engine stands.
#[derive(Clone, Copy, Debug, PartialEq, Eq, Structural)]
pub enum EngineState {
    Idle,
    WaitingForPeer,
    Running,
    Stalling,
    Paused,
    MatchOver,
}

/// The engine's frame and event counters.
#[derive(Clone, Copy, Debug)]
pub struct FrameStats {
    pub current_frame: u32,
    pub remote_frame: u32,
    pub frames_ahead: u32,
    pub rollback_count: u64,
    pub total_rollback_frames: u64,
    pub stall_count: u64,
    pub last_rollback_depth: u32,
    /// Whether the peers' game states were seen to diverge.
    pub desync_detected: bool,
    pub desync_frame: u32,
    pub desync_local_hash: u32,
    pub desync_remote_hash: u32,
}

/// All counters at zero, no desync.
pub open spec fn zero_stats() -> FrameStats {
    FrameStats {
        current_frame: 0,
        remote_frame: 0,
        frames_ahead: 0,
        rollback_count: 0,
        total_rollback_frames: 0,
        stall_count: 0,
        last_rollback_depth: 0,
        desync_detected: false,
        desync_frame: 0,
        desync_local_hash: 0,
        desync_remote_hash: 0,
    }
}

impl Default for FrameStats {
    fn default() -> (s: Self)
        ensures
            s == zero_stats(),
    {
        FrameStats {
            current_frame: 0,
            remote_frame: 0,
            frames_ahead: 0,
            rollback_count: 0,
            total_rollback_frames: 0,
            stall_count: 0,
            last_rollback_depth: 0,
            desync_detected: false,
            desync_frame: 0,
            desync_local_hash: 0,
            desync_remote_hash: 0,
        }
    }
}

/// The rollback engine's state during netplay.
pub struct RollbackEngine {
    pub config: RollbackConfig,
    pub state: EngineState,
    pub stats: FrameStats,
    /// Our latest simulated frame.
    pub local_frame: u32,
    /// Latest frame confirmed by the remote player.
    pub confirmed_frame: u32,
    pub predictions_total: u64,
    /// Frames whose remote input was confirmed when it was used.
    pub predictions_correct: u64,
}

/// What the game loop should do after a tick.
#[derive(Clone, Debug)]
pub enum TickAction {
    /// Nothing: the engine is not running.
    Nothing,
    /// Advance to the next frame normally.
    Advance { frame: u32, remote_input: FrameInput, is_predicted: bool },
    /// Rewind to `from_frame` and replay up to `to_frame`.
    Rollback { from_frame: u32, to_frame: u32, depth: u32 },
    /// Wait for the remote player to catch up.
    Stall,
    /// The fight is over.
    MatchOver(MatchOutcome),
    /// Something failed.
    Error(String),
}

/// The first half of a tick: what the emulator must do before the frame advances.
#[derive(Clone, Copy, Debug, PartialEq, Eq, Structural)]
pub enum TickPlan {
    /// The engine is neither running nor stalling: do nothing.
    Skip,
    /// The emulator's memory is not attached: the tick fails.
    NotAttached,
    /// Load the snapshot of `from_frame` and replay up to `to_frame`.
    Rollback { from_frame: u32, to_frame: u32, depth: u32 },
    /// Too far ahead: wait.
    Stall,
    /// Save a snapshot of `local_frame`, then finish the tick.
    Proceed,
}

impl TickPlan {
    /// What the tick returns when its first half ends it: nothing to do, the
    /// "Not attached to Dolphin" error, the rollback or the stall; `None`
    /// when the tick goes on (save the snapshot, then [`RollbackEngine::finish_tick`]).
    pub fn early_action(&self) -> (a: Option<TickAction>)
        ensures
            match *self {
                TickPlan::Skip => a matches Some(TickAction::Nothing),
                TickPlan::NotAttached => a matches Some(TickAction::Error(m)) && m@ == "Not attached to Dolphin"@,
                TickPlan::Rollback { from_frame, to_frame, depth } => a matches Some(
                    TickAction::Rollback { from_frame: f, to_frame: t, depth: d },
                ) && f == from_frame && t == to_frame && d == depth,
                TickPlan::Stall => a matches Some(TickAction::Stall),
                TickPlan::Proceed => a is None,
            },
    {
        match *self {
            TickPlan::Skip => Some(TickAction::Nothing),
            TickPlan::NotAttached => Some(TickAction::Error(String::from_str("Not attached to Dolphin"))),
            TickPlan::Rollback { from_frame, to_frame, depth } => Some(TickAction::Rollback { from_frame, to_frame, depth }),
            TickPlan::Stall => Some(TickAction::Stall),
            TickPlan::Proceed => None,
        }
    }
}

/// Where a rollback must go, if anywhere: to the earliest contradicted
/// frame, provided it lies behind the current frame by at most the window.
pub open spec fn rollback_target_spec(frames: Seq<u32>, current: u32, max_rollback: u32) -> Option<(u32, u32)> {
    if frames.len() == 0 {
        None
    } else {
        let earliest = frames[0];
        let depth = if current > earliest { (current - earliest) as u32 } else { 0u32 };
        if depth > 0 && depth <= max_rollback {
            Some((earliest, depth))
        } else {
            None
        }
    }
}

/// Where a rollback must go (see [`rollback_target_spec`]): the frame and the depth.
pub fn rollback_target(frames: &Vec<u32>, current: u32, max_rollback: u32) -> (r: Option<(u32, u32)>)
    ensures
        r == rollback_target_spec(frames@, current, max_rollback),
{
    if frames.len() == 0 {
        return None;
    }
    let earliest = frames[0];
    let depth = current.saturating_sub(earliest);
    if depth > 0 && depth <= max_rollback {
        Some((earliest, depth))
    } else {
        None
    }
}

impl RollbackEngine {
    /// A fresh, idle engine.
    pub fn new(config: RollbackConfig) -> (e: Self)
        ensures
            e.config == config,
            e.state == EngineState::Idle,
            e.stats == zero_stats(),
            e.local_frame == 0,
            e.confirmed_frame == 0,
            e.predictions_total == 0,
            e.predictions_correct == 0,
    {
        RollbackEngine {
            config,
            state: EngineState::Idle,
            stats: FrameStats::default(),
            local_frame: 0,
            confirmed_frame: 0,
            predictions_total: 0,
            predictions_correct: 0,
        }
    }

    /// Start running from frame 0 with all counters cleared.
    pub fn start(&mut self)
        ensures
            final(self).config == old(self).config,
            final(self).state == EngineState::Running,
            final(self).stats == zero_stats(),
            final(self).local_frame == 0,
            final(self).confirmed_frame == 0,
            final(self).predictions_total == 0,
            final(self).predictions_correct == 0,
    {
        self.state = EngineState::Running;
        self.local_frame = 0;
        self.confirmed_frame = 0;
        self.stats = FrameStats::default();
        self.predictions_total = 0;
        self.predictions_correct = 0;
    }

    /// A copy of the counters.
    pub fn get_stats(&self) -> (s: FrameStats)
        ensures
            s == self.stats,
    {
        self.stats
    }

    /// The engine with its state set to `state`, all else kept.
    pub open spec fn with_state(self, state: EngineState) -> RollbackEngine {
        RollbackEngine { state, ..self }
    }

    /// Pause a running engine; any other state is left alone.
    pub fn pause(&mut self)
        ensures
            *final(self) == old(self).with_state(paused(old(self).state)),
    {
        if self.state == EngineState::Running {
            self.state = EngineState::Paused;
        }
    }

    /// Resume a paused engine; any other state is left alone.
    pub fn resume(&mut self)
        ensures
            *final(self) == old(self).with_state(resumed(old(self).state)),
    {
        if self.state == EngineState::Paused {
            self.state = EngineState::Running;
        }
    }

    /// Stop: the engine becomes idle, which ends the game loop.
    pub fn stop(&mut self)
        ensures
            *final(self) == old(self).with_state(EngineState::Idle),
    {
        self.state = EngineState::Idle;
    }

    /// Count a completed rollback of `depth` frames.
    pub fn record_rollback(&mut self, depth: u32)
        requires
            old(self).stats.rollback_count < u64::MAX,
            old(self).stats.total_rollback_frames + depth <= u64::MAX,
        ensures
            *final(self) == (RollbackEngine {
                stats: FrameStats {
                    rollback_count: (old(self).stats.rollback_count + 1) as u64,
                    total_rollback_frames: (old(self).stats.total_rollback_frames + depth) as u64,
                    last_rollback_depth: depth,
                    ..old(self).stats
                },
                ..*old(self)
            }),
    {
        self.stats.rollback_count += 1;
        self.stats.total_rollback_frames += depth as u64;
        self.stats.last_rollback_depth = depth;
    }

    /// Count one frame's use of remote input, confirmed or predicted.
    pub fn record_prediction(&mut self, is_predicted: bool)
        requires
            old(self).predictions_total < u64::MAX,
            old(self).predictions_correct < u64::MAX,
        ensures
            *final(self) == (RollbackEngine {
                predictions_total: (old(self).predictions_total + 1) as u64,
                predictions_correct: (old(self).predictions_correct + (if is_predicted { 0int } else { 1int })) as u64,
                ..*old(self)
            }),
    {
        self.predictions_total += 1;
        if !is_predicted {
            self.predictions_correct += 1;
        }
    }

    /// Note the frame reached and where the remote player stands.
    pub fn record_frame(&mut self, frame: u32, remote_frame: u32, frames_ahead: u32)
        ensures
            *final(self) == (RollbackEngine {
                local_frame: frame,
                stats: FrameStats { current_frame: frame, remote_frame, frames_ahead, ..old(self).stats },
                ..*old(self)
            }),
    {
        self.stats.current_frame = frame;
        self.local_frame = frame;
        self.stats.remote_frame = remote_frame;
        self.stats.frames_ahead = frames_ahead;
    }

    /// Note a desync: frame, our hash and theirs.
    pub fn record_desync(&mut self, frame: u32, local_hash: u32, remote_hash: u32)
        ensures
            *final(self) == (RollbackEngine {
                stats: FrameStats {
                    desync_detected: true,
                    desync_frame: frame,
                    desync_local_hash: local_hash,
                    desync_remote_hash: remote_hash,
                    ..old(self).stats
                },
                ..*old(self)
            }),
    {
        self.stats.desync_detected = true;
        self.stats.desync_frame = frame;
        self.stats.desync_local_hash = local_hash;
        self.stats.desync_remote_hash = remote_hash;
    }

    /// The first half of a tick. An engine neither running nor stalling does
    /// nothing; without the emulator's memory attached the tick fails, and
    /// nothing else happens. Otherwise received packets are folded into the
    /// session; a contradicted prediction within the rollback window, whose
    /// snapshot the ring still holds, asks for a rollback (counted with
    /// [`Self::record_rollback`] once the snapshot is loaded); otherwise a
    /// session too far ahead stalls (counted), and a stalled engine that
    /// caught up runs again and proceeds.
    pub fn plan_tick(
        &mut self,
        netplay: &mut NetplaySession,
        attached: bool,
        ring: &SaveStateRing,
        received: &Vec<InputPacket>,
    ) -> (plan: TickPlan)
        requires
            old(self).stats.stall_count < u64::MAX,
        ensures
            !(old(self).state == EngineState::Running || old(self).state == EngineState::Stalling) ==> {
                &&& plan == TickPlan::Skip
                &&& *final(self) == *old(self)
                &&& *final(netplay) == *old(netplay)
            },
            (old(self).state == EngineState::Running || old(self).state == EngineState::Stalling) && !attached ==> {
                &&& plan == TickPlan::NotAttached
                &&& *final(self) == *old(self)
                &&& *final(netplay) == *old(netplay)
            },
            (old(self).state == EngineState::Running || old(self).state == EngineState::Stalling) && attached ==> {
                let buffer = receive_all(old(netplay).input_buffer@, received@);
                let target = rollback_target_spec(sorted_frames(buffer.1), old(self).local_frame, old(self).config.max_rollback);
                let stall = old(netplay).current_frame > buffer.0.latest_remote_frame + old(netplay).max_rollback;
                &&& final(netplay).input_buffer@ == buffer.0
                &&& *final(netplay) == (NetplaySession { input_buffer: final(netplay).input_buffer, ..*old(netplay) })
                &&& if target is Some && first_with_frame(ring.states@, target.unwrap().0) is Some {
                    &&& plan == (TickPlan::Rollback { from_frame: target.unwrap().0, to_frame: old(self).local_frame, depth: target.unwrap().1 })
                    &&& *final(self) == *old(self)
                } else if stall {
                    &&& plan == TickPlan::Stall
                    &&& *final(self) == (RollbackEngine {
                        state: EngineState::Stalling,
                        stats: FrameStats { stall_count: (old(self).stats.stall_count + 1) as u64, ..old(self).stats },
                        ..*old(self)
                    })
                } else {
                    &&& plan == TickPlan::Proceed
                    &&& *final(self) == old(self).with_state(EngineState::Running)
                }
            },
            plan matches TickPlan::Rollback { from_frame, to_frame, depth } ==> {
                &&& 0 < depth <= old(self).config.max_rollback
                &&& from_frame + depth == to_frame
                &&& to_frame == old(self).local_frame
                &&& first_with_frame(ring.states@, from_frame) is Some
            },
    {
        if self.state != EngineState::Running && self.state != EngineState::Stalling {
            return TickPlan::Skip;
        }
        if !attached {
            return TickPlan::NotAttached;
        }
        let frames = netplay.process_received(received);
        if let Some((earliest, _depth)) = rollback_target(&frames, self.local_frame, self.config.max_rollback) {
            if ring.get(earliest).is_some() {
                return TickPlan::Rollback {
                    from_frame: earliest,
                    to_frame: self.local_frame,
                    depth: self.local_frame - earliest,
                };
            }
        }
        if netplay.should_stall() {
            self.state = EngineState::Stalling;
            self.stats.stall_count += 1;
            return TickPlan::Stall;
        }
        self.state = EngineState::Running;
        TickPlan::Proceed
    }

    /// The second half of a tick, once the snapshot of this frame is saved:
    /// use the remote input for the frame (confirmed or predicted), advance
    /// both counters, and end the fight if the winner check found a knock-out.
    pub fn finish_tick(&mut self, netplay: &mut NetplaySession, ko: Option<MatchOutcome>) -> (action: TickAction)
        requires
            old(self).local_frame < u32::MAX,
            old(netplay).current_frame < u32::MAX,
            old(self).predictions_total < u64::MAX,
            old(self).predictions_correct < u64::MAX,
        ensures
            ({
                let (remote_input, is_predicted) = remote_lookup(old(netplay).input_buffer@, old(netplay).current_frame);
                &&& final(netplay).input_buffer@ == after_lookup(old(netplay).input_buffer@, old(netplay).current_frame)
                &&& *final(netplay) == (NetplaySession {
                    input_buffer: final(netplay).input_buffer,
                    current_frame: (old(netplay).current_frame + 1) as u32,
                    ..*old(netplay)
                })
                &&& *final(self) == (RollbackEngine {
                    state: if ko is Some { EngineState::MatchOver } else { old(self).state },
                    local_frame: (old(self).local_frame + 1) as u32,
                    predictions_total: (old(self).predictions_total + 1) as u64,
                    predictions_correct: (old(self).predictions_correct + (if is_predicted { 0int } else { 1int })) as u64,
                    stats: FrameStats {
                        current_frame: (old(self).local_frame + 1) as u32,
                        remote_frame: old(netplay).input_buffer@.latest_remote_frame,
                        frames_ahead: (if old(netplay).current_frame + 1 > old(netplay).input_buffer@.latest_remote_frame {
                            old(netplay).current_frame + 1 - old(netplay).input_buffer@.latest_remote_frame
                        } else {
                            0
                        }) as u32,
                        ..old(self).stats
                    },
                    ..*old(self)
                })
                &&& match ko {
                    Some(o) => action matches TickAction::MatchOver(r) && r == o,
                    None => action matches TickAction::Advance { frame, remote_input: ri, is_predicted: p }
                        && frame == old(self).local_frame + 1 && ri == remote_input && p == is_predicted,
                }
            }),
    {
        let (remote_input, is_predicted) = netplay.get_remote_input();
        self.record_prediction(is_predicted);
        self.local_frame += 1;
        netplay.advance_frame();
        self.stats.current_frame = self.local_frame;
        self.stats.remote_frame = netplay.input_buffer.latest_remote_frame;
        self.stats.frames_ahead = netplay.frames_ahead();
        match ko {
            Some(outcome) => {
                self.state = EngineState::MatchOver;
                TickAction::MatchOver(outcome)
            },
            None => TickAction::Advance { frame: self.local_frame, remote_input, is_predicted },
        }
    }
}

/// The state after a pause: a running engine is paused, any other state stays.
pub open spec fn paused(s: EngineState) -> EngineState {
    if s == EngineState::Running {
        EngineState::Paused
    } else {
        s
    }
}

/// The state after a resume: a paused engine runs, any other state stays.
pub open spec fn resumed(s: EngineState) -> EngineState {
    if s == EngineState::Paused {
        EngineState::Running
    } else {
        s
    }
}

/// Pausing and then resuming gives back the engine as it was, unless it was
/// already paused (then it ends up running); resuming and then pausing gives
/// it back unless it was already running (then it ends up paused).
pub proof fn lemma_pause_resume_roundtrip(e: RollbackEngine)
    ensures
        e.state != EngineState::Paused ==> e.with_state(paused(e.state)).with_state(
            resumed(e.with_state(paused(e.state)).state),
        ) == e,
        e.state != EngineState::Running ==> e.with_state(resumed(e.state)).with_state(
            paused(e.with_state(resumed(e.state)).state),
        ) == e,
        e.state == EngineState::Paused ==> resumed(paused(e.state)) == EngineState::Running,
        e.state == EngineState::Running ==> paused(resumed(e.state)) == EngineState::Paused,
{
}

/// The knock-out check of the game loop: nothing during the first 120
/// frames (intro and loading), nor while both players are below the
/// threshold; otherwise the verdict with both players' damage.
pub open spec fn ko_verdict(p1_health: u16, p2_health: u16, frame: u32) -> Option<Seq<char>> {
    if frame < 120 {
        None
    } else if p1_health >= KO_THRESHOLD && p2_health >= KO_THRESHOLD {
        Some("draw"@)
    } else if p1_health >= KO_THRESHOLD {
        Some("p2_win"@)
    } else if p2_health >= KO_THRESHOLD {
        Some("p1_win"@)
    } else {
        None
    }
}

/// The knock-out check (see [`ko_verdict`]) on the players' damage and the frame counter.
pub fn check_match_over(p1_health: u16, p2_health: u16, frame: u32) -> (o: Option<MatchOutcome>)
    ensures
        match ko_verdict(p1_health, p2_health, frame) {
            Some(v) => o matches Some(m) && m.result@ == v && m.p1_health == p1_health && m.p2_health == p2_health && m.frame == frame,
            None => o is None,
        },
{
    if frame < 120 {
        return None;
    }
    if p1_health >= KO_THRESHOLD || p2_health >= KO_THRESHOLD {
        let result = if p1_health >= KO_THRESHOLD && p2_health >= KO_THRESHOLD {
            String::from_str("draw")
        } else if p1_health >= KO_THRESHOLD {
            String::from_str("p2_win")
        } else {
            String::from_str("p1_win")
        };
        Some(MatchOutcome { result, p1_health, p2_health, frame })
    } else {
        None
    }
}

/// Frames to let a knock-out animation play before the round is counted.
pub const KO_DELAY_FRAMES: u32 = 180;
/// Frames after a counted round during which no new knock-out is looked for.
pub const ROUND_RESET_COOLDOWN: u32 = 300;
/// Rounds a player must win to take a match.
pub const ROUNDS_TO_WIN: u32 = 3;

/// Round and set bookkeeping of the game loop.
#[derive(Clone, Debug)]
pub struct MatchTracker {
    pub p1_round_wins: u32,
    pub p2_round_wins: u32,
    pub p1_set_wins: u32,
    pub p2_set_wins: u32,
    /// Matches a player must win to take the set: 2 when ranked, else 1.
    pub matches_to_win_set: u32,
    /// The frame a knock-out was seen at, while its animation plays.
    pub ko_detected_frame: Option<u32>,
    /// The knock-out seen, while its animation plays.
    pub ko_outcome: Option<MatchOutcome>,
    /// The frame the last round was counted at.
    pub last_ko_frame: u32,
}

/// What one frame of bookkeeping decided.
pub enum TrackerEvent {
    /// Nothing to report.
    Nothing,
    /// A knock-out was seen; it is counted once its animation has played.
    KoSeen,
    /// A round was counted; the match goes on.
    RoundCounted,
    /// A match was won but the set goes on; the round wins before the reset.
    MatchWon { round_wins: (u32, u32), set_wins: (u32, u32) },
    /// The set is over.
    SetOver { outcome: MatchOutcome, round_wins: (u32, u32), set_wins: (u32, u32) },
}

impl MatchTracker {
    /// Scores and tallies are consistent: no one holds a won match's worth
    /// of rounds, nor a won set's worth of matches, and a knock-out is
    /// pending exactly when its outcome is kept.
    pub open spec fn wf(&self) -> bool {
        &&& self.p1_round_wins < ROUNDS_TO_WIN
        &&& self.p2_round_wins < ROUNDS_TO_WIN
        &&& self.p1_set_wins < self.matches_to_win_set
        &&& self.p2_set_wins < self.matches_to_win_set
        &&& (self.ko_detected_frame is Some <==> self.ko_outcome is Some)
    }

    /// No rounds or matches won yet; a ranked set is best of three matches,
    /// an unranked one a single match.
    pub fn new(ranked: bool) -> (t: Self)
        ensures
            t.wf(),
            t.p1_round_wins == 0 && t.p2_round_wins == 0,
            t.p1_set_wins == 0 && t.p2_set_wins == 0,
            t.matches_to_win_set == (if ranked { 2u32 } else { 1u32 }),
            t.ko_detected_frame is None,
            t.last_ko_frame == 0,
    {
        MatchTracker {
            p1_round_wins: 0,
            p2_round_wins: 0,
            p1_set_wins: 0,
            p2_set_wins: 0,
            matches_to_win_set: if ranked { 2 } else { 1 },
            ko_detected_frame: None,
            ko_outcome: None,
            last_ko_frame: 0,
        }
    }

    /// Whether this frame needs a knock-out check: the cooldown since the
    /// last counted round is over and no knock-out is pending.
    pub fn needs_ko_check(&self, current_frame: u32) -> (b: bool)
        requires
            self.last_ko_frame + ROUND_RESET_COOLDOWN <= u32::MAX,
        ensures
            b == (current_frame > self.last_ko_frame + ROUND_RESET_COOLDOWN && self.ko_detected_frame is None),
    {
        current_frame > self.last_ko_frame + ROUND_RESET_COOLDOWN && self.ko_detected_frame.is_none()
    }

    /// One frame of bookkeeping. `ko` is the knock-out check's result, asked
    /// for only when [`Self::needs_ko_check`] said so. Past the cooldown, a
    /// knock-out is noted; once its animation has played the round goes to
    /// its winner (a draw goes to no one); three rounds win a match, which
    /// resets the rounds; enough matches end the set with its winner.
    pub fn observe(&mut self, current_frame: u32, ko: Option<MatchOutcome>) -> (e: TrackerEvent)
        requires
            old(self).wf(),
            old(self).last_ko_frame + ROUND_RESET_COOLDOWN <= u32::MAX,
            old(self).ko_detected_frame matches Some(f) ==> f + KO_DELAY_FRAMES <= u32::MAX,
        ensures
            !(e is SetOver) ==> final(self).wf(),
            final(self).matches_to_win_set == old(self).matches_to_win_set,
            e matches TrackerEvent::SetOver { outcome, round_wins, set_wins } ==> {
                &&& round_wins.0 >= ROUNDS_TO_WIN || round_wins.1 >= ROUNDS_TO_WIN
                &&& {
                    ||| outcome.result@ == "p1_win"@ && set_wins.0 >= old(self).matches_to_win_set
                    ||| outcome.result@ == "p2_win"@ && set_wins.1 >= old(self).matches_to_win_set
                }
            },
            current_frame <= old(self).last_ko_frame + ROUND_RESET_COOLDOWN ==> {
                &&& e is Nothing
                &&& *final(self) == *old(self)
            },
            current_frame > old(self).last_ko_frame + ROUND_RESET_COOLDOWN && old(self).ko_detected_frame is None ==> {
                match ko {
                    Some(o) => {
                        &&& e is KoSeen
                        &&& final(self).ko_detected_frame == Some(current_frame)
                        &&& final(self).ko_outcome == Some(o)
                        &&& final(self).p1_round_wins == old(self).p1_round_wins
                        &&& final(self).p2_round_wins == old(self).p2_round_wins
                        &&& final(self).last_ko_frame == old(self).last_ko_frame
                    },
                    None => e is Nothing && *final(self) == *old(self),
                }
            },
            (current_frame > old(self).last_ko_frame + ROUND_RESET_COOLDOWN && old(self).ko_detected_frame is Some
                && current_frame < old(self).ko_detected_frame.unwrap() + KO_DELAY_FRAMES) ==> {
                &&& e is Nothing
                &&& *final(self) == *old(self)
            },
            (current_frame > old(self).last_ko_frame + ROUND_RESET_COOLDOWN && old(self).ko_detected_frame is Some
                && current_frame >= old(self).ko_detected_frame.unwrap() + KO_DELAY_FRAMES) ==> {
                let r = old(self).ko_outcome.unwrap().result@;
                let p1r = old(self).p1_round_wins + (if r == "p1_win"@ { 1int } else { 0int });
                let p2r = old(self).p2_round_wins + (if r == "p2_win"@ { 1int } else { 0int });
                let p1_match = p1r >= ROUNDS_TO_WIN;
                let match_won = p1r >= ROUNDS_TO_WIN || p2r >= ROUNDS_TO_WIN;
                let p1s = old(self).p1_set_wins + (if match_won && p1_match { 1int } else { 0int });
                let p2s = old(self).p2_set_wins + (if match_won && !p1_match { 1int } else { 0int });
                let set_over = p1s >= old(self).matches_to_win_set || p2s >= old(self).matches_to_win_set;
                &&& final(self).last_ko_frame == current_frame
                &&& final(self).ko_detected_frame is None
                &&& final(self).ko_outcome is None
                &&& final(self).p1_set_wins == p1s
                &&& final(self).p2_set_wins == p2s
                &&& if !match_won {
                    &&& e is RoundCounted
                    &&& final(self).p1_round_wins == p1r
                    &&& final(self).p2_round_wins == p2r
                } else if !set_over {
                    &&& e == (TrackerEvent::MatchWon { round_wins: (p1r as u32, p2r as u32), set_wins: (p1s as u32, p2s as u32) })
                    &&& final(self).p1_round_wins == 0
                    &&& final(self).p2_round_wins == 0
                } else {
                    &&& e matches TrackerEvent::SetOver { outcome, round_wins, set_wins }
                    &&& outcome.result@ == (if p1s >= old(self).matches_to_win_set { "p1_win"@ } else { "p2_win"@ })
                    &&& outcome.p1_health == old(self).ko_outcome.unwrap().p1_health
                    &&& outcome.p2_health == old(self).ko_outcome.unwrap().p2_health
                    &&& outcome.frame == current_frame
                    &&& round_wins == (p1r as u32, p2r as u32)
                    &&& set_wins == (p1s as u32, p2s as u32)
                }
            },
    {
        if current_frame <= self.last_ko_frame + ROUND_RESET_COOLDOWN {
            return TrackerEvent::Nothing;
        }
        match self.ko_detected_frame {
            None => {
                match ko {
                    Some(outcome) => {
                        self.ko_detected_frame = Some(current_frame);
                        self.ko_outcome = Some(outcome);
                        TrackerEvent::KoSeen
                    },
                    None => TrackerEvent::Nothing,
                }
            },
            Some(ko_frame) => {
                if current_frame < ko_frame + KO_DELAY_FRAMES {
                    return TrackerEvent::Nothing;
                }
                proof {
                    lemma_winners_differ();
                }
                let (p1_health, p2_health) = match &self.ko_outcome {
                    Some(o) => {
                        if str_eq(o.result.as_str(), "p1_win") {
                            self.p1_round_wins += 1;
                        } else if str_eq(o.result.as_str(), "p2_win") {
                            self.p2_round_wins += 1;
                        }
                        (o.p1_health, o.p2_health)
                    },
                    None => (0, 0),
                };
                self.last_ko_frame = current_frame;
                self.ko_detected_frame = None;
                self.ko_outcome = None;
                if self.p1_round_wins >= ROUNDS_TO_WIN || self.p2_round_wins >= ROUNDS_TO_WIN {
                    if self.p1_round_wins >= ROUNDS_TO_WIN {
                        self.p1_set_wins += 1;
                    } else {
                        self.p2_set_wins += 1;
                    }
                    let round_wins = (self.p1_round_wins, self.p2_round_wins);
                    let set_wins = (self.p1_set_wins, self.p2_set_wins);
                    if self.p1_set_wins >= self.matches_to_win_set || self.p2_set_wins >= self.matches_to_win_set {
                        let result = if self.p1_set_wins >= self.matches_to_win_set {
                            String::from_str("p1_win")
                        } else {
                            String::from_str("p2_win")
                        };
                        TrackerEvent::SetOver {
                            outcome: MatchOutcome { result, p1_health, p2_health, frame: current_frame },
                            round_wins,
                            set_wins,
                        }
                    } else {
                        self.p1_round_wins = 0;
                        self.p2_round_wins = 0;
                        TrackerEvent::MatchWon { round_wins, set_wins }
                    }
                } else {
                    TrackerEvent::RoundCounted
                }
            },
        }
    }
}

/// Whether two strings are equal.
pub fn str_eq(a: &str, b: &str) -> (r: bool)
    ensures
        r == (a@ == b@),
{
    let n = a.unicode_len();
    if n != b.unicode_len() {
        return false;
    }
    for i in 0..n
        invariant
            n == a@.len(),
            n == b@.len(),
            forall|j: int| 0 <= j < i ==> a@[j] == b@[j],
    {
        if a.get_char(i) != b.get_char(i) {
            return false;
        }
    }
    assert(a@ =~= b@);
    true
}

/// The two winner verdicts are different strings.
proof fn lemma_winners_differ()
    ensures
        "p1_win"@ != "p2_win"@,
{
    reveal_strlit("p1_win");
    reveal_strlit("p2_win");
    assert("p1_win"@[1] != "p2_win"@[1]);
}

/// What the frontend learns when a set has ended.
#[derive(Clone, Debug)]
pub struct MatchEndInfo {
    pub outcome: MatchOutcome,
    pub round_wins: Option<(u32, u32)>,
    pub set_wins: Option<(u32, u32)>,
    pub set_over: bool,
    pub ranked: bool,
}

/// The engine and the match result shared with the frontend.
pub struct RollbackState {
    pub engine: RollbackEngine,
    pub match_outcome: Option<MatchOutcome>,
    /// Rounds won by (player 1, player 2) in the last match.
    pub round_wins: Option<(u32, u32)>,
    pub ranked: bool,
    /// Matches won by (player 1, player 2) in the set.
    pub set_wins: Option<(u32, u32)>,
    /// Whether the whole set is over.
    pub set_over: bool,
}

impl RollbackState {
    /// An idle engine with default settings, ranked, and no result.
    pub fn new() -> (s: Self)
        ensures
            s.engine.state == EngineState::Idle,
            s.engine.config.max_rollback == 7,
            s.engine.config.input_delay == 2,
            s.match_outcome is None,
            s.round_wins is None,
            s.set_wins is None,
            s.ranked,
            !s.set_over,
    {
        RollbackState {
            engine: RollbackEngine::new(RollbackConfig::default()),
            match_outcome: None,
            round_wins: None,
            ranked: true,
            set_wins: None,
            set_over: false,
        }
    }

    /// Start a new set: the engine runs with the given delay and window,
    /// and any earlier result is forgotten.
    pub fn start(&mut self, input_delay: u32, max_rollback: u32, ranked: bool)
        ensures
            final(self).engine.config.input_delay == input_delay,
            final(self).engine.config.max_rollback == max_rollback,
            final(self).engine.config.save_state_capacity == old(self).engine.config.save_state_capacity,
            final(self).engine.state == EngineState::Running,
            final(self).engine.stats == zero_stats(),
            final(self).engine.local_frame == 0,
            final(self).engine.predictions_total == 0,
            final(self).match_outcome is None,
            final(self).round_wins is None,
            final(self).set_wins is None,
            !final(self).set_over,
            final(self).ranked == ranked,
    {
        self.engine.config.input_delay = input_delay;
        self.engine.config.max_rollback = max_rollback;
        self.engine.start();
        self.match_outcome = None;
        self.round_wins = None;
        self.set_wins = None;
        self.set_over = false;
        self.ranked = ranked;
    }

    /// Take in what the round bookkeeping decided: a won match records the
    /// tallies; the end of the set also stops the engine and records the result.
    pub fn apply(&mut self, event: TrackerEvent)
        ensures
            match event {
                TrackerEvent::SetOver { outcome, round_wins, set_wins } => {
                    &&& final(self).engine.state == EngineState::MatchOver
                    &&& final(self).match_outcome == Some(outcome)
                    &&& final(self).round_wins == Some(round_wins)
                    &&& final(self).set_wins == Some(set_wins)
                    &&& final(self).set_over
                },
                TrackerEvent::MatchWon { round_wins, set_wins } => {
                    &&& final(self).engine.state == old(self).engine.state
                    &&& final(self).match_outcome == old(self).match_outcome
                    &&& final(self).round_wins == Some(round_wins)
                    &&& final(self).set_wins == Some(set_wins)
                    &&& final(self).set_over == old(self).set_over
                },
                _ => {
                    &&& final(self).engine.state == old(self).engine.state
                    &&& final(self).match_outcome == old(self).match_outcome
                    &&& final(self).round_wins == old(self).round_wins
                    &&& final(self).set_wins == old(self).set_wins
                    &&& final(self).set_over == old(self).set_over
                },
            },
            final(self).ranked == old(self).ranked,
            final(self).engine.config == old(self).engine.config,
            final(self).engine.stats == old(self).engine.stats,
    {
        match event {
            TrackerEvent::SetOver { outcome, round_wins, set_wins } => {
                self.engine.state = EngineState::MatchOver;
                self.match_outcome = Some(outcome);
                self.round_wins = Some(round_wins);
                self.set_wins = Some(set_wins);
                self.set_over = true;
            },
            TrackerEvent::MatchWon { round_wins, set_wins } => {
                self.round_wins = Some(round_wins);
                self.set_wins = Some(set_wins);
            },
            _ => {},
        }
    }

    /// The result to show, if a set has ended and it was not cleared yet.
    pub fn match_end_info(&self) -> (r: Option<MatchEndInfo>)
        ensures
            match self.match_outcome {
                Some(o) => r == Some(MatchEndInfo {
                    outcome: o,
                    round_wins: self.round_wins,
                    set_wins: self.set_wins,
                    set_over: self.set_over,
                    ranked: self.ranked,
                }),
                None => r is None,
            },
    {
        match &self.match_outcome {
            Some(o) => Some(MatchEndInfo {
                outcome: o.duplicate(),
                round_wins: self.round_wins,
                set_wins: self.set_wins,
                set_over: self.set_over,
                ranked: self.ranked,
            }),
            None => None,
        }
    }

    /// Forget the shown result; the tallies stay.
    pub fn clear_match_end(&mut self)
        ensures
            final(self).match_outcome is None,
            final(self).round_wins == old(self).round_wins,
            final(self).set_wins == old(self).set_wins,
            final(self).set_over == old(self).set_over,
            final(self).ranked == old(self).ranked,
            final(self).engine.state == old(self).engine.state,
    {
        self.match_outcome = None;
    }
}

/// What of one player's state goes into the desync hash. The vertical
/// speed is a float; it enters as its bit pattern.
#[derive(Clone, Copy, Debug)]
pub struct PlayerSample {
    pub health: u16,
    pub chakra: u16,
    pub vertical_speed_bits: u32,
    pub block_meter: u16,
}

/// The 20 bytes hashed to compare game states: both players' damage,
/// chakra, vertical speed and block meter, little-endian, player 1 first
/// within each pair.
pub open spec fn state_hash_bytes(p1: PlayerSample, p2: PlayerSample) -> Seq<u8> {
    le16_bytes(p1.health) + le16_bytes(p2.health) + le16_bytes(p1.chakra) + le16_bytes(p2.chakra)
        + le32_bytes(p1.vertical_speed_bits) + le32_bytes(p2.vertical_speed_bits) + le16_bytes(p1.block_meter)
        + le16_bytes(p2.block_meter)
}

/// The desync hash of the two players' states: CRC-32 of [`state_hash_bytes`].
pub fn state_hash(p1: &PlayerSample, p2: &PlayerSample) -> (h: u32)
    ensures
        h == crc32_of(state_hash_bytes(*p1, *p2)),
{
    let a = u16_to_le(p1.health);
    let b = u16_to_le(p2.health);
    let c = u16_to_le(p1.chakra);
    let d = u16_to_le(p2.chakra);
    let e = u32_to_le(p1.vertical_speed_bits);
    let f = u32_to_le(p2.vertical_speed_bits);
    let g = u16_to_le(p1.block_meter);
    let k = u16_to_le(p2.block_meter);
    let buf: Vec<u8> = vec![
        a[0], a[1], b[0], b[1], c[0], c[1], d[0], d[1], e[0], e[1], e[2], e[3], f[0], f[1], f[2], f[3], g[0],
        g[1], k[0], k[1],
    ];
    assert(buf@ =~= state_hash_bytes(*p1, *p2));
    crc32(buf.as_slice())
}

/// Frames between desync checks.
pub const SYNC_INTERVAL: u32 = 30;
/// Hashes kept before old ones are pruned.
pub const MAX_HASH_HISTORY: usize = 300;

/// The hash history after recording `hash` for `frame`: once it holds more
/// than 300 hashes, those at or below `frame - 300 * 30` are pruned.
pub open spec fn after_record_hash(m: Map<u32, u32>, frame: u32, hash: u32) -> Map<u32, u32> {
    let added = m.insert(frame, hash);
    if added.len() > MAX_HASH_HISTORY {
        let cutoff = if frame > 9000 { (frame - 9000) as u32 } else { 0u32 };
        frames_from(added, (cutoff + 1) as u32)
    } else {
        added
    }
}

/// Record our hash of a frame, pruning old ones (see [`after_record_hash`]).
pub fn record_state_hash(hashes: &mut HashMap<u32, u32>, frame: u32, hash: u32)
    ensures
        final(hashes)@ == after_record_hash(old(hashes)@, frame, hash),
{
    broadcast use vstd::std_specs::hash::group_hash_axioms;

    hashes.insert(frame, hash);
    if hashes.len() > MAX_HASH_HISTORY {
        let cutoff = frame.saturating_sub(9000);
        drop_frames_before(hashes, cutoff + 1);
    }
}

/// Whether a desync check is due at this frame: every 30 frames after the first 60.
pub fn is_sync_frame(frame: u32) -> (b: bool)
    ensures
        b == (frame % SYNC_INTERVAL == 0 && frame > 60),
{
    frame % SYNC_INTERVAL == 0 && frame > 60
}

/// Whether a latency probe is due at this frame: every 60 frames.
pub fn is_ping_frame(frame: u32) -> (b: bool)
    ensures
        b == (frame % 60 == 0 && frame > 0),
{
    frame % 60 == 0 && frame > 0
}

/// The game loop's frame indicator: player 1's animation counter when the
/// player pointer is valid and the read succeeded, else the last value seen.
pub fn frame_indicator(p1_ptr: u32, anim_frame: Option<u16>, last: u16) -> (v: u16)
    ensures
        v == (if crate::dolphin_mem::in_gc_ram(p1_ptr) && anim_frame is Some { anim_frame.unwrap() } else { last }),
{
    if crate::dolphin_mem::is_gc_ram_pointer(p1_ptr) {
        match anim_frame {
            Some(a) => a,
            None => last,
        }
    } else {
        last
    }
}

/// The controller state to inject for a frame's remote input.
pub open spec fn pad_of(i: FrameInput) -> GCPadStatus {
    GCPadStatus {
        buttons: i.buttons,
        stick_x: i.stick_x,
        stick_y: i.stick_y,
        cstick_x: i.cstick_x,
        cstick_y: i.cstick_y,
        trigger_l: i.trigger_l,
        trigger_r: i.trigger_r,
    }
}

/// The confirmed remote inputs of frames `from..to`, in order, as
/// controller states; frames without one are skipped.
pub open spec fn replay_pads_spec(remote: Map<u32, FrameInput>, from: u32, to: int) -> Seq<GCPadStatus>
    decreases to - from,
{
    if to <= from {
        Seq::empty()
    } else if remote.contains_key((to - 1) as u32) {
        replay_pads_spec(remote, from, to - 1).push(pad_of(remote[(to - 1) as u32]))
    } else {
        replay_pads_spec(remote, from, to - 1)
    }
}

/// The controller states to replay after rewinding to `from` (see [`replay_pads_spec`]).
pub fn replay_pads(buffer: &InputBuffer, from: u32, to: u32) -> (pads: Vec<GCPadStatus>)
    ensures
        pads@ == replay_pads_spec(buffer@.remote, from, to as int),
{
    broadcast use vstd::std_specs::hash::group_hash_axioms;

    let mut pads: Vec<GCPadStatus> = Vec::new();
    if to <= from {
        return pads;
    }
    let mut f = from;
    while f < to
        invariant
            from <= f <= to,
            pads@ == replay_pads_spec(buffer@.remote, from, f as int),
        decreases to - f,
    {
        if let Some(input) = buffer.remote.get(&f) {
            pads.push(
                GCPadStatus {
                    buttons: input.buttons,
                    stick_x: input.stick_x,
                    stick_y: input.stick_y,
                    cstick_x: input.cstick_x,
                    cstick_y: input.cstick_y,
                    trigger_l: input.trigger_l,
                    trigger_r: input.trigger_r,
                },
            );
        }
        f += 1;
    }
    pads
}


/// What starting the engine reports: the path taken (the patched emulator's
/// control server, or the legacy memory polling) and the settings.
pub open spec fn start_message_spec(ipc: bool, local_player: u8, input_delay: u32, max_rollback: u32) -> Seq<char> {
    "Rollback engine started "@ + (if ipc { "[IPC/FORK]"@ } else { "[LEGACY]"@ }) + " (player "@ + dec_digits(
        local_player as nat,
    ) + ", delay "@ + dec_digits(input_delay as nat) + ", max rb "@ + dec_digits(max_rollback as nat) + ")"@
}

/// What starting the engine reports (see [`start_message_spec`]).
pub fn start_message(ipc: bool, local_player: u8, input_delay: u32, max_rollback: u32) -> (s: String)
    ensures
        s@ == start_message_spec(ipc, local_player, input_delay, max_rollback),
{
    let mut v: Vec<char> = Vec::new();
    push_str(&mut v, "Rollback engine started ");
    if ipc {
        push_str(&mut v, "[IPC/FORK]");
    } else {
        push_str(&mut v, "[LEGACY]");
    }
    push_str(&mut v, " (player ");
    push_dec(&mut v, local_player as u64);
    push_str(&mut v, ", delay ");
    push_dec(&mut v, input_delay as u64);
    push_str(&mut v, ", max rb ");
    push_dec(&mut v, max_rollback as u64);
    push_str(&mut v, ")");
    assert(v@ =~= start_message_spec(ipc, local_player, input_delay, max_rollback));
    string_of(&v)
}

/// What the memory-watching game loop does on one pass.
#[derive(Clone, Copy, Debug, PartialEq, Eq, Structural)]
pub enum MemoryLoopStep {
    /// The engine is idle: the loop returns.
    Exit,
    /// No emulator memory is attached: wait 100 ms and look again.
    WaitForAttach,
    /// The frame indicator has not moved: wait 0.5 ms and look again.
    WaitForFrame,
    /// The indicator changed: a new game frame begins.
    NewFrame,
}

/// One pass of the memory-watching game loop: it returns as soon as the
/// engine is idle; otherwise it waits for the emulator's memory, then for
/// the frame indicator to change from its last value.
pub fn memory_loop_step(state: EngineState, attached: bool, indicator: u16, last: u16) -> (s: MemoryLoopStep)
    ensures
        state == EngineState::Idle ==> s == MemoryLoopStep::Exit,
        state != EngineState::Idle && !attached ==> s == MemoryLoopStep::WaitForAttach,
        state != EngineState::Idle && attached && indicator == last ==> s == MemoryLoopStep::WaitForFrame,
        state != EngineState::Idle && attached && indicator != last ==> s == MemoryLoopStep::NewFrame,
{
    if state == EngineState::Idle {
        MemoryLoopStep::Exit
    } else if !attached {
        MemoryLoopStep::WaitForAttach
    } else if indicator == last {
        MemoryLoopStep::WaitForFrame
    } else {
        MemoryLoopStep::NewFrame
    }
}


/// The frames `from..to`, in order.
pub open spec fn frame_range(from: u32, to: int) -> Seq<u32> {
    Seq::new((to - from) as nat, |i: int| (from + i) as u32)
}

/// A replay from `from` to `to` gives, in frame order, the confirmed
/// remote input of each frame `f` with `from <= f < to` that has one, and
/// nothing for the others.
pub proof fn lemma_replay_pads_are_confirmed_inputs(remote: Map<u32, FrameInput>, from: u32, to: int)
    requires
        from <= to <= u32::MAX + 1,
    ensures
        replay_pads_spec(remote, from, to) == frame_range(from, to).filter_map(
            |f: u32| if remote.contains_key(f) { Some(pad_of(remote[f])) } else { None },
        ),
    decreases to - from,
{
    let pick = |f: u32| if remote.contains_key(f) { Some(pad_of(remote[f])) } else { None };
    if to == from {
        assert(frame_range(from, to) =~= Seq::<u32>::empty());
    } else {
        lemma_replay_pads_are_confirmed_inputs(remote, from, to - 1);
        assert(frame_range(from, to).drop_last() =~= frame_range(from, to - 1));
        assert(frame_range(from, to).last() == (to - 1) as u32);
        let rest = frame_range(from, to - 1).filter_map(pick);
        if remote.contains_key((to - 1) as u32) {
            assert(rest + seq![pad_of(remote[(to - 1) as u32])] =~= rest.push(pad_of(remote[(to - 1) as u32])));
        }
    }
}

/// When every frame of `from..to` has confirmed input, the replay has one
/// pad per frame, and its `k`-th pad is the confirmed input of frame
/// `from + k`.
pub proof fn lemma_replay_pads_all_confirmed(remote: Map<u32, FrameInput>, from: u32, to: int)
    requires
        from <= to <= u32::MAX + 1,
        forall|f: u32| from <= f < to ==> #[trigger] remote.contains_key(f),
    ensures
        replay_pads_spec(remote, from, to).len() == to - from,
        forall|k: int|
            0 <= k < to - from ==> #[trigger] replay_pads_spec(remote, from, to)[k] == pad_of(
                remote[(from + k) as u32],
            ),
    decreases to - from,
{
    if to > from {
        lemma_replay_pads_all_confirmed(remote, from, to - 1);
        assert(remote.contains_key((to - 1) as u32));
    }
}
} // verus!
