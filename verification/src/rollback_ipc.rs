//! The decisions of the game loop that drives the emulator over its control
//! server: frame numbering, which input goes to which port, when to save
//! the emulator state, and when and from where to replay frames.

use vstd::prelude::*;
use crate::dolphin_mem::GCPadStatus;
use crate::hw_ipc::HWPadInput;
use crate::netplay::{
    after_add_local, after_lookups, lemma_lookups_commute, lemma_no_lookups, local_at, receive_all, remote_lookup,
    sorted_frames, BufferState, FrameInput, InputBuffer, InputPacket, NetplaySession,
};

verus! {

/// Number of emulator save slots the loop cycles through.
pub const MAX_SLOTS: u32 = 16;

/// The save slot used for a frame.
pub fn slot_for_frame(frame: u32) -> (s: u32)
    ensures
        s == frame % MAX_SLOTS,
        s < MAX_SLOTS,
{
    frame % MAX_SLOTS
}

/// A pad read from memory, as network input.
pub fn pad_to_frame_input(pad: &GCPadStatus) -> (f: FrameInput)
    ensures
        f == (FrameInput {
            buttons: pad.buttons,
            stick_x: pad.stick_x,
            stick_y: pad.stick_y,
            cstick_x: pad.cstick_x,
            cstick_y: pad.cstick_y,
            trigger_l: pad.trigger_l,
            trigger_r: pad.trigger_r,
        }),
{
    FrameInput {
        buttons: pad.buttons,
        stick_x: pad.stick_x,
        stick_y: pad.stick_y,
        cstick_x: pad.cstick_x,
        cstick_y: pad.cstick_y,
        trigger_l: pad.trigger_l,
        trigger_r: pad.trigger_r,
    }
}

/// Network input, as a pad for the control server.
pub fn frame_input_to_pad(input: &FrameInput) -> (p: HWPadInput)
    ensures
        p == (HWPadInput {
            buttons: input.buttons,
            stick_x: input.stick_x,
            stick_y: input.stick_y,
            cstick_x: input.cstick_x,
            cstick_y: input.cstick_y,
            trigger_l: input.trigger_l,
            trigger_r: input.trigger_r,
        }),
{
    HWPadInput {
        buttons: input.buttons,
        stick_x: input.stick_x,
        stick_y: input.stick_y,
        cstick_x: input.cstick_x,
        cstick_y: input.cstick_y,
        trigger_l: input.trigger_l,
        trigger_r: input.trigger_r,
    }
}

/// A pad the control server reported, as network input.
pub fn hw_pad_to_frame_input(pad: &HWPadInput) -> (f: FrameInput)
    ensures
        f == (FrameInput {
            buttons: pad.buttons,
            stick_x: pad.stick_x,
            stick_y: pad.stick_y,
            cstick_x: pad.cstick_x,
            cstick_y: pad.cstick_y,
            trigger_l: pad.trigger_l,
            trigger_r: pad.trigger_r,
        }),
{
    FrameInput {
        buttons: pad.buttons,
        stick_x: pad.stick_x,
        stick_y: pad.stick_y,
        cstick_x: pad.cstick_x,
        cstick_y: pad.cstick_y,
        trigger_l: pad.trigger_l,
        trigger_r: pad.trigger_r,
    }
}

/// A pad as the control server takes it (see [`frame_input_to_pad`]).
pub open spec fn pad_of(input: FrameInput) -> HWPadInput {
    HWPadInput {
        buttons: input.buttons,
        stick_x: input.stick_x,
        stick_y: input.stick_y,
        cstick_x: input.cstick_x,
        cstick_y: input.cstick_y,
        trigger_l: input.trigger_l,
        trigger_r: input.trigger_r,
    }
}

/// The emulator port the remote player's input goes to.
pub open spec fn remote_port_of(local_player: u8) -> u32 {
    if local_player == 0 {
        1
    } else {
        0
    }
}

/// The pads of ports 0 and 1 for one frame: the host plays on port 0, the
/// guest on port 1.
pub open spec fn port_pads(local_player: u8, local: FrameInput, remote: FrameInput) -> (HWPadInput, HWPadInput) {
    if local_player == 0 {
        (pad_of(local), pad_of(remote))
    } else {
        (pad_of(remote), pad_of(local))
    }
}

/// What one replayed frame is given: its number and both ports' pads, the
/// local input recorded for it and the remote input the buffer has for it.
pub open spec fn replay_entry(s: BufferState, local_player: u8, f: u32) -> (u64, HWPadInput, HWPadInput) {
    let pads = port_pads(local_player, local_at(s, f), remote_lookup(s, f).0);
    (f as u64, pads.0, pads.1)
}

/// The frames `from` up to `to` (not included), as they are replayed.
pub open spec fn replay_inputs(s: BufferState, local_player: u8, from: u32, to: u32) -> Seq<(u64, HWPadInput, HWPadInput)> {
    Seq::new((to - from) as nat, |i: int| replay_entry(s, local_player, (from + i) as u32))
}

/// Whether a save slot holds the state saved at `frame`.
pub open spec fn slot_holds(slots: Seq<Option<u32>>, frame: u32) -> bool {
    slots[(frame % MAX_SLOTS) as int] == Some(frame)
}

/// The frame to rewind to, given the frames whose confirmed remote input
/// contradicted the prediction, in ascending order: the earliest of them,
/// when it lies behind the current frame by at most the rollback window and
/// its saved state is at hand; otherwise there is no rewind.
pub open spec fn rewind_target(mismatched: Seq<u32>, slots: Seq<Option<u32>>, frame: u32, max_rollback: u32) -> Option<u32> {
    if mismatched.len() > 0 && mismatched[0] < frame && frame - mismatched[0] <= max_rollback && slot_holds(
        slots,
        mismatched[0],
    ) {
        Some(mismatched[0])
    } else {
        None
    }
}

/// The frames whose remote input a pass looks up: those replayed, if any,
/// and the current one.
pub open spec fn frames_looked_up(target: Option<u32>, frame: u32) -> Set<u32> {
    Set::new(|k: u32| k == frame || (target matches Some(e) && e <= k && k < frame))
}

/// Whether a slot entry names a state saved strictly between frames `from` and `to`.
pub open spec fn saved_between(entry: Option<u32>, from: u32, to: u32) -> bool {
    entry matches Some(g) && from < g && g < to
}

/// The save slots after a pass planned: the current frame's slot is about
/// to be overwritten, and after a rewind to `e` every state saved after
/// `e` was computed from wrong input, so neither can be trusted.
pub open spec fn slots_after_plan(slots: Seq<Option<u32>>, target: Option<u32>, frame: u32) -> Seq<Option<u32>> {
    Seq::new(
        slots.len(),
        |i: int|
            if i == frame % MAX_SLOTS {
                None
            } else if target matches Some(e) && saved_between(slots[i], e, frame) {
                None
            } else {
                slots[i]
            },
    )
}

/// What the loop does at one frame boundary, in this order: send `packet`;
/// if `rewind` is set, roll back to that slot and replay those frames
/// (frame, port 0 pad, port 1 pad); give the remote player's port its pad
/// for this frame (confirmed, or predicted when `predicted`); on the guest,
/// put the local pad on port 1 as well; then save the state to `save_slot`.
#[derive(Clone, Debug)]
pub struct IpcFramePlan {
    pub packet: InputPacket,
    pub rewind: Option<(u32, Vec<(u64, HWPadInput, HWPadInput)>)>,
    pub remote_port: u32,
    pub remote_pad: HWPadInput,
    pub predicted: bool,
    pub local_redirect: Option<HWPadInput>,
    pub save_slot: u32,
}

/// The loop's memory between frames.
pub struct IpcLoopState {
    /// The emulator frame at which netplay frame 0 was seen.
    pub first_dolphin_frame: Option<u64>,
    /// For each save slot, the frame whose state it holds, if one can be trusted.
    pub slot_frames: Vec<Option<u32>>,
}

/// The netplay frame of an emulator frame: frames count from the first one
/// seen, so both players start at 0 whenever their emulator was launched.
pub open spec fn relative_frame(dolphin_frame: u64, first: u64) -> u32 {
    (dolphin_frame - first) as u32
}

impl IpcLoopState {
    /// One entry per save slot.
    pub open spec fn wf(&self) -> bool {
        self.slot_frames@.len() == MAX_SLOTS
    }

    /// No frame seen yet, no state saved.
    pub fn new() -> (s: Self)
        ensures
            s.wf(),
            s.first_dolphin_frame is None,
            forall|i: int| 0 <= i < MAX_SLOTS ==> #[trigger] s.slot_frames@[i] is None,
    {
        let mut slots: Vec<Option<u32>> = Vec::new();
        for i in 0..MAX_SLOTS
            invariant
                slots@.len() == i,
                forall|j: int| 0 <= j < i ==> #[trigger] slots@[j] is None,
        {
            slots.push(None);
        }
        IpcLoopState { first_dolphin_frame: None, slot_frames: slots }
    }

    /// Take an emulator frame boundary: the first one fixes netplay frame 0;
    /// the netplay frame is returned.
    pub fn on_frame(&mut self, dolphin_frame: u64) -> (frame: u32)
        requires
            old(self).first_dolphin_frame matches Some(f) ==> f <= dolphin_frame,
        ensures
            final(self).slot_frames@ == old(self).slot_frames@,
            final(self).first_dolphin_frame == Some(match old(self).first_dolphin_frame {
                Some(f) => f,
                None => dolphin_frame,
            }),
            frame == relative_frame(dolphin_frame, final(self).first_dolphin_frame.unwrap()),
    {
        let first = match self.first_dolphin_frame {
            Some(f) => f,
            None => dolphin_frame,
        };
        self.first_dolphin_frame = Some(first);
        (dolphin_frame - first) as u32
    }

    /// Record that the state of `frame` was saved to its slot.
    pub fn note_saved(&mut self, frame: u32)
        requires
            old(self).wf(),
        ensures
            final(self).wf(),
            final(self).slot_frames@ == old(self).slot_frames@.update((frame % MAX_SLOTS) as int, Some(frame)),
            final(self).first_dolphin_frame == old(self).first_dolphin_frame,
    {
        let slot = slot_for_frame(frame) as usize;
        self.slot_frames.set(slot, Some(frame));
    }

    /// Plan the pass for netplay frame `frame`, whose local input is `local`
    /// and before which `received` arrived from the peer, in arrival order.
    /// The local input is recorded and sent, and the received packets are
    /// folded into the session's buffer (see [`receive_all`]). A rewind goes
    /// to the earliest frame whose prediction they contradicted (see
    /// [`rewind_target`]) and replays every frame from it up to this one with
    /// the buffer's inputs. The remote input for this frame is the buffer's,
    /// confirmed or predicted. The state is saved to this frame's slot.
    pub fn plan_frame(
        &mut self,
        session: &mut NetplaySession,
        frame: u32,
        local: FrameInput,
        received: &Vec<InputPacket>,
        local_player: u8,
    ) -> (plan: IpcFramePlan)
        requires
            old(self).wf(),
        ensures
            final(self).wf(),
            final(self).first_dolphin_frame == old(self).first_dolphin_frame,
            *final(session) == (NetplaySession { input_buffer: final(session).input_buffer, ..*old(session) }),
            plan.packet == (InputPacket { frame, player_id: local_player, input: local, checksum: 0 }),
            plan.remote_port == remote_port_of(local_player),
            plan.local_redirect == (if local_player == 0 {
                None
            } else {
                Some(pad_of(local))
            }),
            plan.save_slot == frame % MAX_SLOTS,
            ({
                let got = receive_all(after_add_local(old(session).input_buffer@, frame, local), received@);
                let target = rewind_target(sorted_frames(got.1), old(self).slot_frames@, frame, old(session).max_rollback);
                &&& (match target {
                    None => plan.rewind is None,
                    Some(e) => plan.rewind matches Some(rw) && rw.0 == e % MAX_SLOTS && rw.1@ == replay_inputs(
                        got.0,
                        local_player,
                        e,
                        frame,
                    ),
                })
                &&& plan.remote_pad == pad_of(remote_lookup(got.0, frame).0)
                &&& plan.predicted == remote_lookup(got.0, frame).1
                &&& final(session).input_buffer@ == after_lookups(got.0, frames_looked_up(target, frame))
                &&& final(self).slot_frames@ == slots_after_plan(old(self).slot_frames@, target, frame)
            }),
    {
        session.input_buffer.add_local(frame, local);
        let packet = InputPacket { frame, player_id: local_player, input: local, checksum: 0 };
        let mismatched = session.process_received(received);
        let ghost s1 = session.input_buffer@;
        let ghost slots0 = self.slot_frames@;
        let mut target: Option<u32> = None;
        if mismatched.len() > 0 {
            let e = mismatched[0];
            if e < frame && frame - e <= session.max_rollback {
                match self.slot_frames[slot_for_frame(e) as usize] {
                    Some(g) => {
                        if g == e {
                            target = Some(e);
                        }
                    },
                    None => {},
                }
            }
        }
        assert(target == rewind_target(mismatched@, slots0, frame, session.max_rollback));
        let ghost looked = match target {
            Some(e) => Set::new(|k: u32| e <= k && k < frame),
            None => Set::<u32>::empty(),
        };
        proof {
            lemma_no_lookups(s1);
        }
        let rewind = match target {
            Some(e) => {
                let inputs = replay_from(&mut session.input_buffer, local_player, e, frame);
                forget_after(&mut self.slot_frames, e, frame);
                Some((slot_for_frame(e), inputs))
            },
            None => None,
        };
        assert(session.input_buffer@ == after_lookups(s1, looked));
        proof {
            lemma_lookups_commute(s1, looked, frame);
        }
        let (remote, predicted) = session.input_buffer.get_remote(frame);
        assert(looked.insert(frame) =~= frames_looked_up(target, frame));
        self.slot_frames.set(slot_for_frame(frame) as usize, None);
        assert(self.slot_frames@ =~= slots_after_plan(slots0, target, frame));
        let local_redirect = if local_player == 0 {
            None
        } else {
            Some(frame_input_to_pad(&local))
        };
        IpcFramePlan {
            packet,
            rewind,
            remote_port: if local_player == 0 {
                1
            } else {
                0
            },
            remote_pad: frame_input_to_pad(&remote),
            predicted,
            local_redirect,
            save_slot: slot_for_frame(frame),
        }
    }
}

/// Look up and collect the inputs of the frames `from` up to `to` (not
/// included) for a replay (see [`replay_inputs`]).
fn replay_from(buffer: &mut InputBuffer, local_player: u8, from: u32, to: u32) -> (inputs: Vec<(u64, HWPadInput, HWPadInput)>)
    requires
        from <= to,
    ensures
        inputs@ == replay_inputs(old(buffer)@, local_player, from, to),
        final(buffer)@ == after_lookups(old(buffer)@, Set::new(|k: u32| from <= k && k < to)),
{
    let ghost s = buffer@;
    proof {
        lemma_no_lookups(s);
    }
    assert(Set::new(|k: u32| from <= k && k < from) =~= Set::<u32>::empty());
    let mut inputs: Vec<(u64, HWPadInput, HWPadInput)> = Vec::new();
    assert(inputs@ =~= replay_inputs(s, local_player, from, from));
    let mut f: u32 = from;
    while f < to
        invariant
            from <= f <= to,
            buffer@ == after_lookups(s, Set::new(|k: u32| from <= k && k < f)),
            inputs@ == replay_inputs(s, local_player, from, f),
        decreases to - f,
    {
        let ghost looked = Set::new(|k: u32| from <= k && k < f);
        proof {
            lemma_lookups_commute(s, looked, f);
        }
        let l = buffer.local_input(f);
        let (r, _) = buffer.get_remote(f);
        let entry = if local_player == 0 {
            (f as u64, frame_input_to_pad(&l), frame_input_to_pad(&r))
        } else {
            (f as u64, frame_input_to_pad(&r), frame_input_to_pad(&l))
        };
        inputs.push(entry);
        assert(looked.insert(f) =~= Set::new(|k: u32| from <= k && k < f + 1));
        f = f + 1;
        assert(inputs@ =~= replay_inputs(s, local_player, from, f));
    }
    inputs
}

/// Forget every slot holding a state saved strictly between frames `from`
/// and `to`.
fn forget_after(slots: &mut Vec<Option<u32>>, from: u32, to: u32)
    ensures
        final(slots)@ == Seq::new(
            old(slots)@.len(),
            |i: int|
                if saved_between(old(slots)@[i], from, to) {
                    None
                } else {
                    old(slots)@[i]
                },
        ),
{
    let ghost before = slots@;
    let n = slots.len();
    for i in 0..n
        invariant
            n == before.len(),
            slots@.len() == n,
            forall|j: int|
                0 <= j < n ==> #[trigger] slots@[j] == (if j < i && saved_between(before[j], from, to) {
                    None
                } else {
                    before[j]
                }),
    {
        match slots[i] {
            Some(g) => {
                if from < g && g < to {
                    slots.set(i, None);
                }
            },
            None => {},
        }
    }
    assert(slots@ =~= Seq::new(
        before.len(),
        |i: int|
            if saved_between(before[i], from, to) {
                None
            } else {
                before[i]
            },
    ));
}


/// Each replayed frame is given its players on the same ports as a live
/// frame: the `k`-th entry of a replay from `from` is frame `from + k`; on
/// the host (player 0) port 0 has the local input and port 1 the remote
/// one; on the guest port 0 has the remote input and port 1 the local one.
/// Either way the remote input is on [`remote_port_of`], as in the live
/// frame, and the local input on the other port.
pub proof fn lemma_replay_ports_match_live_frame(s: BufferState, local_player: u8, from: u32, to: u32, k: int)
    requires
        from <= to,
        0 <= k < to - from,
    ensures
        ({
            let e = replay_inputs(s, local_player, from, to)[k];
            let f = (from + k) as u32;
            let remote = (HWPadInput {
                buttons: remote_lookup(s, f).0.buttons,
                stick_x: remote_lookup(s, f).0.stick_x,
                stick_y: remote_lookup(s, f).0.stick_y,
                cstick_x: remote_lookup(s, f).0.cstick_x,
                cstick_y: remote_lookup(s, f).0.cstick_y,
                trigger_l: remote_lookup(s, f).0.trigger_l,
                trigger_r: remote_lookup(s, f).0.trigger_r,
            });
            let local = (HWPadInput {
                buttons: local_at(s, f).buttons,
                stick_x: local_at(s, f).stick_x,
                stick_y: local_at(s, f).stick_y,
                cstick_x: local_at(s, f).cstick_x,
                cstick_y: local_at(s, f).cstick_y,
                trigger_l: local_at(s, f).trigger_l,
                trigger_r: local_at(s, f).trigger_r,
            });
            &&& replay_inputs(s, local_player, from, to).len() == to - from
            &&& e.0 == from + k
            &&& local_player == 0 ==> e.1 == local && e.2 == remote
            &&& local_player != 0 ==> e.1 == remote && e.2 == local
            &&& (if remote_port_of(local_player) == 0 { e.1 } else { e.2 }) == remote
            &&& (if remote_port_of(local_player) == 0 { e.2 } else { e.1 }) == local
        }),
{
}
} // verus!
