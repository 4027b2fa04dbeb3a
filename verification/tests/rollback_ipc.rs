use howlingwind::dolphin_mem::GCPadStatus;
use howlingwind::hw_ipc::HWPadInput;
use howlingwind::netplay::{FrameInput, InputPacket, NetplaySession};
use howlingwind::rollback_ipc::{
    frame_input_to_pad, hw_pad_to_frame_input, pad_to_frame_input, slot_for_frame, IpcLoopState, MAX_SLOTS,
};

fn fi(buttons: u16, sx: i8, tl: u8) -> FrameInput {
    FrameInput { buttons, stick_x: sx, stick_y: 0, cstick_x: 0, cstick_y: 0, trigger_l: tl, trigger_r: 0 }
}

#[test]
fn save_slots_cycle() {
    assert_eq!(slot_for_frame(0), 0);
    assert_eq!(slot_for_frame(17), 1);
    assert_eq!(slot_for_frame(31), 15);
}

#[test]
fn conversions_keep_every_field() {
    let g = GCPadStatus { buttons: 1, stick_x: 2, stick_y: 3, cstick_x: 4, cstick_y: 5, trigger_l: 6, trigger_r: 7 };
    let f = pad_to_frame_input(&g);
    assert_eq!((f.buttons, f.stick_x, f.stick_y, f.cstick_x, f.cstick_y, f.trigger_l, f.trigger_r), (1, 2, 3, 4, 5, 6, 7));
    let h = frame_input_to_pad(&f);
    assert_eq!(h, HWPadInput { buttons: 1, stick_x: 2, stick_y: 3, cstick_x: 4, cstick_y: 5, trigger_l: 6, trigger_r: 7 });
    assert_eq!(hw_pad_to_frame_input(&h), f);
}

fn pkt(frame: u32, input: FrameInput) -> InputPacket {
    InputPacket { frame, player_id: 1, input, checksum: 0 }
}

#[test]
fn loop_state_counts_from_first_frame() {
    let mut st = IpcLoopState::new();
    assert_eq!(st.slot_frames, vec![None; MAX_SLOTS as usize]);
    assert_eq!(st.on_frame(5000), 0);
    assert_eq!(st.on_frame(5003), 3);
    assert_eq!(st.first_dolphin_frame, Some(5000));
}

#[test]
fn each_frame_gets_its_own_remote_input() {
    let mut st = IpcLoopState::new();
    let mut session = NetplaySession::new(0, 2, 7);
    let received = vec![pkt(0, fi(1, 1, 0)), pkt(1, fi(2, 2, 0)), pkt(99999, fi(9, 9, 0))];
    let plan = st.plan_frame(&mut session, 0, fi(0x10, 0, 0), &received, 0);
    assert_eq!(plan.remote_pad, frame_input_to_pad(&fi(1, 1, 0)));
    assert!(!plan.predicted);
    assert_eq!(plan.remote_port, 1);
    assert_eq!(plan.local_redirect, None);
    assert_eq!(plan.save_slot, 0);
    assert!(plan.rewind.is_none());
    assert_eq!((plan.packet.frame, plan.packet.player_id, plan.packet.input), (0, 0, fi(0x10, 0, 0)));
    st.note_saved(0);
    let plan = st.plan_frame(&mut session, 1, fi(0x20, 0, 0), &vec![], 0);
    assert_eq!(plan.remote_pad, frame_input_to_pad(&fi(2, 2, 0)));
    assert!(!plan.predicted);
}

#[test]
fn misprediction_rewinds_and_replays() {
    let mut st = IpcLoopState::new();
    let mut session = NetplaySession::new(0, 2, 7);
    let l0 = fi(0x10, 1, 0);
    let l1 = fi(0x20, 2, 0);
    let p0 = st.plan_frame(&mut session, 0, l0, &vec![], 0);
    assert!(p0.predicted);
    assert_eq!(p0.remote_pad, frame_input_to_pad(&FrameInput::default()));
    st.note_saved(0);
    let p1 = st.plan_frame(&mut session, 1, l1, &vec![], 0);
    assert!(p1.predicted);
    st.note_saved(1);
    assert_eq!(st.slot_frames[0], Some(0));
    assert_eq!(st.slot_frames[1], Some(1));
    let r = fi(7, 7, 7);
    let p2 = st.plan_frame(&mut session, 2, fi(0x30, 3, 0), &vec![pkt(0, r), pkt(1, r)], 0);
    let (slot, inputs) = p2.rewind.clone().unwrap();
    assert_eq!(slot, 0);
    let rp = frame_input_to_pad(&r);
    assert_eq!(inputs, vec![(0, frame_input_to_pad(&l0), rp), (1, frame_input_to_pad(&l1), rp)]);
    assert_eq!(p2.remote_pad, rp);
    assert!(p2.predicted);
    assert_eq!(st.slot_frames[0], Some(0));
    assert_eq!(st.slot_frames[1], None);
    assert_eq!(st.slot_frames[2], None);
}

#[test]
fn guest_puts_remote_on_port_zero_and_local_on_port_one() {
    let mut st = IpcLoopState::new();
    let mut session = NetplaySession::new(1, 2, 7);
    let local = fi(0x40, -5, 9);
    let plan = st.plan_frame(&mut session, 0, local, &vec![pkt(0, fi(3, 3, 3))], 1);
    assert_eq!(plan.remote_port, 0);
    assert_eq!(plan.local_redirect, Some(frame_input_to_pad(&local)));
    assert_eq!(plan.remote_pad, frame_input_to_pad(&fi(3, 3, 3)));
    assert_eq!(plan.packet.player_id, 1);
}

#[test]
fn no_rewind_without_saved_state_or_beyond_window() {
    let mut st = IpcLoopState::new();
    let mut session = NetplaySession::new(0, 2, 1);
    for f in 0..3u32 {
        let _ = st.plan_frame(&mut session, f, fi(0, 0, 0), &vec![], 0);
        st.note_saved(f);
    }
    let plan = st.plan_frame(&mut session, 3, fi(0, 0, 0), &vec![pkt(1, fi(5, 5, 5))], 0);
    assert!(plan.rewind.is_none());
    let mut st = IpcLoopState::new();
    let mut session = NetplaySession::new(0, 2, 7);
    let _ = st.plan_frame(&mut session, 0, fi(0, 0, 0), &vec![], 0);
    let plan = st.plan_frame(&mut session, 1, fi(0, 0, 0), &vec![pkt(0, fi(5, 5, 5))], 0);
    assert!(plan.rewind.is_none());
}
