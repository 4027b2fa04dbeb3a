use howlingwind::dolphin_mem::{MatchOutcome, MemorySnapshot, SaveStateRing};
use howlingwind::netplay::{FrameInput, InputPacket, NetplaySession};
use howlingwind::rollback::{
    check_match_over, frame_indicator, memory_loop_step, MemoryLoopStep, is_ping_frame, is_sync_frame, record_state_hash, replay_pads,
    rollback_target, start_message, state_hash, str_eq, EngineState, MatchTracker, PlayerSample, RollbackConfig,
    RollbackEngine, RollbackState, TickAction, TickPlan, TrackerEvent,
};
use std::collections::HashMap;

fn ko(result: &str, frame: u32) -> MatchOutcome {
    MatchOutcome { result: result.to_string(), p1_health: 10, p2_health: 160, frame }
}

#[test]
fn default_config_and_idle_engine() {
    let c = RollbackConfig::default();
    assert_eq!((c.input_delay, c.max_rollback, c.save_state_capacity), (2, 7, 10));
    let e = RollbackEngine::new(c);
    assert_eq!(e.state, EngineState::Idle);
    assert_eq!(e.get_stats().rollback_count, 0);
}

#[test]
fn pause_and_resume_only_touch_matching_states() {
    let mut e = RollbackEngine::new(RollbackConfig::default());
    e.pause();
    assert_eq!(e.state, EngineState::Idle);
    e.start();
    assert_eq!(e.state, EngineState::Running);
    e.pause();
    assert_eq!(e.state, EngineState::Paused);
    e.resume();
    assert_eq!(e.state, EngineState::Running);
    e.stop();
    assert_eq!(e.state, EngineState::Idle);
}

#[test]
fn counters_are_recorded() {
    let mut e = RollbackEngine::new(RollbackConfig::default());
    e.record_rollback(4);
    e.record_rollback(2);
    let s = e.get_stats();
    assert_eq!((s.rollback_count, s.total_rollback_frames, s.last_rollback_depth), (2, 6, 2));
    e.record_prediction(true);
    e.record_prediction(false);
    assert_eq!((e.predictions_total, e.predictions_correct), (2, 1));
    e.record_frame(30, 28, 2);
    assert_eq!((e.stats.current_frame, e.stats.remote_frame, e.stats.frames_ahead, e.local_frame), (30, 28, 2, 30));
    e.record_desync(60, 1, 2);
    assert!(e.stats.desync_detected);
    assert_eq!((e.stats.desync_frame, e.stats.desync_local_hash, e.stats.desync_remote_hash), (60, 1, 2));
}

#[test]
fn rollback_target_is_earliest_within_window() {
    assert_eq!(rollback_target(&vec![], 10, 7), None);
    assert_eq!(rollback_target(&vec![5, 8], 10, 7), Some((5, 5)));
    assert_eq!(rollback_target(&vec![2], 10, 7), None);
    assert_eq!(rollback_target(&vec![10], 10, 7), None);
    assert_eq!(rollback_target(&vec![12], 10, 7), None);
}

#[test]
fn tick_skips_when_idle_and_proceeds_when_running() {
    let mut e = RollbackEngine::new(RollbackConfig::default());
    let mut s = NetplaySession::new(0, 2, 7);
    let ring = SaveStateRing::new(10);
    assert_eq!(e.plan_tick(&mut s, true, &ring, &vec![]), TickPlan::Skip);
    e.start();
    assert_eq!(e.plan_tick(&mut s, true, &ring, &vec![]), TickPlan::Proceed);
    match e.finish_tick(&mut s, None) {
        TickAction::Advance { frame, remote_input, is_predicted } => {
            assert_eq!(frame, 1);
            assert!(is_predicted);
            assert_eq!(remote_input, FrameInput::default());
        }
        other => panic!("unexpected {:?}", other),
    }
    assert_eq!(e.local_frame, 1);
    assert_eq!(s.current_frame, 1);
}

#[test]
fn tick_rolls_back_to_a_saved_frame() {
    let mut e = RollbackEngine::new(RollbackConfig::default());
    e.start();
    let mut s = NetplaySession::new(0, 2, 7);
    let mut ring = SaveStateRing::new(10);
    for f in 0..4u32 {
        ring.push(MemorySnapshot::new(f, 4));
        assert_eq!(e.plan_tick(&mut s, true, &ring, &vec![]), TickPlan::Proceed);
        let _ = e.finish_tick(&mut s, None);
    }
    let late = InputPacket {
        frame: 1,
        player_id: 1,
        input: FrameInput { buttons: 0x0100, stick_x: 0, stick_y: 0, cstick_x: 0, cstick_y: 0, trigger_l: 0, trigger_r: 0 },
        checksum: 0,
    };
    assert_eq!(e.plan_tick(&mut s, true, &ring, &vec![late]), TickPlan::Rollback { from_frame: 1, to_frame: 4, depth: 3 });
}

#[test]
fn tick_stalls_when_far_ahead() {
    let mut e = RollbackEngine::new(RollbackConfig::default());
    e.start();
    let mut s = NetplaySession::new(0, 2, 7);
    for _ in 0..8 {
        s.advance_frame();
    }
    let ring = SaveStateRing::new(10);
    assert_eq!(e.plan_tick(&mut s, true, &ring, &vec![]), TickPlan::Stall);
    assert_eq!(e.state, EngineState::Stalling);
    assert_eq!(e.stats.stall_count, 1);
}

#[test]
fn knockout_ends_the_tick() {
    let mut e = RollbackEngine::new(RollbackConfig::default());
    e.start();
    let mut s = NetplaySession::new(0, 2, 7);
    match e.finish_tick(&mut s, Some(ko("p1_win", 500))) {
        TickAction::MatchOver(o) => assert_eq!(o.result, "p1_win"),
        other => panic!("unexpected {:?}", other),
    }
    assert_eq!(e.state, EngineState::MatchOver);
}

#[test]
fn match_over_verdicts() {
    assert!(check_match_over(200, 200, 100).is_none());
    assert!(check_match_over(10, 20, 500).is_none());
    assert_eq!(check_match_over(150, 20, 500).unwrap().result, "p2_win");
    assert_eq!(check_match_over(20, 151, 500).unwrap().result, "p1_win");
    let d = check_match_over(150, 150, 500).unwrap();
    assert_eq!((d.result.as_str(), d.p1_health, d.p2_health, d.frame), ("draw", 150, 150, 500));
}

#[test]
fn tracker_counts_rounds_matches_and_set() {
    let mut t = MatchTracker::new(false);
    assert_eq!(t.matches_to_win_set, 1);
    assert!(matches!(t.observe(100, Some(ko("p1_win", 100))), TrackerEvent::Nothing));
    let mut frame = 400u32;
    for round in 0..3 {
        assert!(t.needs_ko_check(frame));
        assert!(matches!(t.observe(frame, Some(ko("p1_win", frame))), TrackerEvent::KoSeen));
        assert!(!t.needs_ko_check(frame + 1));
        assert!(matches!(t.observe(frame + 10, None), TrackerEvent::Nothing));
        let e = t.observe(frame + 180, None);
        if round < 2 {
            assert!(matches!(e, TrackerEvent::RoundCounted));
        } else {
            match e {
                TrackerEvent::SetOver { outcome, round_wins, set_wins } => {
                    assert_eq!(outcome.result, "p1_win");
                    assert_eq!(round_wins, (3, 0));
                    assert_eq!(set_wins, (1, 0));
                }
                _ => panic!("expected the set to end"),
            }
        }
        frame += 180 + 301;
    }
}

#[test]
fn ranked_set_needs_two_matches() {
    let mut t = MatchTracker::new(true);
    let mut frame = 400u32;
    let mut events = Vec::new();
    for _ in 0..3 {
        t.observe(frame, Some(ko("p2_win", frame)));
        events.push(t.observe(frame + 180, None));
        frame += 500;
    }
    match &events[2] {
        TrackerEvent::MatchWon { round_wins, set_wins } => {
            assert_eq!(*round_wins, (0, 3));
            assert_eq!(*set_wins, (0, 1));
        }
        _ => panic!("expected a won match"),
    }
    assert_eq!((t.p1_round_wins, t.p2_round_wins), (0, 0));
}

#[test]
fn draw_counts_for_no_one() {
    let mut t = MatchTracker::new(false);
    t.observe(400, Some(ko("draw", 400)));
    assert!(matches!(t.observe(580, None), TrackerEvent::RoundCounted));
    assert_eq!((t.p1_round_wins, t.p2_round_wins), (0, 0));
    assert_eq!(t.last_ko_frame, 580);
}

#[test]
fn rollback_state_records_set_end() {
    let mut rs = RollbackState::new();
    assert!(rs.match_end_info().is_none());
    rs.start(3, 8, false);
    assert_eq!(rs.engine.state, EngineState::Running);
    assert_eq!(rs.engine.config.max_rollback, 8);
    rs.apply(TrackerEvent::MatchWon { round_wins: (3, 1), set_wins: (1, 0) });
    assert_eq!(rs.set_wins, Some((1, 0)));
    assert!(rs.match_end_info().is_none());
    rs.apply(TrackerEvent::SetOver { outcome: ko("p1_win", 900), round_wins: (3, 2), set_wins: (2, 0) });
    assert_eq!(rs.engine.state, EngineState::MatchOver);
    let info = rs.match_end_info().unwrap();
    assert!(info.set_over);
    assert_eq!(info.outcome.result, "p1_win");
    rs.clear_match_end();
    assert!(rs.match_end_info().is_none());
}

#[test]
fn state_hash_is_crc_of_fields() {
    let p1 = PlayerSample { health: 1, chakra: 2, vertical_speed_bits: 0x3F800000, block_meter: 3 };
    let p2 = PlayerSample { health: 4, chakra: 5, vertical_speed_bits: 0, block_meter: 6 };
    let mut bytes = Vec::new();
    bytes.extend_from_slice(&1u16.to_le_bytes());
    bytes.extend_from_slice(&4u16.to_le_bytes());
    bytes.extend_from_slice(&2u16.to_le_bytes());
    bytes.extend_from_slice(&5u16.to_le_bytes());
    bytes.extend_from_slice(&0x3F800000u32.to_le_bytes());
    bytes.extend_from_slice(&0u32.to_le_bytes());
    bytes.extend_from_slice(&3u16.to_le_bytes());
    bytes.extend_from_slice(&6u16.to_le_bytes());
    assert_eq!(state_hash(&p1, &p2), crc32fast::hash(&bytes));
    let p1b = PlayerSample { health: 2, ..p1 };
    assert_ne!(state_hash(&p1, &p2), state_hash(&p1b, &p2));
}

#[test]
fn hash_history_is_pruned() {
    let mut h = HashMap::new();
    for i in 0..301u32 {
        record_state_hash(&mut h, i * 30, i);
    }
    assert!(h.len() <= 301);
    record_state_hash(&mut h, 9030, 7);
    assert!(!h.contains_key(&0));
    assert_eq!(h.get(&9030), Some(&7));
}

#[test]
fn frame_schedules_and_indicator() {
    assert!(!is_sync_frame(0));
    assert!(!is_sync_frame(60));
    assert!(is_sync_frame(90));
    assert!(!is_sync_frame(91));
    assert!(is_ping_frame(120));
    assert!(!is_ping_frame(0));
    assert_eq!(frame_indicator(0x80001000, Some(42), 7), 42);
    assert_eq!(frame_indicator(0x80001000, None, 7), 7);
    assert_eq!(frame_indicator(0x10, Some(42), 7), 7);
}

#[test]
fn replay_uses_confirmed_inputs_only() {
    let mut s = NetplaySession::new(0, 2, 7);
    let i = FrameInput { buttons: 0x0001, stick_x: 1, stick_y: 2, cstick_x: 3, cstick_y: 4, trigger_l: 5, trigger_r: 6 };
    s.input_buffer.add_remote(2, i);
    let pads = replay_pads(&s.input_buffer, 1, 4);
    assert_eq!(pads.len(), 1);
    assert_eq!(pads[0].buttons, 1);
    assert_eq!(pads[0].trigger_r, 6);
    assert!(replay_pads(&s.input_buffer, 3, 4).is_empty());
}

#[test]
fn start_message_names_the_path() {
    assert_eq!(start_message(true, 1, 2, 7), "Rollback engine started [IPC/FORK] (player 1, delay 2, max rb 7)");
    assert_eq!(start_message(false, 0, 3, 8), "Rollback engine started [LEGACY] (player 0, delay 3, max rb 8)");
    assert!(str_eq("abc", "abc"));
    assert!(!str_eq("abc", "abd"));
}

#[test]
fn tick_fails_when_not_attached_and_touches_nothing() {
    let mut e = RollbackEngine::new(RollbackConfig::default());
    let mut s = NetplaySession::new(0, 2, 7);
    let ring = SaveStateRing::new(10);
    e.start();
    let late = InputPacket { frame: 0, player_id: 1, input: FrameInput::default(), checksum: 0 };
    let plan = e.plan_tick(&mut s, false, &ring, &vec![late]);
    assert_eq!(plan, TickPlan::NotAttached);
    assert_eq!(s.input_buffer.latest_remote_frame, 0);
    assert_eq!(e.state, EngineState::Running);
    match plan.early_action() {
        Some(TickAction::Error(m)) => assert_eq!(m, "Not attached to Dolphin"),
        other => panic!("unexpected {:?}", other),
    }
}

#[test]
fn tick_plans_map_to_actions() {
    assert!(matches!(TickPlan::Skip.early_action(), Some(TickAction::Nothing)));
    assert!(matches!(TickPlan::Stall.early_action(), Some(TickAction::Stall)));
    assert!(TickPlan::Proceed.early_action().is_none());
    match (TickPlan::Rollback { from_frame: 3, to_frame: 7, depth: 4 }).early_action() {
        Some(TickAction::Rollback { from_frame, to_frame, depth }) => assert_eq!((from_frame, to_frame, depth), (3, 7, 4)),
        other => panic!("unexpected {:?}", other),
    }
}

#[test]
fn memory_loop_returns_when_idle() {
    assert_eq!(memory_loop_step(EngineState::Idle, true, 5, 4), MemoryLoopStep::Exit);
    assert_eq!(memory_loop_step(EngineState::Idle, false, 5, 5), MemoryLoopStep::Exit);
    assert_eq!(memory_loop_step(EngineState::Running, false, 5, 4), MemoryLoopStep::WaitForAttach);
    assert_eq!(memory_loop_step(EngineState::Running, true, 5, 5), MemoryLoopStep::WaitForFrame);
    assert_eq!(memory_loop_step(EngineState::Stalling, true, 6, 5), MemoryLoopStep::NewFrame);
}
