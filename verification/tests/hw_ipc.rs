use howlingwind::hw_ipc::{
    ack_reply, control_reply, frame_advance_reply, frame_boundary, get_frame_reply, get_input_reply, is_welcome,
    ping_reply, rollback_commands, rollback_progress, save_state_reply, split_first, Command, HWPadInput, HWResponse, ResponseError, RollbackProgress,
};

fn pad() -> HWPadInput {
    HWPadInput { buttons: 0x00FF, stick_x: -1, stick_y: 2, cstick_x: 0, cstick_y: -128, trigger_l: 255, trigger_r: 0 }
}

fn ack(command: &str, args: &str) -> HWResponse {
    HWResponse::Ack { command: command.to_string(), args: args.to_string() }
}

#[test]
fn pad_arguments_format() {
    assert_eq!(pad().to_ipc_args(), "0x00FF -1 2 0 -128 255 0");
    assert_eq!(HWPadInput::default().to_ipc_args(), "0x0000 0 0 0 0 0 0");
    let big = HWPadInput { buttons: 0xABCD, ..HWPadInput::default() };
    assert_eq!(big.to_ipc_args(), "0xABCD 0 0 0 0 0 0");
}

#[test]
fn command_lines() {
    assert_eq!(Command::Ping.line(), "PING\n");
    assert_eq!(Command::SaveState(3).line(), "SAVE_STATE 3\n");
    assert_eq!(Command::LoadState(15).line(), "LOAD_STATE 15\n");
    assert_eq!(Command::FrameAdvance.line(), "FRAME_ADVANCE\n");
    assert_eq!(Command::SetInput(1, pad()).line(), "SET_INPUT 1 0x00FF -1 2 0 -128 255 0\n");
    assert_eq!(Command::GetInput(0).line(), "GET_INPUT 0\n");
    assert_eq!(Command::ClearInput(1).line(), "CLEAR_INPUT 1\n");
    assert_eq!(Command::GetFrame.line(), "GET_FRAME\n");
    assert_eq!(Command::Pause.line(), "PAUSE\n");
    assert_eq!(Command::Resume.line(), "RESUME\n");
}

#[test]
fn split_at_first_space() {
    assert_eq!(split_first("SAVE_STATE 3 1200"), ("SAVE_STATE".to_string(), "3 1200".to_string()));
    assert_eq!(split_first("PAUSE"), ("PAUSE".to_string(), String::new()));
    assert_eq!(split_first(" x"), (String::new(), "x".to_string()));
}

#[test]
fn reply_lines_are_read() {
    match HWResponse::parse("  OK SAVE_STATE 3 1200 \r\n") {
        HWResponse::Ack { command, args } => {
            assert_eq!(command, "SAVE_STATE");
            assert_eq!(args, "3 1200");
        }
        other => panic!("unexpected {:?}", other),
    }
    match HWResponse::parse("ERR LOAD_STATE no such slot") {
        HWResponse::Error { command, reason } => {
            assert_eq!(command, "LOAD_STATE");
            assert_eq!(reason, "no such slot");
        }
        other => panic!("unexpected {:?}", other),
    }
    assert!(matches!(HWResponse::parse("FRAME 42"), HWResponse::Frame(42)));
    assert!(matches!(HWResponse::parse("FRAME +7 "), HWResponse::Frame(7)));
    assert!(matches!(HWResponse::parse("FRAME x"), HWResponse::Frame(0)));
    match HWResponse::parse("STATE  running ") {
        HWResponse::State(s) => assert_eq!(s, "running"),
        other => panic!("unexpected {:?}", other),
    }
    assert!(matches!(HWResponse::parse("PONG"), HWResponse::Pong));
    assert!(matches!(HWResponse::parse("PONG!"), HWResponse::Unknown(_)));
    match HWResponse::parse("EVENT FRAME_BOUNDARY 77") {
        HWResponse::Event { event_type, data } => {
            assert_eq!(event_type, "FRAME_BOUNDARY");
            assert_eq!(data, "77");
        }
        other => panic!("unexpected {:?}", other),
    }
    let hello = HWResponse::parse("HOWLINGWIND 1.0");
    assert!(is_welcome(&hello));
    match hello {
        HWResponse::Ack { command, args } => {
            assert_eq!(command, "WELCOME");
            assert_eq!(args, "HOWLINGWIND 1.0");
        }
        other => panic!("unexpected {:?}", other),
    }
    match HWResponse::parse(" garbage ") {
        HWResponse::Unknown(s) => assert_eq!(s, "garbage"),
        other => panic!("unexpected {:?}", other),
    }
}

#[test]
fn frame_boundaries_go_to_the_frame_queue() {
    assert_eq!(frame_boundary(&HWResponse::parse("EVENT FRAME_BOUNDARY 77")), Some(77));
    assert_eq!(frame_boundary(&HWResponse::parse("EVENT FRAME_BOUNDARY x")), None);
    assert_eq!(frame_boundary(&HWResponse::parse("EVENT OTHER 77")), None);
    assert_eq!(frame_boundary(&HWResponse::Pong), None);
    assert!(!is_welcome(&ack("SAVE_STATE", "")));
}

#[test]
fn command_replies() {
    assert!(ping_reply(HWResponse::Pong).is_ok());
    assert!(matches!(ping_reply(HWResponse::Frame(1)), Err(ResponseError::Unexpected(HWResponse::Frame(1)))));
    assert!(ack_reply(ack("LOAD_STATE", "3")).is_ok());
    match ack_reply(HWResponse::Error { command: "LOAD_STATE".into(), reason: "bad slot".into() }) {
        Err(ResponseError::Refused(r)) => assert_eq!(r, "bad slot"),
        other => panic!("unexpected {:?}", other),
    }
    assert!(matches!(ack_reply(HWResponse::Pong), Err(ResponseError::Unexpected(HWResponse::Pong))));
    assert!(control_reply(ack("PAUSE", "")).is_ok());
    assert!(matches!(
        control_reply(HWResponse::Error { command: "PAUSE".into(), reason: "x".into() }),
        Err(ResponseError::Unexpected(_))
    ));
    assert_eq!(save_state_reply(ack("SAVE_STATE", "3 1200")).unwrap(), 1200);
    assert_eq!(save_state_reply(ack("SAVE_STATE", "3")).unwrap(), 0);
    assert_eq!(save_state_reply(ack("SAVE_STATE", "3 x")).unwrap(), 0);
    assert_eq!(frame_advance_reply(ack("FRAME_ADVANCE", " 901 ")).unwrap(), 901);
    assert_eq!(frame_advance_reply(ack("FRAME_ADVANCE", "")).unwrap(), 0);
    assert_eq!(get_frame_reply(HWResponse::Frame(5)).unwrap(), 5);
    assert!(get_frame_reply(ack("GET_FRAME", "5")).is_err());
}

#[test]
fn controller_readings() {
    let p = get_input_reply(ack("GET_INPUT", "0 0x0A10 -5 6 0 0 30 255")).unwrap();
    assert_eq!(p, HWPadInput { buttons: 0x0A10, stick_x: -5, stick_y: 6, cstick_x: 0, cstick_y: 0, trigger_l: 30, trigger_r: 255 });
    let q = get_input_reply(ack("GET_INPUT", "1   0X0a10 x 6 0 -128 300 7")).unwrap();
    assert_eq!(q, HWPadInput { buttons: 0x0A10, stick_x: 0, stick_y: 6, cstick_x: 0, cstick_y: -128, trigger_l: 0, trigger_r: 7 });
    match get_input_reply(ack("GET_INPUT", "1 2 3")) {
        Err(ResponseError::Malformed(a)) => assert_eq!(a, "1 2 3"),
        other => panic!("unexpected {:?}", other),
    }
    let written = pad();
    let read = get_input_reply(ack("GET_INPUT", &format!("0 {}", written.to_ipc_args()))).unwrap();
    assert_eq!(read, written);
}

#[test]
fn rollback_script() {
    let a = pad();
    let b = HWPadInput::default();
    let lines: Vec<String> = rollback_commands(3, &vec![(10, a, b), (11, b, a)]).iter().map(|c| c.line()).collect();
    assert_eq!(
        lines,
        vec![
            "PAUSE\n",
            "LOAD_STATE 3\n",
            "SET_INPUT 0 0x00FF -1 2 0 -128 255 0\n",
            "SET_INPUT 1 0x0000 0 0 0 0 0 0\n",
            "FRAME_ADVANCE\n",
            "SET_INPUT 0 0x0000 0 0 0 0 0 0\n",
            "SET_INPUT 1 0x00FF -1 2 0 -128 255 0\n",
            "FRAME_ADVANCE\n",
            "CLEAR_INPUT 0\n",
            "CLEAR_INPUT 1\n",
            "RESUME\n",
        ]
    );
    assert_eq!(rollback_commands(0, &vec![]).len(), 5);
}

#[test]
fn pad_arguments_split_into_seven_fields_that_read_back() {
    let pads = [
        HWPadInput { buttons: 0, stick_x: 0, stick_y: 0, cstick_x: 0, cstick_y: 0, trigger_l: 0, trigger_r: 0 },
        HWPadInput { buttons: 0xFFFF, stick_x: -128, stick_y: 127, cstick_x: -1, cstick_y: 1, trigger_l: 255, trigger_r: 9 },
        HWPadInput { buttons: 0x0A05, stick_x: 100, stick_y: -100, cstick_x: 10, cstick_y: -10, trigger_l: 10, trigger_r: 100 },
    ];
    for p in pads {
        let args = p.to_ipc_args();
        let t: Vec<&str> = args.split(' ').collect();
        assert_eq!(t.len(), 7);
        assert!(t[0].starts_with("0x") && t[0].len() == 6);
        assert_eq!(u16::from_str_radix(&t[0][2..], 16), Ok(p.buttons));
        assert_eq!(t[1].parse::<i8>(), Ok(p.stick_x));
        assert_eq!(t[2].parse::<i8>(), Ok(p.stick_y));
        assert_eq!(t[3].parse::<i8>(), Ok(p.cstick_x));
        assert_eq!(t[4].parse::<i8>(), Ok(p.cstick_y));
        assert_eq!(t[5].parse::<u8>(), Ok(p.trigger_l));
        assert_eq!(t[6].parse::<u8>(), Ok(p.trigger_r));
        let read = get_input_reply(ack("GET_INPUT", &format!("3 {}", args))).unwrap();
        assert_eq!(read, p);
    }
}

fn err(command: &str, reason: &str) -> HWResponse {
    HWResponse::Error { command: command.to_string(), reason: reason.to_string() }
}

#[test]
fn rollback_progress_sends_in_order_and_reports_last_advance() {
    let inputs = vec![(10u64, pad(), pad()), (11u64, pad(), pad())];
    assert!(matches!(rollback_progress(3, &inputs, vec![]), RollbackProgress::Send(Command::Pause)));
    let two = vec![ack("PAUSE", ""), ack("LOAD_STATE", "3")];
    assert!(matches!(rollback_progress(3, &inputs, two), RollbackProgress::Send(Command::SetInput(0, _))));
    let all = vec![
        ack("PAUSE", ""),
        ack("LOAD_STATE", "3"),
        ack("SET_INPUT", "0"),
        ack("SET_INPUT", "1"),
        ack("FRAME_ADVANCE", "41"),
        ack("SET_INPUT", "0"),
        ack("SET_INPUT", "1"),
        ack("FRAME_ADVANCE", " 42 "),
        ack("CLEAR_INPUT", "0"),
        ack("CLEAR_INPUT", "1"),
    ];
    assert!(matches!(rollback_progress(3, &inputs, all.clone()), RollbackProgress::Send(Command::Resume)));
    let mut done = all;
    done.push(ack("RESUME", ""));
    assert!(matches!(rollback_progress(3, &inputs, done), RollbackProgress::Done(42)));
}

#[test]
fn rollback_without_replay_reports_frame_zero() {
    let replies = vec![ack("PAUSE", ""), ack("LOAD_STATE", "0"), ack("CLEAR_INPUT", "0"), ack("CLEAR_INPUT", "1"), ack("RESUME", "")];
    assert!(matches!(rollback_progress(0, &vec![], replies), RollbackProgress::Done(0)));
}

#[test]
fn rollback_stops_at_first_failed_reply() {
    let inputs = vec![(10u64, pad(), pad())];
    let replies = vec![ack("PAUSE", ""), err("LOAD_STATE", "no such slot"), ack("SET_INPUT", "0")];
    match rollback_progress(5, &inputs, replies) {
        RollbackProgress::Failed(ResponseError::Refused(m)) => assert_eq!(m, "no such slot"),
        other => panic!("unexpected {:?}", other),
    }
    let replies = vec![err("PAUSE", "busy")];
    match rollback_progress(5, &inputs, replies) {
        RollbackProgress::Failed(ResponseError::Unexpected(HWResponse::Error { reason, .. })) => assert_eq!(reason, "busy"),
        other => panic!("unexpected {:?}", other),
    }
    let replies = vec![ack("PAUSE", ""), ack("LOAD_STATE", "5"), HWResponse::Pong];
    assert!(matches!(
        rollback_progress(5, &inputs, replies),
        RollbackProgress::Failed(ResponseError::Unexpected(HWResponse::Pong))
    ));
}
