use howlingwind::diagnostics::{
    log_crash, log_desync, log_error, log_info, log_ipc, log_line, log_net, log_tail, log_warn, timestamp,
};

#[test]
fn timestamps() {
    assert_eq!(timestamp(0, 0), "00:00:00.000");
    assert_eq!(timestamp(3661, 5), "01:01:01.005");
    assert_eq!(timestamp(86399, 999), "23:59:59.999");
    assert_eq!(timestamp(86400 + 7200, 42), "02:00:00.042");
}

#[test]
fn log_lines() {
    assert_eq!(log_line("12:00:00.000", "X", "hi"), "[12:00:00.000] [X] hi\n");
    assert_eq!(log_info("t", "m"), "[t] [INFO] m\n");
    assert_eq!(log_warn("t", "m"), "[t] [WARN] m\n");
    assert_eq!(log_error("t", "m"), "[t] [ERROR] m\n");
    assert_eq!(log_ipc("t", "m"), "[t] [IPC] m\n");
    assert_eq!(log_net("t", "m"), "[t] [NET] m\n");
    assert_eq!(log_crash("t", "m"), "[t] [CRASH] m\n");
    assert_eq!(
        log_desync("t", 600, 0xAB, 0xDEADBEEF),
        "[t] [DESYNC] Frame 600 \u{2014} local_hash=0x000000AB remote_hash=0xDEADBEEF\n"
    );
}

#[test]
fn log_tail_lines() {
    let log = "a\nb\r\nc\nd\n";
    assert_eq!(log_tail(log, Some(2)), "c\nd");
    assert_eq!(log_tail(log, Some(10)), "a\nb\nc\nd");
    assert_eq!(log_tail(log, Some(0)), "");
    assert_eq!(log_tail("", None), "");
    let long: String = (0..150).map(|i| format!("{}\n", i)).collect();
    let tail = log_tail(&long, None);
    assert!(tail.starts_with("50\n51\n"));
    assert!(tail.ends_with("\n149"));
}
