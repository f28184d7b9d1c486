use chat_compressor::clock::now_ns;
use chat_compressor::loadtest::{
    batch_ranges, bench_latency_ns, bench_payload, bench_timestamp, broadcast_expected_deliveries,
    frame_action, is_retryable_connect_error, numbered, room_expected_deliveries, room_pairs,
    text_contains, too_many_failures, ConnectFailure, ConnectRetry, ConnectStep, FrameAction,
    FrameKind, FunctionalReport,
};
use chat_compressor::number::decimal_string;

#[test]
fn batches_cover_in_order() {
    assert_eq!(batch_ranges(5, 2), vec![(0, 2), (2, 4), (4, 5)]);
    assert_eq!(batch_ranges(4, 2), vec![(0, 2), (2, 4)]);
    assert_eq!(batch_ranges(0, 250), vec![]);
    assert_eq!(batch_ranges(100, 250), vec![(0, 100)]);
    assert_eq!(batch_ranges(3, usize::MAX), vec![(0, 3)]);
}

#[test]
fn broadcast_expectations_match_the_readme() {
    assert_eq!(broadcast_expected_deliveries(25, 20), 12_000);
    assert_eq!(broadcast_expected_deliveries(50, 10), 24_500);
    assert_eq!(broadcast_expected_deliveries(100, 10), 99_000);
    assert_eq!(broadcast_expected_deliveries(250, 5), 311_250);
    assert_eq!(broadcast_expected_deliveries(500, 3), 748_500);
    assert_eq!(broadcast_expected_deliveries(0, 3), 0);
    assert_eq!(broadcast_expected_deliveries(1, 3), 0);
}

#[test]
fn room_expectations() {
    assert_eq!(room_pairs(100), 50);
    assert_eq!(room_pairs(7), 3);
    assert_eq!(room_expected_deliveries(50, 10), 1_000);
    assert_eq!(room_expected_deliveries(0, 10), 0);
}

#[test]
fn ping_failure_threshold() {
    assert!(!too_many_failures(5, 50));
    assert!(too_many_failures(6, 50));
    assert!(too_many_failures(1, 5));
    assert!(!too_many_failures(0, 5));
}

#[test]
fn numbered_commands() {
    assert_eq!(numbered("/name u", 12), "/name u12");
    assert_eq!(numbered("/join room", 0), "/join room0");
}

#[test]
fn decimal_notation() {
    assert_eq!(decimal_string(0), "0");
    assert_eq!(decimal_string(1050), "1050");
    assert_eq!(decimal_string(u128::MAX), u128::MAX.to_string());
}

#[test]
fn bench_lines_read_back() {
    let p = bench_payload(12, 3, 1_723_000_000_123_456_789);
    assert_eq!(p, "BENCH|12|3|1723000000123456789");
    assert_eq!(bench_timestamp(&format!("u12: {}", p)), Some(1_723_000_000_123_456_789));
    assert_eq!(bench_timestamp("r4: BENCH|4|0|+7|junk"), Some(7));
    assert_eq!(bench_timestamp("a: b: BENCH|1|2|3"), None);
    assert_eq!(bench_timestamp("BENCH|1|2|3"), None);
    assert_eq!(bench_timestamp("u1: BENCH|1|2"), None);
    assert_eq!(bench_timestamp("u1: BENCHX|1|2|3"), None);
    assert_eq!(bench_timestamp("u1: BENCH|1|2|-3"), None);
    assert_eq!(bench_timestamp("u1: BENCH|1|2|"), None);
    assert_eq!(bench_timestamp("u1: BENCH|||9"), Some(9));
    assert_eq!(bench_timestamp("u1: BENCH|1|2|340282366920938463463374607431768211456"), None);
    assert_eq!(
        bench_timestamp("u1: BENCH|1|2|340282366920938463463374607431768211455"),
        Some(u128::MAX)
    );
}

#[test]
fn bench_latency_never_negative() {
    assert_eq!(bench_latency_ns("u1: BENCH|1|1|100", 350), Some(250));
    assert_eq!(bench_latency_ns("u1: BENCH|1|1|100", 50), Some(0));
    assert_eq!(bench_latency_ns("hello", 50), None);
}

#[test]
fn retryable_errors() {
    assert!(is_retryable_connect_error("IO error: Can't assign requested address (os error 49)"));
    assert!(is_retryable_connect_error("Address already in use"));
    assert!(is_retryable_connect_error("Too many open files (os error 24)"));
    assert!(!is_retryable_connect_error("Connection refused (os error 61)"));
}

#[test]
fn connect_retries_with_growing_pauses() {
    let mut r = ConnectRetry::new();
    assert_eq!(r.last_error(), "connect failed");
    let mut waits = Vec::new();
    for _ in 0..6 {
        match r.record_failure(ConnectFailure::TimedOut) {
            ConnectStep::Wait { ms, retry } => waits.push((ms, retry)),
            ConnectStep::GiveUp => panic!("timeouts are retried"),
        }
    }
    assert_eq!(
        waits,
        vec![(40, true), (80, true), (120, true), (160, true), (200, true), (240, false)]
    );
    assert_eq!(r.last_error(), "connect timeout");
}

#[test]
fn connect_gives_up_on_hard_errors() {
    let mut r = ConnectRetry::new();
    let step = r.record_failure(ConnectFailure::Error("Address already in use".to_string()));
    assert!(step == ConnectStep::Wait { ms: 40, retry: true });
    let step = r.record_failure(ConnectFailure::Error("Connection refused".to_string()));
    assert!(step == ConnectStep::GiveUp);
    assert_eq!(r.last_error(), "Connection refused");
}

#[test]
fn frames() {
    assert!(frame_action(FrameKind::Text) == FrameAction::Deliver);
    assert!(frame_action(FrameKind::Ping) == FrameAction::Skip);
    assert!(frame_action(FrameKind::Pong) == FrameAction::Skip);
    assert!(frame_action(FrameKind::Raw) == FrameAction::Skip);
    assert!(frame_action(FrameKind::Binary) == FrameAction::Reject);
    assert!(frame_action(FrameKind::Close) == FrameAction::Reject);
}

#[test]
fn report_passes_only_when_all_checks_pass() {
    let mut r = FunctionalReport::new();
    assert!(r.passed());
    r.push("connect three clients", true, "ws handshake ok".to_string());
    assert!(r.passed());
    r.push("/ping", false, "got nope".to_string());
    r.push("/who", true, "Online: Bob, Cara".to_string());
    assert!(!r.passed());
    assert_eq!(r.checks().len(), 3);
    assert_eq!(r.checks()[1].name, "/ping");
}

#[test]
fn contains_matches_std() {
    for (h, n) in [("Alice: hello-lobby", "hello"), ("abc", ""), ("", "a"), ("aab", "ab"), ("(DM from Alice) x", "(DM from Alice)")] {
        assert_eq!(text_contains(h, n), h.contains(n));
    }
}

#[test]
fn clock_reads_after_epoch() {
    let t = now_ns().unwrap();
    assert!(t > 1_600_000_000_000_000_000);
}

use chat_compressor::loadtest::{
    check_count, check_dm, check_isolation, check_lobby, check_names, check_ping, check_room_chat,
    check_rooms, check_who, confirms_join, enough_sockets, is_name_confirmation,
};

#[test]
fn functional_checks() {
    assert_eq!(check_ping("pong"), Ok("pong".to_string()));
    assert_eq!(check_ping("ponga"), Err("got ponga".to_string()));
    assert_eq!(
        check_names("name set to Alice", "name set to Bob", "name set to Cara"),
        Ok("name set to Alice | name set to Bob | name set to Cara".to_string())
    );
    assert_eq!(check_names("a", "Bob", "Cara"), Err("a | Bob | Cara".to_string()));
    assert_eq!(check_who("Online: Bob, Cara"), Ok("Online: Bob, Cara".to_string()));
    assert_eq!(check_who("Online: Bob"), Err("Online: Bob".to_string()));
    assert_eq!(check_count("Total active clients: 3"), Ok("Total active clients: 3".to_string()));
    assert_eq!(check_count("Total active clients: 2"), Err("Total active clients: 2".to_string()));
    assert_eq!(
        check_lobby("Alice: hello-lobby", "Alice: hello-lobby"),
        Ok("bob=Alice: hello-lobby cara=Alice: hello-lobby".to_string())
    );
    assert_eq!(check_lobby("x", "Alice: hello-lobby"), Err("bob=x cara=Alice: hello-lobby".to_string()));
    assert!(check_dm("(DM from Alice) secret-dm").is_ok());
    assert!(check_dm("(DM from Alice) other").is_err());
    assert!(confirms_join("Joined room: rust"));
    assert!(!confirms_join("Joined room: rus"));
    assert_eq!(check_isolation(None), Ok("room isolation ok".to_string()));
    assert_eq!(check_isolation(Some("Alice: hi")), Ok("room isolation ok".to_string()));
    assert_eq!(
        check_isolation(Some("Alice: only-rust")),
        Err("lobby leaked room msg: Alice: only-rust".to_string())
    );
    assert_eq!(check_room_chat("Alice: rust-hello", None), Ok("bob=Alice: rust-hello".to_string()));
    assert_eq!(
        check_room_chat("Alice: rust-hello", Some("Alice: rust-hello")),
        Err("bob=Alice: rust-hello isolated=false".to_string())
    );
    assert_eq!(check_room_chat("nope", None), Err("bob=nope isolated=true".to_string()));
    assert!(check_rooms("Active rooms: [\"lobby\", \"rust\"]").is_ok());
    assert!(check_rooms("Active rooms: [\"lobby\"]").is_err());
}

#[test]
fn room_run_guards() {
    assert!(!enough_sockets(0));
    assert!(!enough_sockets(1));
    assert!(enough_sockets(2));
    assert!(is_name_confirmation("name set to u3"));
    assert!(!is_name_confirmation("Joined room: x"));
}
