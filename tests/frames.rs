use pty_node::backlog::BACKLOG_CAP;
use pty_node::encoder::{banner_line, opening_lines, past_frames, LiveAction, LiveEncoder, LiveEvent};
use pty_node::frame::{FrameKind, StreamFrame};
use pty_node::ndjson::parse_line;
use pty_node::stream::{exit_message, StreamLog};

fn frame(t: FrameKind, seq: u64, d: &str) -> StreamFrame {
    StreamFrame::new(t, seq, d.to_string())
}

#[test]
fn banner_is_stream_start_event() {
    assert_eq!(banner_line(), "{\"t\":\"event\",\"seq\":0,\"d\":\"stream-start\"}\n");
}

#[test]
fn ndjson_line_of_stdout_frame() {
    let f = frame(FrameKind::Stdout, 2, "hi\n");
    assert_eq!(f.to_ndjson(), "{\"t\":\"stdout\",\"seq\":2,\"d\":\"hi\\n\"}\n");
    assert_eq!(f.to_json(), "{\"t\":\"stdout\",\"seq\":2,\"d\":\"hi\\n\"}");
}

#[test]
fn ndjson_escapes_quotes_backslashes_and_controls() {
    let f = frame(FrameKind::Stderr, 17, "a\"b\\c\t\u{1}\u{1f}é");
    assert_eq!(
        f.to_ndjson(),
        "{\"t\":\"stderr\",\"seq\":17,\"d\":\"a\\\"b\\\\c\\t\\u0001\\u001fé\"}\n"
    );
}

#[test]
fn parse_reads_back_encoded_frames() {
    let cases = vec![
        frame(FrameKind::Stdout, 1, "hi\n"),
        frame(FrameKind::Stderr, 18446744073709551615, "x\"y\\z\u{8}\u{c}\r\u{0}\u{7f}"),
        frame(FrameKind::Event, 0, ""),
        frame(FrameKind::Event, 42, "exit:Some(0)"),
        frame(FrameKind::Stdout, 10, "\u{1b}[31mred\u{1b}[0m ünï"),
    ];
    for f in cases {
        let line = f.to_ndjson();
        assert_eq!(parse_line(&line), Some(f.clone()));
        assert_eq!(parse_line(&f.to_json()), Some(f.clone()));
    }
}

#[test]
fn parse_rejects_other_text() {
    assert_eq!(parse_line(""), None);
    assert_eq!(parse_line("not json"), None);
    assert_eq!(parse_line("{\"t\":\"stdin\",\"seq\":1,\"d\":\"x\"}"), None);
    assert_eq!(parse_line("{\"t\":\"stdout\",\"seq\":01,\"d\":\"x\"}"), None);
    assert_eq!(parse_line("{\"t\":\"stdout\",\"seq\":18446744073709551616,\"d\":\"x\"}"), None);
    assert_eq!(parse_line("{\"t\":\"stdout\",\"seq\":1,\"d\":\"x\"} "), None);
    assert_eq!(parse_line("{\"t\":\"stdout\",\"seq\":1,\"d\":\"x"), None);
}

#[test]
fn exit_messages() {
    assert_eq!(exit_message(Some(0)), "exit:Some(0)");
    assert_eq!(exit_message(Some(-9)), "exit:Some(-9)");
    assert_eq!(exit_message(Some(i32::MIN)), "exit:Some(-2147483648)");
    assert_eq!(exit_message(None), "exit:None");
}

#[test]
fn exit_detection() {
    assert!(frame(FrameKind::Event, 3, "exit:None").is_exit());
    assert!(frame(FrameKind::Event, 3, "exit:").is_exit());
    assert!(!frame(FrameKind::Stdout, 3, "exit:None").is_exit());
    assert!(!frame(FrameKind::Event, 3, "exi").is_exit());
    assert!(!frame(FrameKind::Event, 3, "stream-start").is_exit());
}

#[test]
fn sequence_numbers_increase_by_one() {
    let mut log = StreamLog::new();
    let mut last = 0u64;
    for i in 0..10u64 {
        let f = log.push(FrameKind::Stdout, format!("line {i}\n")).unwrap();
        assert!(f.seq > last);
        assert_eq!(f.seq, last + 1);
        last = f.seq;
    }
    assert_eq!(log.latest_seq(), 10);
}

#[test]
fn nothing_follows_the_exit_event() {
    let mut log = StreamLog::new();
    log.push(FrameKind::Event, "stream-start".to_string()).unwrap();
    let exit = log.finish(Some(0)).unwrap();
    assert_eq!(exit.d, "exit:Some(0)");
    assert!(log.has_ended());
    assert_eq!(log.exit_code(), Some(0));
    assert!(log.push(FrameKind::Stdout, "late".to_string()).is_none());
    assert!(log.finish(Some(1)).is_none());
    assert_eq!(log.exit_code(), Some(0));
    let snap = log.snapshot();
    let exits = snap.iter().filter(|f| f.is_exit()).count();
    assert_eq!(exits, 1);
    assert!(snap.last().unwrap().is_exit());
}

#[test]
fn pushing_an_exit_event_ends_the_stream() {
    let mut log = StreamLog::new();
    log.push(FrameKind::Event, "exit:by hand".to_string()).unwrap();
    assert!(log.has_ended());
    assert!(log.push(FrameKind::Event, "more".to_string()).is_none());
}

#[test]
fn backlog_keeps_the_last_1024_frames() {
    let mut log = StreamLog::new();
    for i in 0..1100u64 {
        log.push(FrameKind::Stdout, format!("{i}\n")).unwrap();
    }
    assert_eq!(log.latest_seq(), 1100);
    let snap = log.snapshot();
    assert_eq!(snap.len(), BACKLOG_CAP);
    assert_eq!(snap[0].seq, 77);
    assert_eq!(snap[0].d, "76\n");
    assert_eq!(snap[1023].seq, 1100);
}

#[test]
fn small_backlog_drops_oldest() {
    let mut log = StreamLog::with_capacity(2);
    for d in ["a", "b", "c"] {
        log.push(FrameKind::Stdout, d.to_string()).unwrap();
    }
    let snap = log.snapshot();
    assert_eq!(snap.iter().map(|f| f.seq).collect::<Vec<_>>(), vec![2, 3]);
}

#[test]
fn replay_after_cursor_is_exact_and_ordered() {
    let mut log = StreamLog::new();
    for i in 1..=5u64 {
        log.push(FrameKind::Stdout, format!("{i}")).unwrap();
    }
    let past = past_frames(&log.snapshot(), 2);
    assert_eq!(past.iter().map(|f| f.seq).collect::<Vec<_>>(), vec![3, 4, 5]);
    let all = past_frames(&log.snapshot(), 0);
    assert_eq!(all.len(), 5);
}

#[test]
fn cursor_beyond_latest_replays_nothing() {
    let mut log = StreamLog::new();
    for i in 1..=3u64 {
        log.push(FrameKind::Stdout, format!("{i}")).unwrap();
    }
    assert!(past_frames(&log.snapshot(), 3).is_empty());
    assert!(past_frames(&log.snapshot(), 99).is_empty());
    assert_eq!(opening_lines(&past_frames(&log.snapshot(), 99)), vec![banner_line()]);
}

#[test]
fn reopening_with_same_cursor_replays_the_same_lines() {
    let mut log = StreamLog::new();
    for i in 1..=4u64 {
        log.push(FrameKind::Stderr, format!("e{i}")).unwrap();
    }
    let first = opening_lines(&past_frames(&log.snapshot(), 1));
    let second = opening_lines(&past_frames(&log.snapshot(), 1));
    assert_eq!(first, second);
    log.push(FrameKind::Stderr, "e5".to_string()).unwrap();
    let third = opening_lines(&past_frames(&log.snapshot(), 1));
    assert_eq!(&third[..first.len()], &first[..]);
    assert_eq!(third.len(), first.len() + 1);
}

#[test]
fn unsorted_snapshot_is_sorted_defensively() {
    let snap = vec![
        frame(FrameKind::Stdout, 5, "e"),
        frame(FrameKind::Stdout, 2, "b"),
        frame(FrameKind::Stdout, 9, "i"),
        frame(FrameKind::Stdout, 1, "a"),
        frame(FrameKind::Stdout, 4, "d"),
    ];
    let past = past_frames(&snap, 1);
    assert_eq!(past.iter().map(|f| f.seq).collect::<Vec<_>>(), vec![2, 4, 5, 9]);
    assert_eq!(past[0].d, "b");
}

#[test]
fn live_encoder_ends_after_exit() {
    let mut enc = LiveEncoder::new(0);
    match enc.on_event(LiveEvent::Frame(frame(FrameKind::Stdout, 2, "x"))) {
        LiveAction::Emit(line) => assert_eq!(line, "{\"t\":\"stdout\",\"seq\":2,\"d\":\"x\"}\n"),
        _ => panic!("expected a line"),
    }
    assert!(matches!(enc.on_event(LiveEvent::Lagged(3)), LiveAction::Skip));
    assert!(!enc.is_done());
    match enc.on_event(LiveEvent::Frame(frame(FrameKind::Event, 3, "exit:Some(0)"))) {
        LiveAction::Emit(line) => assert_eq!(line, "{\"t\":\"event\",\"seq\":3,\"d\":\"exit:Some(0)\"}\n"),
        _ => panic!("expected a line"),
    }
    assert!(enc.is_done());
    assert!(matches!(enc.on_event(LiveEvent::Frame(frame(FrameKind::Stdout, 4, "y"))), LiveAction::End));
}

#[test]
fn live_encoder_ends_when_channel_closes() {
    let mut enc = LiveEncoder::new(0);
    assert!(matches!(enc.on_event(LiveEvent::Closed), LiveAction::End));
    assert!(enc.is_done());
}

#[test]
fn replayed_exit_ends_the_stream() {
    let mut log = StreamLog::new();
    log.push(FrameKind::Stdout, "x".to_string()).unwrap();
    log.finish(Some(0)).unwrap();
    let past = past_frames(&log.snapshot(), 0);
    let mut enc = LiveEncoder::after_replay(&past, 0);
    assert!(enc.is_done());
    assert!(matches!(enc.on_event(LiveEvent::Lagged(1)), LiveAction::End));
}

#[test]
fn live_frames_already_replayed_are_skipped() {
    let mut log = StreamLog::new();
    for d in ["a", "b", "c"] {
        log.push(FrameKind::Stdout, d.to_string()).unwrap();
    }
    let past = past_frames(&log.snapshot(), 1);
    let mut enc = LiveEncoder::after_replay(&past, 1);
    assert!(!enc.is_done());
    assert!(matches!(enc.on_event(LiveEvent::Frame(frame(FrameKind::Stdout, 3, "c"))), LiveAction::Skip));
    assert!(matches!(enc.on_event(LiveEvent::Frame(frame(FrameKind::Stdout, 4, "d"))), LiveAction::Emit(_)));
    assert!(matches!(enc.on_event(LiveEvent::Frame(frame(FrameKind::Stdout, 4, "d"))), LiveAction::Skip));
    let empty = LiveEncoder::after_replay(&Vec::new(), 7);
    assert!(!empty.is_done());
    assert_eq!(empty.last, 7);
}
