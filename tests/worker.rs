use pty_node::deadline::Deadline;
use pty_node::encoder::{opening_lines, past_frames};
use pty_node::exec::{
    exec_command, exec_response, job_id_not_found, job_not_found, job_status, plan_session, resize_failed,
    session_not_found, session_response, shell_command, Error, ExecRequest, SessionRequest,
};
use pty_node::frame::FrameKind;
use pty_node::gateway::{tail_reply, tail_reply_clean, tail_start, tail_target, AppError, NodeState, TerminalCollector};
use pty_node::hub::Producer;
use pty_node::job::{
    decode_output, format_id, new_id, write_step, Pipe, PipeRead, PtyRead, WriteOutcome, WriteStep,
};
use pty_node::profile::{resolve_profile, setup_if_enabled, to_ascii_lower};

fn strings(v: &[&str]) -> Vec<String> {
    v.iter().map(|s| s.to_string()).collect()
}

fn run_job(stdout: &[&[u8]], stderr: &[&[u8]], code: Option<i32>) -> Producer {
    let mut p = Producer::new();
    assert_eq!(p.start_job(), Some(1));
    for (i, chunk) in stdout.iter().enumerate() {
        let ev = if i + 1 == stdout.len() && !chunk.ends_with(b"\n") {
            PipeRead::Eof(chunk.to_vec())
        } else {
            PipeRead::Line(chunk.to_vec())
        };
        p.on_pipe_read(Pipe::Stdout, ev);
    }
    for (i, chunk) in stderr.iter().enumerate() {
        let ev = if i + 1 == stderr.len() && !chunk.ends_with(b"\n") {
            PipeRead::Eof(chunk.to_vec())
        } else {
            PipeRead::Line(chunk.to_vec())
        };
        p.on_pipe_read(Pipe::Stderr, ev);
    }
    assert!(!p.on_pipe_read(Pipe::Stdout, PipeRead::Eof(Vec::new())));
    assert!(!p.on_pipe_read(Pipe::Stderr, PipeRead::Eof(Vec::new())));
    p.finish(code).unwrap();
    p
}

#[test]
fn echo_job_stream_from_zero() {
    let p = run_job(&[b"hi\n"], &[], Some(0));
    let (snap, _rx) = p.subscribe();
    let lines = opening_lines(&past_frames(&snap, 0));
    assert_eq!(
        lines,
        vec![
            "{\"t\":\"event\",\"seq\":0,\"d\":\"stream-start\"}\n".to_string(),
            "{\"t\":\"event\",\"seq\":1,\"d\":\"stream-start\"}\n".to_string(),
            "{\"t\":\"stdout\",\"seq\":2,\"d\":\"hi\\n\"}\n".to_string(),
            "{\"t\":\"event\",\"seq\":3,\"d\":\"exit:Some(0)\"}\n".to_string(),
        ]
    );
    assert_eq!(p.exit_code(), Some(0));
}

#[test]
fn job_with_stdout_and_stderr_without_newlines() {
    let p = run_job(&[b"a"], &[b"b"], Some(0));
    let (snap, _rx) = p.subscribe();
    assert!(snap.iter().any(|f| f.t == FrameKind::Stdout && f.d == "a"));
    assert!(snap.iter().any(|f| f.t == FrameKind::Stderr && f.d == "b"));
    let last = snap.last().unwrap();
    assert_eq!(last.d, "exit:Some(0)");
    assert_eq!(last.t, FrameKind::Event);
}

#[test]
fn job_without_output() {
    let p = run_job(&[], &[], Some(0));
    let (snap, _rx) = p.subscribe();
    assert_eq!(snap.len(), 2);
    assert_eq!(snap[0].d, "stream-start");
    assert_eq!(snap[1].d, "exit:Some(0)");
    let lines = opening_lines(&past_frames(&snap, 0));
    assert_eq!(lines.len(), 3);
    let status = job_status(p.log.has_ended(), p.exit_code(), p.latest_seq());
    assert_eq!(status.state, "exited");
    assert_eq!(status.seq_latest, 2);
}

#[test]
fn job_with_many_lines_keeps_last_1024() {
    let mut p = Producer::new();
    p.start_job();
    for i in 0..1500 {
        p.on_pipe_read(Pipe::Stdout, PipeRead::Line(format!("{i}\n").into_bytes()));
    }
    let (snap, _rx) = p.subscribe();
    assert_eq!(snap.len(), 1024);
    assert_eq!(p.latest_seq(), 1501);
    assert_eq!(snap[1023].d, "1499\n");
    assert_eq!(job_status(p.log.has_ended(), p.exit_code(), p.latest_seq()).state, "running");
}

#[test]
fn reader_error_becomes_an_event() {
    let mut p = Producer::new();
    p.start_job();
    assert!(!p.on_pipe_read(Pipe::Stderr, PipeRead::Failed("broken pipe".to_string())));
    assert_eq!(p.on_wait_error("no child"), Some(3));
    let (snap, _rx) = p.subscribe();
    assert_eq!(snap[1].d, "stderr-reader-error:broken pipe");
    assert_eq!(snap[2].d, "wait-error:no child");
}

#[test]
fn invalid_utf8_is_replaced() {
    assert_eq!(decode_output(&vec![b'o', 0xff, b'k']), "o\u{fffd}k");
    let mut p = Producer::new();
    assert!(p.on_pty_read(PtyRead::Data(vec![0xe2, 0x82])));
    let (snap, _rx) = p.subscribe();
    assert_eq!(snap[0].d, "\u{fffd}");
    assert_eq!(snap[0].t, FrameKind::Stdout);
}

#[test]
fn pty_eof_emits_exit_none() {
    let mut p = Producer::new();
    assert!(p.on_pty_read(PtyRead::WouldBlock));
    assert!(p.on_pty_read(PtyRead::Data(b"$ ".to_vec())));
    assert!(!p.on_pty_read(PtyRead::Eof));
    let (snap, _rx) = p.subscribe();
    assert_eq!(snap.len(), 2);
    assert_eq!(snap[1].d, "exit:None");
    assert!(p.publish(FrameKind::Stdout, "late".to_string()).is_none());
}

#[test]
fn published_frames_reach_subscribers() {
    let mut p = Producer::new();
    let (snap, mut rx) = p.subscribe();
    assert!(snap.is_empty());
    assert_eq!(p.publish(FrameKind::Stdout, "x".to_string()), Some(1));
    assert_eq!(p.finish(None), Some(2));
    let a = rx.try_recv().unwrap();
    let b = rx.try_recv().unwrap();
    assert_eq!(a.d, "x");
    assert_eq!(b.d, "exit:None");
    assert!(rx.try_recv().is_err());
}

#[test]
fn pty_read_error_is_reported_then_ends() {
    let mut p = Producer::new();
    assert!(!p.on_pty_read(PtyRead::Failed("Input/output error (os error 5)".to_string())));
    let (snap, _rx) = p.subscribe();
    assert_eq!(snap.len(), 2);
    assert_eq!(snap[0].t, FrameKind::Event);
    assert_eq!(snap[0].d, "pty-reader-error:Input/output error (os error 5)");
    assert_eq!(snap[1].d, "exit:None");
    assert_eq!(p.exit_code(), None);
}

#[test]
fn signalled_job_is_exited() {
    let p = run_job(&[b"x\n"], &[], None);
    let st = job_status(p.log.has_ended(), p.exit_code(), p.latest_seq());
    assert_eq!(st.state, "exited");
    assert_eq!(st.exit_code, None);
    assert_eq!(st.seq_latest, 3);
}

#[test]
fn write_loop_steps() {
    assert!(matches!(write_step(0, 5, WriteOutcome::Wrote(2)), WriteStep::Continue(2)));
    assert!(matches!(write_step(2, 5, WriteOutcome::Wrote(3)), WriteStep::Done));
    assert!(matches!(write_step(2, 5, WriteOutcome::Wrote(0)), WriteStep::Done));
    assert!(matches!(write_step(2, 5, WriteOutcome::WouldBlock), WriteStep::Continue(2)));
    assert!(matches!(write_step(5, 5, WriteOutcome::WouldBlock), WriteStep::Done));
    assert!(matches!(write_step(0, 5, WriteOutcome::Failed), WriteStep::Fail));
}

#[test]
fn empty_command_is_bad_request() {
    let e = shell_command(&Vec::new()).unwrap_err();
    assert_eq!(e.status_code(), 400);
    assert_eq!(e.message(), "cmd required");
    let req = ExecRequest { cmd: Vec::new(), cwd: None, env: None, timeout_ms: None };
    assert!(matches!(exec_command(&req), Err(Error::BadRequest(_))));
}

#[test]
fn command_parts_are_joined_with_spaces() {
    assert_eq!(shell_command(&strings(&["echo hi"])).unwrap(), "echo hi");
    assert_eq!(shell_command(&strings(&["ls", "-la", "/tmp"])).unwrap(), "ls -la /tmp");
    let req = ExecRequest { cmd: strings(&["sh", "-c", "'printf a'"]), cwd: Some("/".to_string()), env: None, timeout_ms: None };
    assert_eq!(exec_command(&req).unwrap(), "sh -c 'printf a'");
}

#[test]
fn exec_reply_urls() {
    let r = exec_response("j_1");
    assert_eq!(r.job_id, "j_1");
    assert_eq!(r.stream_url, "/stream/j_1?from=0");
    assert_eq!(r.status_url, "/status/j_1");
    assert_eq!(r.cancel_url, "/cancel/j_1");
}

#[test]
fn interactive_session_plan_and_urls() {
    let req = SessionRequest { mode: "interactive".to_string(), profile: None, cols: Some(80), rows: Some(24) };
    let plan = plan_session(&req).unwrap();
    assert_eq!((plan.cols, plan.rows), (80, 24));
    assert!(plan.profile.is_none());
    let r = session_response("s_abc");
    assert_eq!(r.session_id, "s_abc");
    assert_eq!(r.stream_url, "/sessions/s_abc/stream?from=0");
    assert_eq!(r.write_url, "/sessions/s_abc/write");
    assert_eq!(r.resize_url, "/sessions/s_abc/resize");
    assert_eq!(r.close_url, "/sessions/s_abc/close");
}

#[test]
fn session_defaults_and_mode_check() {
    let req = SessionRequest { mode: "interactive".to_string(), profile: Some("zsh".to_string()), cols: None, rows: None };
    let plan = plan_session(&req).unwrap();
    assert_eq!((plan.cols, plan.rows), (120, 32));
    assert_eq!(plan.profile.as_deref(), Some("zsh"));
    let bad = SessionRequest { mode: "batch".to_string(), profile: None, cols: None, rows: None };
    let e = plan_session(&bad).unwrap_err();
    assert_eq!(e.status_code(), 400);
    assert_eq!(e.message(), "only interactive mode supported");
}

#[test]
fn unknown_ids_are_not_found() {
    assert_eq!(job_not_found().status_code(), 404);
    assert_eq!(job_not_found().message(), "job not found");
    assert_eq!(job_id_not_found("j_x").status_code(), 404);
    assert_eq!(job_id_not_found("j_x").message(), "job j_x not found");
    assert_eq!(session_not_found().status_code(), 404);
    assert_eq!(session_not_found().message(), "session not found");
}

#[test]
fn io_and_other_errors_are_internal() {
    let e = resize_failed("Bad file descriptor (os error 9)");
    assert_eq!(e.status_code(), 500);
    assert_eq!(e.message(), "ioctl TIOCSWINSZ failed: Bad file descriptor (os error 9)");
    assert_eq!(Error::Other("x".to_string()).status_code(), 500);
}

#[test]
fn ids_have_prefix_and_uuid() {
    assert_eq!(format_id("j", "abc"), "j_abc");
    let a = new_id("s");
    let b = new_id("s");
    assert!(a.starts_with("s_"));
    assert_eq!(a.len(), 2 + 36);
    assert_ne!(a, b);
    let u: Vec<char> = a[2..].chars().collect();
    for (i, c) in u.iter().enumerate() {
        if [8, 13, 18, 23].contains(&i) {
            assert_eq!(*c, '-');
        } else {
            assert!(c.is_ascii_hexdigit() && !c.is_ascii_uppercase());
        }
    }
    assert_eq!(u[14], '4');
    assert!("89ab".contains(u[19]));
}

#[test]
fn profiles_resolve_by_lowercase_name() {
    let p = resolve_profile(Some("POSIX"), true);
    assert_eq!(p.program, "/bin/sh");
    assert_eq!(p.args, strings(&["-i"]));
    let p = resolve_profile(Some("zsh"), true);
    assert_eq!((p.program.as_str(), p.args.clone()), ("/bin/zsh", strings(&["-li"])));
    let p = resolve_profile(Some("BusyBox"), false);
    assert_eq!((p.program.as_str(), p.args.clone()), ("/bin/busybox", strings(&["sh", "-i"])));
    let p = resolve_profile(None, true);
    assert_eq!((p.program.as_str(), p.args.clone()), ("/bin/bash", strings(&["-li"])));
    let p = resolve_profile(Some("fish"), false);
    assert_eq!((p.program.as_str(), p.args.clone()), ("/bin/sh", strings(&["-i"])));
    assert_eq!(to_ascii_lower("AbÇ-Z"), "abÇ-z");
    assert!(setup_if_enabled(true).is_ok());
    assert!(setup_if_enabled(false).is_ok());
}

#[test]
fn deadline_budget() {
    let d = Deadline::new(100);
    assert_eq!(d.remaining_at(30), 70);
    assert_eq!(d.remaining_at(100), 0);
    assert_eq!(d.remaining_at(250), 0);
    assert!(!d.exceeded_at(99));
    assert!(d.exceeded_at(100));
    assert!(d.remaining() <= 100);
    assert!(Deadline::new(0).exceeded());
    assert_eq!(Deadline::new(0).remaining(), 0);
}

#[test]
fn tail_replay_start() {
    assert_eq!(tail_start(100, 30), 70);
    assert_eq!(tail_start(10, 30), 0);
    assert_eq!(tail_start(30, 30), 0);
}

#[test]
fn collector_folds_stream_lines() {
    let mut c = TerminalCollector::new();
    assert!(!c.on_line("{\"t\":\"event\",\"seq\":0,\"d\":\"stream-start\"}\n"));
    assert!(!c.on_line("{\"t\":\"stdout\",\"seq\":2,\"d\":\"hi\\n\"}"));
    assert!(!c.on_line("garbage"));
    assert!(!c.on_line("{\"t\":\"stderr\",\"seq\":3,\"d\":\"oops\"}"));
    assert!(c.on_line("{\"t\":\"event\",\"seq\":4,\"d\":\"exit:Some(0)\"}"));
    assert_eq!(c.last_seq, 4);
    assert_eq!(c.summary(), "STDOUT:\nhi\n\nSTDERR:\noops\n\nEXIT CODE:\n0");
}

#[test]
fn collector_clips_long_output() {
    let mut c = TerminalCollector::new();
    let long = "x".repeat(1200);
    c.on_line(&format!("{{\"t\":\"stdout\",\"seq\":1,\"d\":\"{long}\"}}"));
    let s = c.summary();
    let expected = format!("STDOUT:\n{}\n[...truncated]\n\nSTDERR:\n\n\nEXIT CODE:\nstill running...", "x".repeat(1000));
    assert_eq!(s, expected);
}

#[test]
fn collector_shows_exit_status_plainly() {
    let mut c = TerminalCollector::new();
    assert!(c.on_line("{\"t\":\"event\",\"seq\":9,\"d\":\"exit:None\"}\n"));
    assert_eq!(c.summary(), "STDOUT:\n\n\nSTDERR:\n\n\nEXIT CODE:\nNone");
    assert_eq!(c.exit.as_deref(), Some("None"));
    let mut d = TerminalCollector::new();
    d.on_line("{\"t\":\"stdout\",\"seq\":1,\"d\":\"out \\t\\n\"}");
    d.on_line("{\"t\":\"event\",\"seq\":2,\"d\":\"exit:Some(-15)\"}");
    assert_eq!(d.summary(), "STDOUT:\nout\n\nSTDERR:\n\n\nEXIT CODE:\n-15");
    assert!(d.on_line("{\"t\":\"event\",\"seq\":3,\"d\":\"exit:Some(1)\"}"));
    assert_eq!(d.exit.as_deref(), Some("Some(-15)"));
}

#[test]
fn tail_reply_keeps_last_fifty_lines() {
    let text: String = (0..60).map(|i| format!("l{i}\n")).collect();
    let expected: Vec<String> = (10..60).map(|i| format!("l{i}")).collect();
    assert_eq!(
        tail_reply(&text, None),
        format!("{}\n(... process still running ...)\n", expected.join("\n"))
    );
}

#[test]
fn tail_reply_splits_like_lines() {
    assert_eq!(tail_reply("a\nb\r\nc", Some(" 0 ")), "a\nb\nc\n(Exit code: 0)\n");
    assert_eq!(tail_reply("x\r", Some("1")), "x\r\n(Exit code: 1)\n");
    assert_eq!(tail_reply("", None), "\n(... process still running ...)\n");
    assert_eq!(tail_reply("\n\n", None), "\n\n(... process still running ...)\n");
}

#[test]
fn collector_clips_by_bytes() {
    let mut c = TerminalCollector::new();
    let two_byte = "é".repeat(600);
    c.on_line(&format!("{{\"t\":\"stdout\",\"seq\":1,\"d\":\"{two_byte}\"}}"));
    let half = "é".repeat(500);
    assert_eq!(
        c.summary(),
        format!("STDOUT:\n{half}\n[...truncated]\n\nSTDERR:\n\n\nEXIT CODE:\nstill running...")
    );
    let mut e = TerminalCollector::new();
    let fits = "é".repeat(500);
    e.on_line(&format!("{{\"t\":\"stdout\",\"seq\":1,\"d\":\"{fits}\"}}"));
    assert_eq!(e.summary(), format!("STDOUT:\n{fits}\n\nSTDERR:\n\n\nEXIT CODE:\nstill running..."));
    let mut d = TerminalCollector::new();
    let odd = format!("a{}", "é".repeat(1000));
    d.on_line(&format!("{{\"t\":\"stderr\",\"seq\":1,\"d\":\"{odd}\"}}"));
    let kept = format!("a{}", "é".repeat(499));
    assert_eq!(kept.len(), 999);
    assert_eq!(
        d.summary(),
        format!("STDOUT:\n\n\nSTDERR:\n{kept}\n[...truncated]\n\nEXIT CODE:\nstill running...")
    );
}

#[test]
fn tail_reply_strips_ansi() {
    let text = "\u{1b}[31mred\u{1b}[0m\n\u{1b}[1;32mgreen\u{1b}[m\n";
    assert_eq!(tail_reply(text, Some("Some(0)")), "red\ngreen\n(Exit code: Some(0))\n");
    assert_eq!(tail_reply_clean("plain", None), "plain\n(... process still running ...)\n");
}

#[test]
fn collector_live_tail() {
    let mut c = TerminalCollector::new();
    c.on_line("{\"t\":\"stdout\",\"seq\":1,\"d\":\"\\u001b[33mout\\u001b[0m\\n\"}");
    c.on_line("{\"t\":\"stderr\",\"seq\":2,\"d\":\"err\\n\"}");
    assert_eq!(c.live_tail(), "out\nerr\n(... process still running ...)\n");
    c.on_line("{\"t\":\"event\",\"seq\":3,\"d\":\"exit:Some(2)\"}");
    assert_eq!(c.live_tail(), "out\nerr\n(Exit code: Some(2))\n");
}

#[test]
fn collector_ignores_non_exit_lines_for_status() {
    let mut c = TerminalCollector::new();
    assert!(!c.on_line("exit:Some(1)"));
    assert!(!c.on_line("{\"t\":\"stdout\",\"seq\":1,\"d\":\"exit:Some(1)\"}"));
    assert!(c.exit.is_none());
}

#[test]
fn node_state_bookkeeping() {
    let mut st = NodeState::new();
    assert_eq!(tail_target(Some(&st)).unwrap_err(), "(no active session)");
    assert_eq!(tail_target(None).unwrap_err(), "(no active session)");
    assert!(st.record_line("{\"t\":\"event\",\"seq\":0,\"d\":\"stream-start\"}"));
    st.begin_job("j_1".to_string());
    assert!(st.running);
    assert_eq!(st.backlog, "");
    assert!(!st.record_line("  \t"));
    assert!(st.record_line("line"));
    assert_eq!(st.backlog, "line\n");
    assert_eq!(tail_target(Some(&st)).unwrap(), "j_1");
    st.set_running(false);
    assert!(!st.running);
}

#[test]
fn gateway_error_codes() {
    assert_eq!(AppError::Unauthorized.status_code(), 401);
    assert_eq!(AppError::Unauthorized.message(), "unauthorized");
    assert_eq!(AppError::BadRequest("b".to_string()).status_code(), 400);
    assert_eq!(AppError::Upstream("u".to_string()).status_code(), 502);
    assert_eq!(AppError::Internal("i".to_string()).status_code(), 500);
    assert_eq!(AppError::Upstream("u".to_string()).message(), "u");
}
