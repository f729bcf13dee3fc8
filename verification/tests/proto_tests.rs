//! The protocol frames: exact wire forms, parsing policy, and the
//! end-to-end frame sequences of exec and forward sessions.

use shuru::guest;
use shuru::proto::{
    encode_control, encode_exec_request, encode_exec_response, encode_forward_request,
    encode_forward_response, encode_mount_request, encode_mount_response, parse_control,
    parse_exec_response, parse_forward_request, parse_forward_response, parse_mount_request,
    parse_mount_response, ControlMessage, ExecRequest, ExecResponse, ForwardRequest,
    ForwardResponse, MountRequest, MountResponse, PortMapping,
};
use shuru::config::VmConfigBuilder;
use shuru::sandbox::{
    check_mount_response, exec_fold_line, mount_frames, ExecProgress, MountConfig, MountReply,
    Sandbox,
};

#[test]
fn exec_request_wire_form() {
    let req = ExecRequest {
        argv: vec![b"/bin/echo".to_vec(), b"hello".to_vec()],
        env: vec![],
        tty: None,
        rows: None,
        cols: None,
    };
    let out = encode_exec_request(&req);
    assert_eq!(
        out,
        b"{\"argv\":[\"/bin/echo\",\"hello\"],\"env\":{}}\n".to_vec()
    );
}

#[test]
fn exec_request_pty_wire_form() {
    let req = ExecRequest {
        argv: vec![b"/bin/sh".to_vec()],
        env: vec![(b"TERM".to_vec(), b"vt100".to_vec())],
        tty: Some(true),
        rows: Some(40),
        cols: Some(132),
    };
    let out = encode_exec_request(&req);
    assert_eq!(
        out,
        b"{\"argv\":[\"/bin/sh\"],\"env\":{\"TERM\":\"vt100\"},\"tty\":true,\"rows\":40,\"cols\":132}\n"
            .to_vec()
    );
}

#[test]
fn exec_request_round_trip_argv() {
    let req = ExecRequest {
        argv: vec![b"/usr/bin/env".to_vec(), b"-i".to_vec(), b"x=1".to_vec()],
        env: vec![],
        tty: None,
        rows: None,
        cols: None,
    };
    let out = encode_exec_request(&req);
    let parsed = guest::parse_exec_request(&out).expect("guest parses host frame");
    assert_eq!(parsed.argv, req.argv);
    assert_eq!(parsed.tty, false);
    assert_eq!(parsed.rows, 24);
    assert_eq!(parsed.cols, 80);
}

#[test]
fn exec_request_guest_defaults() {
    let parsed = guest::parse_exec_request(b"{\"argv\":[\"/bin/ls\"]}").expect("argv alone");
    assert_eq!(parsed.argv, vec![b"/bin/ls".to_vec()]);
    assert_eq!(parsed.env, vec![]);
    assert_eq!(parsed.tty, false);
    assert_eq!(parsed.rows, 24);
    assert_eq!(parsed.cols, 80);
    assert!(guest::parse_exec_request(b"{\"env\":{}}").is_none());
    assert!(guest::parse_exec_request(b"{\"argv\":\"oops\"}").is_none());
    assert!(guest::parse_exec_request(b"{\"argv\":[\"a\"],\"rows\":70000}").is_none());
}

#[test]
fn exec_response_wire_and_parse() {
    let resp = ExecResponse {
        msg_type: b"exit".to_vec(),
        data: None,
        code: Some(7),
    };
    let out = encode_exec_response(&resp);
    assert_eq!(out, b"{\"type\":\"exit\",\"code\":7}\n".to_vec());
    let back = parse_exec_response(&out).expect("parses");
    assert_eq!(back.msg_type, b"exit".to_vec());
    assert_eq!(back.code, Some(7));
    assert_eq!(back.data, None);
}

#[test]
fn control_message_wire_forms() {
    let stdin = encode_control(&ControlMessage::Stdin {
        data: b"ls\n".to_vec(),
    });
    assert_eq!(stdin, b"{\"type\":\"stdin\",\"data\":\"ls\\u000a\"}\n".to_vec());
    let resize = encode_control(&ControlMessage::Resize { rows: 50, cols: 120 });
    assert_eq!(resize, b"{\"type\":\"resize\",\"rows\":50,\"cols\":120}\n".to_vec());
    match parse_control(&stdin).expect("stdin parses") {
        ControlMessage::Stdin { data } => assert_eq!(data, b"ls\n".to_vec()),
        _ => panic!("wrong variant"),
    }
    match parse_control(&resize).expect("resize parses") {
        ControlMessage::Resize { rows, cols } => {
            assert_eq!(rows, 50);
            assert_eq!(cols, 120);
        }
        _ => panic!("wrong variant"),
    }
    assert!(parse_control(b"{\"type\":\"blah\"}").is_none());
    assert!(parse_control(b"{\"type\":\"resize\",\"rows\":1}").is_none());
}

#[test]
fn mount_frames_round_trip() {
    let req = MountRequest {
        tag: b"mount0".to_vec(),
        guest_path: b"/workspace".to_vec(),
        persistent: false,
    };
    let out = encode_mount_request(&req);
    assert_eq!(
        out,
        b"{\"tag\":\"mount0\",\"guest_path\":\"/workspace\",\"persistent\":false}\n".to_vec()
    );
    let back = parse_mount_request(&out).expect("parses");
    assert_eq!(back.tag, b"mount0".to_vec());
    assert_eq!(back.guest_path, b"/workspace".to_vec());
    assert_eq!(back.persistent, false);

    let ok = encode_mount_response(&MountResponse { ok: true, error: None });
    assert_eq!(ok, b"{\"ok\":true}\n".to_vec());
    let failed = encode_mount_response(&MountResponse {
        ok: false,
        error: Some(b"no such device".to_vec()),
    });
    let back = parse_mount_response(&failed).expect("parses");
    assert_eq!(back.ok, false);
    assert_eq!(back.error, Some(b"no such device".to_vec()));
}

#[test]
fn forward_frames_round_trip() {
    let mapping = PortMapping { host_port: 18080, guest_port: 80 };
    let req = ForwardRequest { port: mapping.guest_port };
    let out = encode_forward_request(&req);
    assert_eq!(out, b"{\"port\":80}\n".to_vec());
    assert_eq!(parse_forward_request(&out).expect("parses").port, 80);
    assert!(parse_forward_request(b"{\"port\":70000}").is_none());

    let ok = encode_forward_response(&ForwardResponse {
        status: b"ok".to_vec(),
        message: None,
    });
    assert_eq!(ok, b"{\"status\":\"ok\"}\n".to_vec());
    let denied = encode_forward_response(&ForwardResponse {
        status: b"error".to_vec(),
        message: Some(b"connection refused".to_vec()),
    });
    let back = parse_forward_response(&denied).expect("parses");
    assert_eq!(back.status, b"error".to_vec());
    assert_eq!(back.message, Some(b"connection refused".to_vec()));
}

#[test]
fn piped_echo_session_yields_zero_and_stdout() {
    // The guest side of `exec(["/bin/echo", "hello"], {})`.
    let lines = guest::output_lines(&b"hello\n".to_vec(), &Vec::new());
    let exit = guest::exit_line(0);
    assert_eq!(lines.len(), 1);

    // The host folds the frames back.
    let mut prog = ExecProgress {
        stdout: Vec::new(),
        stderr: Vec::new(),
        result: None,
    };
    for l in &lines {
        exec_fold_line(&mut prog, l);
    }
    exec_fold_line(&mut prog, &exit);
    assert_eq!(prog.stdout, b"hello\n".to_vec());
    assert_eq!(prog.stderr, Vec::<u8>::new());
    assert_eq!(prog.result, Some(0));
}

#[test]
fn piped_exit_seven_session() {
    // `exec(["/bin/sh", "-c", "exit 7"], {})` produces no output and exit 7.
    let lines = guest::output_lines(&Vec::new(), &Vec::new());
    assert_eq!(lines.len(), 0);
    let mut prog = ExecProgress {
        stdout: Vec::new(),
        stderr: Vec::new(),
        result: None,
    };
    exec_fold_line(&mut prog, &guest::exit_line(7));
    assert_eq!(prog.result, Some(7));
}

#[test]
fn host_fold_stops_at_terminal_frame() {
    let mut prog = ExecProgress {
        stdout: Vec::new(),
        stderr: Vec::new(),
        result: None,
    };
    exec_fold_line(&mut prog, b"{\"type\":\"stdout\",\"data\":\"a\"}");
    exec_fold_line(&mut prog, b"{\"type\":\"exit\",\"code\":3}");
    exec_fold_line(&mut prog, b"{\"type\":\"stdout\",\"data\":\"late\"}");
    exec_fold_line(&mut prog, b"{\"type\":\"exit\",\"code\":9}");
    assert_eq!(prog.stdout, b"a".to_vec());
    assert_eq!(prog.result, Some(3));
}

#[test]
fn host_fold_error_frame() {
    let mut prog = ExecProgress {
        stdout: Vec::new(),
        stderr: Vec::new(),
        result: None,
    };
    exec_fold_line(&mut prog, b"{\"type\":\"error\",\"data\":\"spawn failed\"}");
    assert_eq!(prog.result, Some(1));
    assert_eq!(prog.stderr, b"guest error: spawn failed".to_vec());
}

#[test]
fn host_fold_ignores_unknown_types_and_junk() {
    let mut prog = ExecProgress {
        stdout: Vec::new(),
        stderr: Vec::new(),
        result: None,
    };
    exec_fold_line(&mut prog, b"{\"type\":\"heartbeat\"}");
    exec_fold_line(&mut prog, b"not json at all");
    assert_eq!(prog.result, None);
    assert_eq!(prog.stdout, Vec::<u8>::new());
}

#[test]
fn mount_response_classification() {
    assert!(matches!(check_mount_response(b""), MountReply::SessionClosed));
    assert!(matches!(check_mount_response(b"old guest"), MountReply::Unsupported));
    assert!(matches!(check_mount_response(b"{\"ok\":true}"), MountReply::Accepted));
    match check_mount_response(b"{\"ok\":false,\"error\":\"denied\"}") {
        MountReply::Refused(Some(m)) => assert_eq!(m, b"denied".to_vec()),
        _ => panic!("refusal carries the message"),
    }
}

#[test]
fn mount_handshake_happens_only_once() {
    let builder = VmConfigBuilder::new()
        .kernel(b"/k".to_vec())
        .rootfs(b"/r".to_vec())
        .mount(MountConfig {
            host_path: b"/host/dir".to_vec(),
            guest_path: b"/workspace".to_vec(),
            persistent: false,
        });
    let mut sandbox: Sandbox = builder.build().ok().expect("builds");

    // First session: one mount frame goes out.
    let first = sandbox.take_pending_mounts();
    let frames = mount_frames(&first);
    assert_eq!(frames.len(), 1);
    assert_eq!(
        frames[0],
        b"{\"tag\":\"mount0\",\"guest_path\":\"/workspace\",\"persistent\":false}\n".to_vec()
    );

    // Second session: nothing left to send.
    let second = sandbox.take_pending_mounts();
    assert_eq!(mount_frames(&second).len(), 0);
}
