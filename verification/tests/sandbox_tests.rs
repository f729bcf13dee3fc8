//! Host orchestration decisions: builder plans, session classification,
//! exit codes, control-line draining, forward checks, and loop steps.

use shuru::config::{
    age_label, checkpoint_path, default_data_dir, disk_size_bytes, instance_dir, parse_config,
    parse_mount_spec, parse_port_mapping, resolve_settings, source_disk, VmConfigBuilder,
};
use shuru::errors::{VmError, VzError};
use shuru::guest::{self, net_plan, GuestFrame, NetPlan};
use shuru::lines::split_first_line;
use shuru::proto::ControlMessage;
use shuru::sandbox::{
    accept_step, check_forward_response, connect_retry_step, drain_controls, mount_tag,
    AcceptAction, AcceptEvent, MountConfig, RetryDecision,
};
use shuru::vmstate::{vm_state_from_raw, VmState};

#[test]
fn wait_status_decoding() {
    // Normal exit: status holds the code in the high byte.
    assert_eq!(guest::wait_exit_code(0x0000), 0);
    assert_eq!(guest::wait_exit_code(0x0700), 7);
    // Killed by SIGKILL: 128 + 9 = 137.
    assert_eq!(guest::wait_exit_code(9), 137);
    // Stopped (0x7f low bits): neither exited nor signaled.
    assert_eq!(guest::wait_exit_code(0x7f), 1);
}

#[test]
fn classify_session_lines() {
    match guest::classify_line(
        b"{\"tag\":\"mount0\",\"guest_path\":\"/workspace\",\"persistent\":true}",
    ) {
        GuestFrame::Mount(m) => {
            assert_eq!(m.tag, b"mount0".to_vec());
            assert!(m.persistent);
        }
        _ => panic!("a tagged line is a mount request"),
    }
    assert!(matches!(
        guest::classify_line(b"{\"tag\":\"mount0\"}"),
        GuestFrame::MountInvalid
    ));
    assert!(matches!(
        guest::classify_line(b"{\"argv\":[\"/bin/ls\"]}"),
        GuestFrame::Exec(_)
    ));
    assert!(matches!(
        guest::classify_line(b"{\"argv\":[]}"),
        GuestFrame::EmptyArgv
    ));
    assert!(matches!(guest::classify_line(b"nonsense"), GuestFrame::Invalid));
}

#[test]
fn env_defaults_for_pty_children() {
    let env = guest::env_with_defaults(vec![(b"HOME".to_vec(), b"/root".to_vec())]);
    assert_eq!(env.len(), 3);
    assert_eq!(env[1].0, b"TERM".to_vec());
    assert_eq!(env[1].1, b"xterm-256color".to_vec());
    assert_eq!(env[2].0, b"PATH".to_vec());

    let env = guest::env_with_defaults(vec![
        (b"TERM".to_vec(), b"vt52".to_vec()),
        (b"PATH".to_vec(), b"/bin".to_vec()),
    ]);
    assert_eq!(env.len(), 2);
    assert_eq!(env[0].1, b"vt52".to_vec());
}

#[test]
fn drain_control_buffer() {
    let buf = b"{\"type\":\"stdin\",\"data\":\"ls\"}\nbad line\n{\"type\":\"resize\",\"rows\":10,\"cols\":20}\n{\"type\":\"st";
    let (msgs, rest) = drain_controls(buf);
    assert_eq!(msgs.len(), 2);
    assert!(matches!(&msgs[0], ControlMessage::Stdin { data } if data == &b"ls".to_vec()));
    assert!(matches!(msgs[1], ControlMessage::Resize { rows: 10, cols: 20 }));
    assert_eq!(rest, b"{\"type\":\"st".to_vec());
}

#[test]
fn forward_handshake_keeps_relay_bytes() {
    // The relay payload directly follows the handshake newline; splitting
    // must hand it over untouched.
    let mut stream = b"{\"status\":\"ok\"}\nPING".to_vec();
    let (line, rest) = split_first_line(&stream).expect("handshake line present");
    assert!(check_forward_response(&line).is_ok());
    assert_eq!(rest, b"PING".to_vec());
    stream.clear();
    assert!(split_first_line(&stream).is_none());

    let denied = b"{\"status\":\"error\",\"message\":\"refused\"}";
    match check_forward_response(denied) {
        Err(Some(m)) => assert_eq!(m, b"refused".to_vec()),
        _ => panic!("refusal carries the message"),
    }
}

#[test]
fn accept_loop_stops_on_flag() {
    assert!(matches!(accept_step(true, AcceptEvent::Conn), AcceptAction::Stop));
    assert!(matches!(accept_step(true, AcceptEvent::WouldBlock), AcceptAction::Stop));
    assert!(matches!(accept_step(false, AcceptEvent::Conn), AcceptAction::Handle));
    assert!(matches!(accept_step(false, AcceptEvent::WouldBlock), AcceptAction::Sleep));
    assert!(matches!(accept_step(false, AcceptEvent::Failed), AcceptAction::Stop));
}

#[test]
fn connect_retry_policy() {
    assert!(matches!(
        connect_retry_step(1, Some(VmState::Stopped)),
        RetryDecision::AbortVmDown
    ));
    assert!(matches!(
        connect_retry_step(3, Some(VmState::Error)),
        RetryDecision::AbortVmDown
    ));
    assert!(matches!(connect_retry_step(10, None), RetryDecision::Attempt));
    assert!(matches!(
        connect_retry_step(11, Some(VmState::Starting)),
        RetryDecision::GiveUp
    ));
}

#[test]
fn builder_plan_and_errors() {
    match VmConfigBuilder::new().build() {
        Err(VmError::ConfigInvalid(m)) => assert_eq!(m, b"kernel path is required".to_vec()),
        _ => panic!("kernel is required"),
    }
    match VmConfigBuilder::new().kernel(b"/k".to_vec()).build() {
        Err(VmError::ConfigInvalid(m)) => assert_eq!(m, b"rootfs path is required".to_vec()),
        _ => panic!("rootfs is required"),
    }
    let sandbox = VmConfigBuilder::new()
        .kernel(b"/k".to_vec())
        .rootfs(b"/r".to_vec())
        .initrd(b"/i".to_vec())
        .cpus(4)
        .memory_mb(1024)
        .quiet(true)
        .console(false)
        .allow_net(true)
        .mount(MountConfig {
            host_path: b"/h1".to_vec(),
            guest_path: b"/g1".to_vec(),
            persistent: false,
        })
        .mount(MountConfig {
            host_path: b"/h2".to_vec(),
            guest_path: b"/g2".to_vec(),
            persistent: true,
        })
        .build()
        .ok()
        .expect("builds");
    let plan = &sandbox.plan;
    assert_eq!(plan.kernel, b"/k".to_vec());
    assert_eq!(plan.cmdline, b"console=hvc0 root=/dev/vda rw quiet loglevel=3".to_vec());
    assert_eq!(plan.cpus, 4);
    assert_eq!(plan.memory_bytes, 1024 * 1024 * 1024);
    assert!(!plan.console);
    assert!(plan.allow_net);
    assert_eq!(plan.shares.len(), 2);
    assert_eq!(plan.shares[0].tag, b"mount0".to_vec());
    assert!(plan.shares[0].read_only);
    assert_eq!(plan.shares[1].tag, b"mount1".to_vec());
    assert!(!plan.shares[1].read_only);
    assert_eq!(sandbox.pending_mounts.len(), 2);
    assert_eq!(sandbox.pending_mounts[0].guest_path, b"/g1".to_vec());
    assert_eq!(mount_tag(12), b"mount12".to_vec());
}

#[test]
fn default_cmdline_without_quiet() {
    let sandbox = VmConfigBuilder::new()
        .kernel(b"/k".to_vec())
        .rootfs(b"/r".to_vec())
        .build()
        .ok()
        .expect("builds");
    assert_eq!(sandbox.plan.cmdline, b"console=hvc0 root=/dev/vda rw".to_vec());
    assert_eq!(sandbox.plan.memory_bytes, 2048 * 1024 * 1024);
    assert_eq!(sandbox.plan.cpus, 2);
}

#[test]
fn spec_parsing() {
    let m = parse_port_mapping(b"8080:80").expect("valid");
    assert_eq!((m.host_port, m.guest_port), (8080, 80));
    assert!(parse_port_mapping(b"8080").is_none());
    assert!(parse_port_mapping(b"0:80").is_none());
    assert!(parse_port_mapping(b"8080:65536").is_none());
    assert!(parse_port_mapping(b"a:80").is_none());
    assert!(parse_port_mapping(b"1:2:3").is_none());

    let m = parse_mount_spec(b"./src:/workspace:ro").expect("valid");
    assert_eq!(m.host_path, b"./src".to_vec());
    assert_eq!(m.guest_path, b"/workspace".to_vec());
    assert!(!m.persistent);
    let m = parse_mount_spec(b"/data:/mnt:rw").expect("valid");
    assert!(m.persistent);
    let m = parse_mount_spec(b"/data:/mnt").expect("mode optional");
    assert!(!m.persistent);
    assert!(parse_mount_spec(b"/data").is_none());
    assert!(parse_mount_spec(b"/data:relative").is_none());
    assert!(parse_mount_spec(b"/data:/mnt:rx").is_none());
}

#[test]
fn config_file_parsing_and_resolution() {
    let text = b"{\n  \"cpus\": 8,\n  \"allow_net\": true,\n  \"command\": [\"/bin/sh\", \"-l\"],\n  \"ports\": [\"8080:80\"]\n}\n";
    let cfg = parse_config(text).expect("parses");
    assert_eq!(cfg.cpus, Some(8));
    assert_eq!(cfg.memory, None);
    assert_eq!(cfg.allow_net, Some(true));
    assert_eq!(cfg.command, Some(vec![b"/bin/sh".to_vec(), b"-l".to_vec()]));
    assert_eq!(cfg.ports, Some(vec![b"8080:80".to_vec()]));
    assert!(parse_config(b"{\"cpus\": \"two\"}").is_none());

    // Flags beat the file; the file beats the defaults.
    let r = resolve_settings(Some(2), None, None, false, &cfg);
    assert_eq!(r.cpus, 2);
    let r = resolve_settings(None, None, None, false, &cfg);
    assert_eq!(r.cpus, 8);
    assert_eq!(r.memory, 2048);
    assert_eq!(r.disk_size, 4096);
    assert!(r.allow_net);
}

#[test]
fn data_directory_layout() {
    let data = default_data_dir(b"/Users/dev");
    assert_eq!(data, b"/Users/dev/.local/share/shuru".to_vec());
    assert_eq!(
        checkpoint_path(&data, b"base"),
        b"/Users/dev/.local/share/shuru/checkpoints/base.ext4".to_vec()
    );
    assert_eq!(
        instance_dir(&data, 4242),
        b"/Users/dev/.local/share/shuru/instances/4242".to_vec()
    );
    // A `--from` run reads the checkpoint it names; a plain run reads the
    // base image.
    let base = b"/Users/dev/.local/share/shuru/rootfs.ext4".to_vec();
    let from = b"base".to_vec();
    assert_eq!(
        source_disk(&data, Some(&from), &base),
        checkpoint_path(&data, b"base")
    );
    assert_eq!(source_disk(&data, None, &base), base);
    assert_eq!(disk_size_bytes(4096), Some(4096 * 1024 * 1024));
    assert_eq!(disk_size_bytes(u64::MAX / 2), None);
}

#[test]
fn checkpoint_age_labels() {
    assert_eq!(age_label(0), b"just now".to_vec());
    assert_eq!(age_label(59), b"just now".to_vec());
    assert_eq!(age_label(60), b"1m ago".to_vec());
    assert_eq!(age_label(3599), b"59m ago".to_vec());
    assert_eq!(age_label(7200), b"2h ago".to_vec());
    assert_eq!(age_label(86400 * 3), b"3d ago".to_vec());
}

#[test]
fn network_bringup_plan() {
    assert!(matches!(net_plan(false, false), NetPlan::NoDevice));
    assert!(matches!(net_plan(false, true), NetPlan::NoDevice));
    assert!(matches!(net_plan(true, true), NetPlan::AlreadyConfigured));
    assert!(matches!(net_plan(true, false), NetPlan::LeaveUnconfigured));
}

#[test]
fn builder_from_sandbox() {
    let b = shuru::sandbox::Sandbox::builder();
    assert_eq!(b.cpus, 2);
    assert_eq!(b.memory_mb, 2048);
    assert!(b.console);
    assert!(!b.allow_net);
}

#[test]
fn vm_state_codes() {
    assert_eq!(vm_state_from_raw(0), VmState::Stopped);
    assert_eq!(vm_state_from_raw(1), VmState::Running);
    assert_eq!(vm_state_from_raw(3), VmState::Error);
    assert_eq!(vm_state_from_raw(7), VmState::Stopping);
    assert_eq!(vm_state_from_raw(99), VmState::Unknown);
    assert_eq!(vm_state_from_raw(-1), VmState::Unknown);
}

#[test]
fn vz_error_carries_message() {
    let e = VzError::new(b"boot failed".to_vec());
    assert_eq!(e.message(), &b"boot failed".to_vec());
}


#[test]
fn guest_error_frames() {
    assert_eq!(
        guest::error_line(b"empty argv"),
        b"{\"type\":\"error\",\"data\":\"empty argv\"}\n".to_vec()
    );
    assert_eq!(
        guest::stdout_line(b"hi"),
        b"{\"type\":\"stdout\",\"data\":\"hi\"}\n".to_vec()
    );
    assert_eq!(guest::default_rows(), 24);
    assert_eq!(guest::default_cols(), 80);
}
