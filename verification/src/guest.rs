//! Guest-side (PID 1) decision logic.
//!
//! Everything the in-guest agent decides — how a session line is
//! classified, what an exec request means once defaults are applied, which
//! response frames a finished child produces, what exit code a wait status
//! maps to, and which environment defaults a PTY child receives — lives
//! here as verified functions on plain values.  The surrounding process
//! machinery (sockets, fork, mounts, the PTY itself) performs these
//! decisions' actions.

use vstd::prelude::*;

use crate::codec::enc_line;
use crate::codec::JVal;
use crate::codec::sp_doc;
use crate::proto::ExecResponse;
use crate::proto::MountRequest;
use crate::proto::jget;
use crate::proto::bytes_eq;
use crate::proto::copy_strs;
use crate::proto::copy_pairs;
use crate::proto::exec_response_fields;
use crate::proto::encode_exec_response;
use crate::proto::sp_exec_request_line;
use crate::proto::sp_exec_request_of;
use crate::proto::sp_exec_response_line;
use crate::proto::sp_mount_request_of;
use crate::proto::sp_has_tag;
use crate::proto::parse_mount_request;
use crate::proto::lemma_exec_response_round_trip;
use crate::proto::k_argv;
use crate::proto::k_env;
use crate::proto::k_tty;
use crate::proto::k_rows;
use crate::proto::k_cols;
use crate::proto::k_tag;
use crate::proto::v_stdout;
use crate::proto::v_stderr;
use crate::proto::v_exit;
use crate::proto::v_error_s;
use crate::proto::val_stdout;
use crate::proto::val_stderr;
use crate::proto::val_exit;
use crate::proto::val_error_s;

verus! {

/// Default terminal rows when an exec request carries none.
pub fn default_rows() -> (r: u16)
    ensures
        r == 24,
{
    24
}

/// Default terminal columns when an exec request carries none.
pub fn default_cols() -> (r: u16)
    ensures
        r == 80,
{
    80
}

/// The byte string `"TERM"`.
pub open spec fn key_term() -> Seq<u8> {
    seq![84u8, 69u8, 82u8, 77u8]
}

/// Executable form of `key_term`.
pub fn k_term() -> (r: Vec<u8>)
    ensures
        r@ == key_term(),
{
    let mut v: Vec<u8> = Vec::new();
    v.push(84);
    v.push(69);
    v.push(82);
    v.push(77);
    proof {
        assert(v@ =~= key_term());
    }
    v
}

/// The byte string `"PATH"`.
pub open spec fn key_path() -> Seq<u8> {
    seq![80u8, 65u8, 84u8, 72u8]
}

/// Executable form of `key_path`.
pub fn k_path() -> (r: Vec<u8>)
    ensures
        r@ == key_path(),
{
    let mut v: Vec<u8> = Vec::new();
    v.push(80);
    v.push(65);
    v.push(84);
    v.push(72);
    proof {
        assert(v@ =~= key_path());
    }
    v
}

/// The byte string `"xterm-256color"`.
pub open spec fn val_term_default() -> Seq<u8> {
    seq![120u8, 116u8, 101u8, 114u8, 109u8, 45u8, 50u8, 53u8, 54u8, 99u8, 111u8, 108u8, 111u8, 114u8]
}

/// Executable form of `val_term_default`.
pub fn v_term_default() -> (r: Vec<u8>)
    ensures
        r@ == val_term_default(),
{
    let mut v: Vec<u8> = Vec::new();
    v.push(120);
    v.push(116);
    v.push(101);
    v.push(114);
    v.push(109);
    v.push(45);
    v.push(50);
    v.push(53);
    v.push(54);
    v.push(99);
    v.push(111);
    v.push(108);
    v.push(111);
    v.push(114);
    proof {
        assert(v@ =~= val_term_default());
    }
    v
}

/// The byte string `"/usr/local/sbin:/usr/local/bin:/usr/sbin:/usr/bin:/sbin:/bin"`.
pub open spec fn val_path_default() -> Seq<u8> {
    seq![47u8, 117u8, 115u8, 114u8, 47u8, 108u8, 111u8, 99u8, 97u8, 108u8, 47u8, 115u8, 98u8, 105u8, 110u8, 58u8, 47u8, 117u8, 115u8, 114u8, 47u8, 108u8, 111u8, 99u8, 97u8, 108u8, 47u8, 98u8, 105u8, 110u8, 58u8, 47u8, 117u8, 115u8, 114u8, 47u8, 115u8, 98u8, 105u8, 110u8, 58u8, 47u8, 117u8, 115u8, 114u8, 47u8, 98u8, 105u8, 110u8, 58u8, 47u8, 115u8, 98u8, 105u8, 110u8, 58u8, 47u8, 98u8, 105u8, 110u8]
}

/// Executable form of `val_path_default`.
pub fn v_path_default() -> (r: Vec<u8>)
    ensures
        r@ == val_path_default(),
{
    let mut v: Vec<u8> = Vec::new();
    v.push(47);
    v.push(117);
    v.push(115);
    v.push(114);
    v.push(47);
    v.push(108);
    v.push(111);
    v.push(99);
    v.push(97);
    v.push(108);
    v.push(47);
    v.push(115);
    v.push(98);
    v.push(105);
    v.push(110);
    v.push(58);
    v.push(47);
    v.push(117);
    v.push(115);
    v.push(114);
    v.push(47);
    v.push(108);
    v.push(111);
    v.push(99);
    v.push(97);
    v.push(108);
    v.push(47);
    v.push(98);
    v.push(105);
    v.push(110);
    v.push(58);
    v.push(47);
    v.push(117);
    v.push(115);
    v.push(114);
    v.push(47);
    v.push(115);
    v.push(98);
    v.push(105);
    v.push(110);
    v.push(58);
    v.push(47);
    v.push(117);
    v.push(115);
    v.push(114);
    v.push(47);
    v.push(98);
    v.push(105);
    v.push(110);
    v.push(58);
    v.push(47);
    v.push(115);
    v.push(98);
    v.push(105);
    v.push(110);
    v.push(58);
    v.push(47);
    v.push(98);
    v.push(105);
    v.push(110);
    proof {
        assert(v@ =~= val_path_default());
    }
    v
}

/// The byte string `"empty argv"`.
pub open spec fn msg_empty_argv() -> Seq<u8> {
    seq![101u8, 109u8, 112u8, 116u8, 121u8, 32u8, 97u8, 114u8, 103u8, 118u8]
}

/// Executable form of `msg_empty_argv`.
pub fn m_empty_argv() -> (r: Vec<u8>)
    ensures
        r@ == msg_empty_argv(),
{
    let mut v: Vec<u8> = Vec::new();
    v.push(101);
    v.push(109);
    v.push(112);
    v.push(116);
    v.push(121);
    v.push(32);
    v.push(97);
    v.push(114);
    v.push(103);
    v.push(118);
    proof {
        assert(v@ =~= msg_empty_argv());
    }
    v
}

/// The byte string `"invalid request"`.
pub open spec fn msg_invalid_request() -> Seq<u8> {
    seq![105u8, 110u8, 118u8, 97u8, 108u8, 105u8, 100u8, 32u8, 114u8, 101u8, 113u8, 117u8, 101u8, 115u8, 116u8]
}

/// Executable form of `msg_invalid_request`.
pub fn m_invalid_request() -> (r: Vec<u8>)
    ensures
        r@ == msg_invalid_request(),
{
    let mut v: Vec<u8> = Vec::new();
    v.push(105);
    v.push(110);
    v.push(118);
    v.push(97);
    v.push(108);
    v.push(105);
    v.push(100);
    v.push(32);
    v.push(114);
    v.push(101);
    v.push(113);
    v.push(117);
    v.push(101);
    v.push(115);
    v.push(116);
    proof {
        assert(v@ =~= msg_invalid_request());
    }
    v
}

/// The byte string `"invalid mount request"`.
pub open spec fn msg_invalid_mount() -> Seq<u8> {
    seq![105u8, 110u8, 118u8, 97u8, 108u8, 105u8, 100u8, 32u8, 109u8, 111u8, 117u8, 110u8, 116u8, 32u8, 114u8, 101u8, 113u8, 117u8, 101u8, 115u8, 116u8]
}

/// Executable form of `msg_invalid_mount`.
pub fn m_invalid_mount() -> (r: Vec<u8>)
    ensures
        r@ == msg_invalid_mount(),
{
    let mut v: Vec<u8> = Vec::new();
    v.push(105);
    v.push(110);
    v.push(118);
    v.push(97);
    v.push(108);
    v.push(105);
    v.push(100);
    v.push(32);
    v.push(109);
    v.push(111);
    v.push(117);
    v.push(110);
    v.push(116);
    v.push(32);
    v.push(114);
    v.push(101);
    v.push(113);
    v.push(117);
    v.push(101);
    v.push(115);
    v.push(116);
    proof {
        assert(v@ =~= msg_invalid_mount());
    }
    v
}


// ---------------------------------------------------------------------------
// Exec requests as the guest sees them
// ---------------------------------------------------------------------------

/// An exec request after the parsing policy is applied: `argv` as sent,
/// `env` defaulting to empty, `tty` to false, and the window size to 24 by
/// 80.
pub struct ExecRequest {
    pub argv: Vec<Vec<u8>>,
    pub env: Vec<(Vec<u8>, Vec<u8>)>,
    pub tty: bool,
    pub rows: u16,
    pub cols: u16,
}

/// The model of a parsed exec request.
pub open spec fn exec_request_view(r: &ExecRequest) -> (
    Seq<Seq<u8>>,
    Seq<(Seq<u8>, Seq<u8>)>,
    bool,
    u16,
    u16,
) {
    (
        r.argv@.map_values(|v: Vec<u8>| v@),
        r.env@.map_values(|p: (Vec<u8>, Vec<u8>)| (p.0@, p.1@)),
        r.tty,
        r.rows,
        r.cols,
    )
}

/// Parse one exec request line, applying the documented defaults.
pub fn parse_exec_request(line: &[u8]) -> (r: Option<ExecRequest>)
    ensures
        match r {
            None => sp_exec_request_line(line@) == None::<
                (Seq<Seq<u8>>, Seq<(Seq<u8>, Seq<u8>)>, bool, u16, u16),
            >,
            Some(req) => sp_exec_request_line(line@) == Some(exec_request_view(&req)),
        },
{
    let fields = match crate::codec::parse_line(line) {
        None => {
            return None;
        },
        Some(f) => f,
    };
    let akey = k_argv();
    let argv: Vec<Vec<u8>> = match jget(&fields, akey.as_slice()) {
        Some(JVal::StrArr(items)) => copy_strs(items),
        _ => {
            return None;
        },
    };
    let ekey = k_env();
    let env: Vec<(Vec<u8>, Vec<u8>)> = match jget(&fields, ekey.as_slice()) {
        None => {
            let e: Vec<(Vec<u8>, Vec<u8>)> = Vec::new();
            proof {
                assert(e@.map_values(|p: (Vec<u8>, Vec<u8>)| (p.0@, p.1@)) =~= Seq::<
                    (Seq<u8>, Seq<u8>),
                >::empty());
            }
            e
        },
        Some(JVal::StrMap(pairs)) => copy_pairs(pairs),
        Some(_) => {
            return None;
        },
    };
    let tkey = k_tty();
    let tty: bool = match jget(&fields, tkey.as_slice()) {
        None => false,
        Some(JVal::Bool(b)) => *b,
        Some(_) => {
            return None;
        },
    };
    let rkey = k_rows();
    let rows: u16 = match jget(&fields, rkey.as_slice()) {
        None => default_rows(),
        Some(JVal::Num(n)) => {
            let n = *n;
            if n < 0 || n > 65535 {
                return None;
            }
            n as u16
        },
        Some(_) => {
            return None;
        },
    };
    let ckey = k_cols();
    let cols: u16 = match jget(&fields, ckey.as_slice()) {
        None => default_cols(),
        Some(JVal::Num(n)) => {
            let n = *n;
            if n < 0 || n > 65535 {
                return None;
            }
            n as u16
        },
        Some(_) => {
            return None;
        },
    };
    Some(ExecRequest { argv, env, tty, rows, cols })
}

// ---------------------------------------------------------------------------
// Session-line classification
// ---------------------------------------------------------------------------

/// What the guest does with one received session line.
pub enum GuestFrame {
    /// A well-formed mount request: perform it and reply.
    Mount(MountRequest),
    /// A frame with a `tag` field that is not a valid mount request.
    MountInvalid,
    /// A well-formed exec request with a nonempty `argv`.
    Exec(ExecRequest),
    /// A well-formed exec request whose `argv` is empty: reply with the
    /// `empty argv` error.
    EmptyArgv,
    /// Anything else: reply with the `invalid request` error.
    Invalid,
}

/// Model of the classification.
pub enum GuestFrameV {
    Mount((Seq<u8>, Seq<u8>, bool)),
    MountInvalid,
    Exec((Seq<Seq<u8>>, Seq<(Seq<u8>, Seq<u8>)>, bool, u16, u16)),
    EmptyArgv,
    Invalid,
}

/// View of a classified frame.
pub open spec fn guest_frame_view(f: &GuestFrame) -> GuestFrameV {
    match f {
        GuestFrame::Mount(m) => GuestFrameV::Mount((m.tag@, m.guest_path@, m.persistent)),
        GuestFrame::MountInvalid => GuestFrameV::MountInvalid,
        GuestFrame::Exec(r) => GuestFrameV::Exec(exec_request_view(r)),
        GuestFrame::EmptyArgv => GuestFrameV::EmptyArgv,
        GuestFrame::Invalid => GuestFrameV::Invalid,
    }
}

/// The classification policy: a line is a mount request exactly when it
/// carries a `tag` field; otherwise it is an exec request, rejected when
/// `argv` is missing or empty.
pub open spec fn sp_classify_line(s: Seq<u8>) -> GuestFrameV {
    match sp_doc(s) {
        None => GuestFrameV::Invalid,
        Some(fields) => if sp_has_tag(fields) {
            match sp_mount_request_of(fields) {
                Some(m) => GuestFrameV::Mount(m),
                None => GuestFrameV::MountInvalid,
            }
        } else {
            match sp_exec_request_of(fields) {
                Some(r) => if r.0.len() == 0 {
                    GuestFrameV::EmptyArgv
                } else {
                    GuestFrameV::Exec(r)
                },
                None => GuestFrameV::Invalid,
            }
        },
    }
}

/// Classify one session line.
pub fn classify_line(line: &[u8]) -> (r: GuestFrame)
    ensures
        guest_frame_view(&r) == sp_classify_line(line@),
{
    let fields = match crate::codec::parse_line(line) {
        None => {
            return GuestFrame::Invalid;
        },
        Some(f) => f,
    };
    let tkey = k_tag();
    if jget(&fields, tkey.as_slice()).is_some() {
        match parse_mount_request(line) {
            Some(m) => GuestFrame::Mount(m),
            None => GuestFrame::MountInvalid,
        }
    } else {
        match parse_exec_request(line) {
            Some(req) => {
                if req.argv.len() == 0 {
                    proof {
                        assert(exec_request_view(&req).0.len() == 0);
                    }
                    GuestFrame::EmptyArgv
                } else {
                    GuestFrame::Exec(req)
                }
            },
            None => GuestFrame::Invalid,
        }
    }
}

// ---------------------------------------------------------------------------
// Exit codes
// ---------------------------------------------------------------------------

/// The exit code the guest reports for a raw wait status: the child's own
/// code when it exited, 128 plus the signal number when a signal killed
/// it, and 1 otherwise.
pub open spec fn sp_wait_exit_code(status: u32) -> int {
    if status & 0x7f == 0 {
        ((status >> 8) & 0xff) as int
    } else if status & 0x7f != 0x7f {
        128 + (status & 0x7f) as int
    } else {
        1
    }
}

/// Decode a raw wait status into the exit code to report.
pub fn wait_exit_code(status: u32) -> (r: i32)
    ensures
        r as int == sp_wait_exit_code(status),
        0 <= r <= 255,
{
    proof {
        assert((status >> 8) & 0xff <= 0xff) by (bit_vector);
        assert(status & 0x7f <= 0x7f) by (bit_vector);
    }
    if status & 0x7f == 0 {
        ((status >> 8) & 0xff) as i32
    } else if status & 0x7f != 0x7f {
        128 + (status & 0x7f) as i32
    } else {
        1
    }
}

// ---------------------------------------------------------------------------
// Response emission
// ---------------------------------------------------------------------------

/// A response type is terminal exactly when it is `exit` or `error`.
pub open spec fn sp_is_terminal_type(t: Seq<u8>) -> bool {
    t == val_exit() || t == val_error_s()
}

/// A line is a terminal response frame.
pub open spec fn sp_terminal_line(s: Seq<u8>) -> bool {
    match sp_exec_response_line(s) {
        Some(r) => sp_is_terminal_type(r.0),
        None => false,
    }
}

/// The non-terminal output frames of a piped exec: one `stdout` frame if
/// there was output, then one `stderr` frame if there was any.
pub open spec fn sp_output_lines(out: Seq<u8>, err: Seq<u8>) -> Seq<Seq<u8>> {
    (if out.len() == 0 {
        Seq::<Seq<u8>>::empty()
    } else {
        seq![enc_line(exec_response_fields(val_stdout(), Some(out), None))]
    }) + (if err.len() == 0 {
        Seq::<Seq<u8>>::empty()
    } else {
        seq![enc_line(exec_response_fields(val_stderr(), Some(err), None))]
    })
}

/// All frames of a piped exec session: the output frames, then the
/// terminal `exit` frame.
pub open spec fn sp_piped_lines(out: Seq<u8>, err: Seq<u8>, code: int) -> Seq<Seq<u8>> {
    sp_output_lines(out, err) + seq![enc_line(exec_response_fields(val_exit(), None, Some(code)))]
}

/// Build the output frames of a piped exec.  The caller writes these,
/// syncs the filesystem, and only then writes the exit frame: a host that
/// stops the VM on `exit` must not lose guest writes.
pub fn output_lines(stdout_data: &Vec<u8>, stderr_data: &Vec<u8>) -> (r: Vec<Vec<u8>>)
    ensures
        r@.map_values(|v: Vec<u8>| v@) == sp_output_lines(stdout_data@, stderr_data@),
{
    let mut out: Vec<Vec<u8>> = Vec::new();
    if stdout_data.len() > 0 {
        out.push(
            encode_exec_response(
                &ExecResponse {
                    msg_type: v_stdout(),
                    data: Some(vstd::slice::slice_to_vec(stdout_data.as_slice())),
                    code: None,
                },
            ),
        );
    }
    if stderr_data.len() > 0 {
        out.push(
            encode_exec_response(
                &ExecResponse {
                    msg_type: v_stderr(),
                    data: Some(vstd::slice::slice_to_vec(stderr_data.as_slice())),
                    code: None,
                },
            ),
        );
    }
    proof {
        assert(out@.map_values(|v: Vec<u8>| v@) =~= sp_output_lines(stdout_data@, stderr_data@));
    }
    out
}

/// Build the terminal `exit` frame.
pub fn exit_line(code: i32) -> (r: Vec<u8>)
    ensures
        r@ == enc_line(exec_response_fields(val_exit(), None, Some(code as int))),
{
    encode_exec_response(&ExecResponse { msg_type: v_exit(), data: None, code: Some(code) })
}

/// Build a terminal `error` frame carrying a message.
pub fn error_line(msg: &[u8]) -> (r: Vec<u8>)
    ensures
        r@ == enc_line(exec_response_fields(val_error_s(), Some(msg@), None)),
{
    encode_exec_response(
        &ExecResponse {
            msg_type: v_error_s(),
            data: Some(vstd::slice::slice_to_vec(msg)),
            code: None,
        },
    )
}

/// Build a `stdout` frame carrying PTY output.
pub fn stdout_line(data: &[u8]) -> (r: Vec<u8>)
    ensures
        r@ == enc_line(exec_response_fields(val_stdout(), Some(data@), None)),
{
    encode_exec_response(
        &ExecResponse {
            msg_type: v_stdout(),
            data: Some(vstd::slice::slice_to_vec(data)),
            code: None,
        },
    )
}

/// A piped exec session has exactly one terminal frame, and it is the
/// last; every frame before it is a well-formed non-terminal response.
/// The exit frame is a terminal response; a PTY session, which sends
/// stdout frames and one exit frame, therefore also ends with its only
/// terminal frame.
pub proof fn lemma_exit_line_kind(code: int)
    requires
        i32::MIN <= code <= i32::MAX,
    ensures
        sp_terminal_line(enc_line(exec_response_fields(val_exit(), None, Some(code)))),
        sp_exec_response_line(enc_line(exec_response_fields(val_exit(), None, Some(code))))
            != None::<(Seq<u8>, Option<Seq<u8>>, Option<int>)>,
{
    lemma_exec_response_round_trip(val_exit(), None, Some(code));
}

/// A stdout frame is a well-formed non-terminal response.
#[verifier::rlimit(100)]
pub proof fn lemma_stdout_line_kind(out: Seq<u8>)
    ensures
        !sp_terminal_line(enc_line(exec_response_fields(val_stdout(), Some(out), None))),
        sp_exec_response_line(enc_line(exec_response_fields(val_stdout(), Some(out), None)))
            != None::<(Seq<u8>, Option<Seq<u8>>, Option<int>)>,
{
    lemma_exec_response_round_trip(val_stdout(), Some(out), None);
    assert(val_stdout() != val_exit() && val_stdout() != val_error_s());
}

/// A stderr frame is a well-formed non-terminal response.
#[verifier::rlimit(100)]
pub proof fn lemma_stderr_line_kind(err: Seq<u8>)
    ensures
        !sp_terminal_line(enc_line(exec_response_fields(val_stderr(), Some(err), None))),
        sp_exec_response_line(enc_line(exec_response_fields(val_stderr(), Some(err), None)))
            != None::<(Seq<u8>, Option<Seq<u8>>, Option<int>)>,
{
    lemma_exec_response_round_trip(val_stderr(), Some(err), None);
    assert(val_stderr() != val_exit() && val_stderr() != val_error_s());
}

/// Any session whose frames are valid non-terminal responses followed by
/// one terminal response has exactly one terminal frame, at the end.
proof fn lemma_session_shape(front: Seq<Seq<u8>>, z: Seq<u8>)
    requires
        forall|k: int|
            0 <= k < front.len() ==> !sp_terminal_line(#[trigger] front[k]) && sp_exec_response_line(
                front[k],
            ) != None::<(Seq<u8>, Option<Seq<u8>>, Option<int>)>,
        sp_terminal_line(z),
        sp_exec_response_line(z) != None::<(Seq<u8>, Option<Seq<u8>>, Option<int>)>,
    ensures
        (front + seq![z]).len() >= 1,
        sp_terminal_line((front + seq![z]).last()),
        forall|k: int|
            0 <= k < (front + seq![z]).len() - 1 ==> !sp_terminal_line(
                #[trigger] (front + seq![z])[k],
            ),
        forall|k: int|
            0 <= k < (front + seq![z]).len() ==> sp_exec_response_line(
                #[trigger] (front + seq![z])[k],
            ) != None::<(Seq<u8>, Option<Seq<u8>>, Option<int>)>,
{
    let ls = front + seq![z];
    assert(ls.last() == z);
    assert forall|k: int| 0 <= k < ls.len() - 1 implies !sp_terminal_line(#[trigger] ls[k]) by {
        assert(ls[k] == front[k]);
    }
    assert forall|k: int| 0 <= k < ls.len() implies sp_exec_response_line(#[trigger] ls[k])
        != None::<(Seq<u8>, Option<Seq<u8>>, Option<int>)> by {
        if k < front.len() {
            assert(ls[k] == front[k]);
        } else {
            assert(ls[k] == z);
        }
    }
}

#[verifier::rlimit(100)]
pub proof fn lemma_piped_session_terminal(out: Seq<u8>, err: Seq<u8>, code: int)
    requires
        i32::MIN <= code <= i32::MAX,
    ensures
        sp_piped_lines(out, err, code).len() >= 1,
        sp_terminal_line(sp_piped_lines(out, err, code).last()),
        forall|k: int|
            0 <= k < sp_piped_lines(out, err, code).len() - 1 ==> !sp_terminal_line(
                #[trigger] sp_piped_lines(out, err, code)[k],
            ),
        forall|k: int|
            0 <= k < sp_piped_lines(out, err, code).len() ==> sp_exec_response_line(
                #[trigger] sp_piped_lines(out, err, code)[k],
            ) != None::<(Seq<u8>, Option<Seq<u8>>, Option<int>)>,
{
    let front = sp_output_lines(out, err);
    let exit_l = enc_line(exec_response_fields(val_exit(), None, Some(code)));
    let out_l = enc_line(exec_response_fields(val_stdout(), Some(out), None));
    let err_l = enc_line(exec_response_fields(val_stderr(), Some(err), None));
    lemma_exit_line_kind(code);
    lemma_stdout_line_kind(out);
    lemma_stderr_line_kind(err);
    assert forall|k: int| 0 <= k < front.len() implies !sp_terminal_line(#[trigger] front[k])
        && sp_exec_response_line(front[k]) != None::<(Seq<u8>, Option<Seq<u8>>, Option<int>)> by {
        assert(front[k] == out_l || front[k] == err_l);
    }
    lemma_session_shape(front, exit_l);
    assert(sp_piped_lines(out, err, code) == front + seq![exit_l]);
}

/// All frames of a PTY exec session: one `stdout` frame per chunk the
/// master produced, then the terminal `exit` frame.
pub open spec fn sp_pty_lines(chunks: Seq<Seq<u8>>, code: int) -> Seq<Seq<u8>> {
    chunks.map_values(
        |c: Seq<u8>| enc_line(exec_response_fields(val_stdout(), Some(c), None)),
    ) + seq![enc_line(exec_response_fields(val_exit(), None, Some(code)))]
}

/// A PTY exec session, too, has exactly one terminal frame, and it is the
/// last; every frame before it is a well-formed `stdout` response.
pub proof fn lemma_pty_session_terminal(chunks: Seq<Seq<u8>>, code: int)
    requires
        i32::MIN <= code <= i32::MAX,
    ensures
        sp_pty_lines(chunks, code).len() >= 1,
        sp_terminal_line(sp_pty_lines(chunks, code).last()),
        forall|k: int|
            0 <= k < sp_pty_lines(chunks, code).len() - 1 ==> !sp_terminal_line(
                #[trigger] sp_pty_lines(chunks, code)[k],
            ),
        forall|k: int|
            0 <= k < sp_pty_lines(chunks, code).len() ==> sp_exec_response_line(
                #[trigger] sp_pty_lines(chunks, code)[k],
            ) != None::<(Seq<u8>, Option<Seq<u8>>, Option<int>)>,
{
    let front = chunks.map_values(
        |c: Seq<u8>| enc_line(exec_response_fields(val_stdout(), Some(c), None)),
    );
    let exit_l = enc_line(exec_response_fields(val_exit(), None, Some(code)));
    lemma_exit_line_kind(code);
    assert forall|k: int| 0 <= k < front.len() implies !sp_terminal_line(#[trigger] front[k])
        && sp_exec_response_line(front[k]) != None::<(Seq<u8>, Option<Seq<u8>>, Option<int>)> by {
        lemma_stdout_line_kind(chunks[k]);
    }
    lemma_session_shape(front, exit_l);
    assert(sp_pty_lines(chunks, code) == front + seq![exit_l]);
}

// ---------------------------------------------------------------------------
// Networking bringup
// ---------------------------------------------------------------------------

/// What the agent does about networking at boot, after loopback is up.
pub enum NetPlan {
    /// No network device: sandbox mode, nothing to do.
    NoDevice,
    /// The interface already has an address: the initramfs configured it.
    AlreadyConfigured,
    /// The interface exists but has no address: it is left uninitialised.
    LeaveUnconfigured,
}

/// Decide the networking bringup from what the interface probe saw:
/// without `eth0` there is nothing to do; with an address already set the
/// initramfs did the work; an addressless interface is recorded and left
/// uninitialised.
pub fn net_plan(has_eth0: bool, has_address: bool) -> (r: NetPlan)
    ensures
        !has_eth0 ==> r == NetPlan::NoDevice,
        has_eth0 && has_address ==> r == NetPlan::AlreadyConfigured,
        has_eth0 && !has_address ==> r == NetPlan::LeaveUnconfigured,
{
    if !has_eth0 {
        NetPlan::NoDevice
    } else if has_address {
        NetPlan::AlreadyConfigured
    } else {
        NetPlan::LeaveUnconfigured
    }
}

// ---------------------------------------------------------------------------
// Environment defaults for PTY children
// ---------------------------------------------------------------------------

/// Whether `env` binds `key`.
pub open spec fn sp_env_has(env: Seq<(Seq<u8>, Seq<u8>)>, key: Seq<u8>) -> bool {
    exists|k: int| 0 <= k < env.len() && (#[trigger] env[k]).0 == key
}

/// Whether `env` binds `key`, executable.
pub fn env_has(env: &Vec<(Vec<u8>, Vec<u8>)>, key: &[u8]) -> (r: bool)
    ensures
        r == sp_env_has(env@.map_values(|p: (Vec<u8>, Vec<u8>)| (p.0@, p.1@)), key@),
{
    let ghost v = env@.map_values(|p: (Vec<u8>, Vec<u8>)| (p.0@, p.1@));
    let mut i: usize = 0;
    while i < env.len()
        invariant
            0 <= i <= env@.len(),
            v == env@.map_values(|p: (Vec<u8>, Vec<u8>)| (p.0@, p.1@)),
            forall|k: int| 0 <= k < i ==> (#[trigger] v[k]).0 != key@,
        decreases env@.len() - i,
    {
        if bytes_eq(env[i].0.as_slice(), key) {
            proof {
                assert(v[i as int].0 == key@);
            }
            return true;
        }
        i = i + 1;
    }
    false
}

/// The environment a PTY child receives: the request's own bindings, with
/// `TERM` and `PATH` appended only where the request left them unset.
pub open spec fn sp_env_with_defaults(env: Seq<(Seq<u8>, Seq<u8>)>) -> Seq<(Seq<u8>, Seq<u8>)> {
    env + (if sp_env_has(env, key_term()) {
        Seq::<(Seq<u8>, Seq<u8>)>::empty()
    } else {
        seq![(key_term(), val_term_default())]
    }) + (if sp_env_has(env, key_path()) {
        Seq::<(Seq<u8>, Seq<u8>)>::empty()
    } else {
        seq![(key_path(), val_path_default())]
    })
}

/// Append the default `TERM` and `PATH` bindings where they are missing.
pub fn env_with_defaults(env: Vec<(Vec<u8>, Vec<u8>)>) -> (r: Vec<(Vec<u8>, Vec<u8>)>)
    ensures
        r@.map_values(|p: (Vec<u8>, Vec<u8>)| (p.0@, p.1@)) == sp_env_with_defaults(
            env@.map_values(|p: (Vec<u8>, Vec<u8>)| (p.0@, p.1@)),
        ),
{
    let ghost v0 = env@.map_values(|p: (Vec<u8>, Vec<u8>)| (p.0@, p.1@));
    let mut out = env;
    let term_key = k_term();
    if !env_has(&out, term_key.as_slice()) {
        let ghost before = out@;
        out.push((k_term(), v_term_default()));
        proof {
            before.lemma_push_map_commute(
                |p: (Vec<u8>, Vec<u8>)| (p.0@, p.1@),
                out@[out@.len() - 1],
            );
        }
    }
    let path_key = k_path();
    let has_path = env_has(&out, path_key.as_slice());
    proof {
        lemma_env_has_push_other(v0, out@.map_values(|p: (Vec<u8>, Vec<u8>)| (p.0@, p.1@)));
    }
    if !has_path {
        let ghost before = out@;
        out.push((k_path(), v_path_default()));
        proof {
            before.lemma_push_map_commute(
                |p: (Vec<u8>, Vec<u8>)| (p.0@, p.1@),
                out@[out@.len() - 1],
            );
        }
    }
    proof {
        assert(out@.map_values(|p: (Vec<u8>, Vec<u8>)| (p.0@, p.1@)) =~= sp_env_with_defaults(v0));
    }
    out
}

/// Appending a `TERM` binding neither adds nor removes a `PATH` binding.
proof fn lemma_env_has_push_other(v0: Seq<(Seq<u8>, Seq<u8>)>, v1: Seq<(Seq<u8>, Seq<u8>)>)
    requires
        v1 == v0 || v1 == v0.push((key_term(), val_term_default())),
    ensures
        sp_env_has(v1, key_path()) == sp_env_has(v0, key_path()),
{
    assert(key_term() != key_path());
    if v1 != v0 {
        assert forall|k: int| 0 <= k < v0.len() implies (#[trigger] v0[k]) == v1[k] by {}
        if sp_env_has(v0, key_path()) {
            let k = choose|k: int| 0 <= k < v0.len() && (#[trigger] v0[k]).0 == key_path();
            assert(v1[k].0 == key_path());
        }
        if sp_env_has(v1, key_path()) {
            let k = choose|k: int| 0 <= k < v1.len() && (#[trigger] v1[k]).0 == key_path();
            assert(k < v0.len());
            assert(v0[k].0 == key_path());
        }
    }
}

} // verus!
