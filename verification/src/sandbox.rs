//! The host-side sandbox: building a launch plan, and driving exec, shell
//! and port-forward sessions over the guest socket.
//!
//! The functions here are the decisions of the host orchestrator: which
//! frames a session sends, how response frames fold into an exit code and
//! output, when the mount handshake happens (only once per sandbox), how
//! the forward handshake is checked, and when the accept and connect loops
//! stop.  The I/O around them — sockets, threads, the platform adapter —
//! performs what these functions decide.

use vstd::prelude::*;

use crate::codec::enc_line;
use crate::codec::dec_digits;
use crate::proto::MountRequest;
use crate::proto::ControlMessage;
use crate::proto::mount_request_fields;
use crate::proto::encode_mount_request;
use crate::proto::sp_exec_response_line;
use crate::proto::sp_forward_response_line;
use crate::proto::sp_control_line;
use crate::proto::parse_exec_response;
use crate::proto::parse_forward_response;
use crate::proto::parse_control;
use crate::proto::bytes_eq;
use crate::proto::ControlV;
use crate::proto::opt_bytes;
use crate::proto::opt_int;
use crate::guest::sp_is_terminal_type;
use crate::lines::sp_split_line;
use crate::lines::split_first_line;
use crate::lines::lemma_split_line_exact;
use crate::vmstate::VmState;

verus! {

/// The byte string `"ok"`.
pub open spec fn val_ok_status() -> Seq<u8> {
    seq![111u8, 107u8]
}

/// Executable form of `val_ok_status`.
pub fn v_ok_status() -> (r: Vec<u8>)
    ensures
        r@ == val_ok_status(),
{
    let mut v: Vec<u8> = Vec::new();
    v.push(111);
    v.push(107);
    proof {
        assert(v@ =~= val_ok_status());
    }
    v
}

/// The byte string `"guest error: "`.
pub open spec fn msg_guest_error_prefix() -> Seq<u8> {
    seq![103u8, 117u8, 101u8, 115u8, 116u8, 32u8, 101u8, 114u8, 114u8, 111u8, 114u8, 58u8, 32u8]
}

/// Executable form of `msg_guest_error_prefix`.
pub fn m_guest_error_prefix() -> (r: Vec<u8>)
    ensures
        r@ == msg_guest_error_prefix(),
{
    let mut v: Vec<u8> = Vec::new();
    v.push(103);
    v.push(117);
    v.push(101);
    v.push(115);
    v.push(116);
    v.push(32);
    v.push(101);
    v.push(114);
    v.push(114);
    v.push(111);
    v.push(114);
    v.push(58);
    v.push(32);
    proof {
        assert(v@ =~= msg_guest_error_prefix());
    }
    v
}

/// The byte string `"mount"`.
pub open spec fn val_mount_tag_prefix() -> Seq<u8> {
    seq![109u8, 111u8, 117u8, 110u8, 116u8]
}

/// Executable form of `val_mount_tag_prefix`.
pub fn v_mount_tag_prefix() -> (r: Vec<u8>)
    ensures
        r@ == val_mount_tag_prefix(),
{
    let mut v: Vec<u8> = Vec::new();
    v.push(109);
    v.push(111);
    v.push(117);
    v.push(110);
    v.push(116);
    proof {
        assert(v@ =~= val_mount_tag_prefix());
    }
    v
}

/// The byte string `"console=hvc0 root=/dev/vda rw"`.
pub open spec fn val_cmdline_base() -> Seq<u8> {
    seq![99u8, 111u8, 110u8, 115u8, 111u8, 108u8, 101u8, 61u8, 104u8, 118u8, 99u8, 48u8, 32u8, 114u8, 111u8, 111u8, 116u8, 61u8, 47u8, 100u8, 101u8, 118u8, 47u8, 118u8, 100u8, 97u8, 32u8, 114u8, 119u8]
}

/// Executable form of `val_cmdline_base`.
pub fn v_cmdline_base() -> (r: Vec<u8>)
    ensures
        r@ == val_cmdline_base(),
{
    let mut v: Vec<u8> = Vec::new();
    v.push(99);
    v.push(111);
    v.push(110);
    v.push(115);
    v.push(111);
    v.push(108);
    v.push(101);
    v.push(61);
    v.push(104);
    v.push(118);
    v.push(99);
    v.push(48);
    v.push(32);
    v.push(114);
    v.push(111);
    v.push(111);
    v.push(116);
    v.push(61);
    v.push(47);
    v.push(100);
    v.push(101);
    v.push(118);
    v.push(47);
    v.push(118);
    v.push(100);
    v.push(97);
    v.push(32);
    v.push(114);
    v.push(119);
    proof {
        assert(v@ =~= val_cmdline_base());
    }
    v
}

/// The byte string `"console=hvc0 root=/dev/vda rw quiet loglevel=3"`.
pub open spec fn val_cmdline_quiet() -> Seq<u8> {
    seq![99u8, 111u8, 110u8, 115u8, 111u8, 108u8, 101u8, 61u8, 104u8, 118u8, 99u8, 48u8, 32u8, 114u8, 111u8, 111u8, 116u8, 61u8, 47u8, 100u8, 101u8, 118u8, 47u8, 118u8, 100u8, 97u8, 32u8, 114u8, 119u8, 32u8, 113u8, 117u8, 105u8, 101u8, 116u8, 32u8, 108u8, 111u8, 103u8, 108u8, 101u8, 118u8, 101u8, 108u8, 61u8, 51u8]
}

/// Executable form of `val_cmdline_quiet`.
pub fn v_cmdline_quiet() -> (r: Vec<u8>)
    ensures
        r@ == val_cmdline_quiet(),
{
    let mut v: Vec<u8> = Vec::new();
    v.push(99);
    v.push(111);
    v.push(110);
    v.push(115);
    v.push(111);
    v.push(108);
    v.push(101);
    v.push(61);
    v.push(104);
    v.push(118);
    v.push(99);
    v.push(48);
    v.push(32);
    v.push(114);
    v.push(111);
    v.push(111);
    v.push(116);
    v.push(61);
    v.push(47);
    v.push(100);
    v.push(101);
    v.push(118);
    v.push(47);
    v.push(118);
    v.push(100);
    v.push(97);
    v.push(32);
    v.push(114);
    v.push(119);
    v.push(32);
    v.push(113);
    v.push(117);
    v.push(105);
    v.push(101);
    v.push(116);
    v.push(32);
    v.push(108);
    v.push(111);
    v.push(103);
    v.push(108);
    v.push(101);
    v.push(118);
    v.push(101);
    v.push(108);
    v.push(61);
    v.push(51);
    proof {
        assert(v@ =~= val_cmdline_quiet());
    }
    v
}


// ---------------------------------------------------------------------------
// Mount plan and tags
// ---------------------------------------------------------------------------

/// A host directory to share with the guest.  A non-persistent mount is
/// exported read-only and overlaid with tmpfs inside the guest; a
/// persistent one is writable and changes survive on the host.
pub struct MountConfig {
    pub host_path: Vec<u8>,
    pub guest_path: Vec<u8>,
    pub persistent: bool,
}

/// The tag of the directory share with index `i`.
pub open spec fn sp_mount_tag(i: int) -> Seq<u8> {
    val_mount_tag_prefix() + dec_digits(i as nat)
}

/// Build the tag for share index `i`.
pub fn mount_tag(i: usize) -> (r: Vec<u8>)
    ensures
        r@ == sp_mount_tag(i as int),
{
    let mut v = v_mount_tag_prefix();
    let mut digits: Vec<u8> = Vec::new();
    write_dec_usize(&mut digits, i);
    let mut j: usize = 0;
    while j < digits.len()
        invariant
            0 <= j <= digits@.len(),
            v@ == val_mount_tag_prefix() + digits@.take(j as int),
        decreases digits@.len() - j,
    {
        v.push(digits[j]);
        proof {
            assert(digits@.take(j + 1) =~= digits@.take(j as int).push(digits@[j as int]));
            assert(v@ =~= val_mount_tag_prefix() + digits@.take(j + 1));
        }
        j = j + 1;
    }
    proof {
        assert(digits@.take(digits@.len() as int) =~= digits@);
    }
    v
}

/// Append the decimal digits of `n`.
fn write_dec_usize(out: &mut Vec<u8>, n: usize)
    ensures
        final(out)@ == old(out)@ + dec_digits(n as nat),
    decreases n,
{
    if n < 10 {
        out.push(0x30 + n as u8);
        proof {
            assert(final(out)@ =~= old(out)@ + dec_digits(n as nat));
        }
    } else {
        write_dec_usize(out, n / 10);
        out.push(0x30 + (n % 10) as u8);
        proof {
            assert(final(out)@ =~= old(out)@ + dec_digits(n as nat));
        }
    }
}

/// Distinct share indices get distinct tags (mount tags are unique per
/// VM).
pub proof fn lemma_mount_tags_unique(i: int, j: int)
    requires
        0 <= i,
        0 <= j,
        i != j,
    ensures
        sp_mount_tag(i) != sp_mount_tag(j),
{
    if sp_mount_tag(i) == sp_mount_tag(j) {
        let p = val_mount_tag_prefix();
        let di = dec_digits(i as nat);
        let dj = dec_digits(j as nat);
        assert(p + di == p + dj);
        assert((p + di).len() == p.len() + di.len());
        assert((p + dj).len() == p.len() + dj.len());
        assert(di.len() == dj.len());
        assert(di =~= dj) by {
            assert forall|k: int| 0 <= k < di.len() implies di[k] == dj[k] by {
                assert((p + di)[p.len() + k] == di[k]);
                assert((p + dj)[p.len() + k] == dj[k]);
            }
        }
        lemma_dec_digits_inj(i as nat, j as nat);
    }
}

/// Decimal digit strings are injective.
proof fn lemma_dec_digits_inj(a: nat, b: nat)
    requires
        dec_digits(a) == dec_digits(b),
    ensures
        a == b,
{
    let t = dec_digits(a);
    assert(t.subrange(0, t.len() as int) =~= t);
    crate::codec::lemma_digits_val_of_pub(t, 0, a);
    crate::codec::lemma_digits_val_of_pub(t, 0, b);
}

// ---------------------------------------------------------------------------
// The sandbox and its pending mounts
// ---------------------------------------------------------------------------

/// Model of a pending mount request.
pub type MountV = (Seq<u8>, Seq<u8>, bool);

/// View of a mount request list.
pub open spec fn mounts_view(ms: Seq<MountRequest>) -> Seq<MountV> {
    ms.map_values(|m: MountRequest| (m.tag@, m.guest_path@, m.persistent))
}

/// The frame lines of a mount handshake for the given pending list.
pub open spec fn sp_mount_frames(pending: Seq<MountV>) -> Seq<Seq<u8>> {
    pending.map_values(|m: MountV| enc_line(mount_request_fields(m.0, m.1, m.2)))
}

/// What is pending after a session ran its handshake: nothing.
pub open spec fn sp_pending_after_session(pending: Seq<MountV>) -> Seq<MountV> {
    Seq::empty()
}

/// Mount idempotence: a second session on the same sandbox sends no mount
/// frames, whatever was pending before the first.
pub proof fn lemma_mount_handshake_idempotent(pending: Seq<MountV>)
    ensures
        sp_mount_frames(sp_pending_after_session(pending)) =~= Seq::<Seq<u8>>::empty(),
{
}

/// The host half of a sandbox: the mount requests still to deliver on the
/// next session.  The running VM itself is held by the embedder beside
/// this state.
pub struct Sandbox {
    pub plan: crate::config::VmPlan,
    pub pending_mounts: Vec<MountRequest>,
}

impl Sandbox {
    /// Start accumulating a launch configuration.
    pub fn builder() -> (r: crate::config::VmConfigBuilder)
        ensures
            r.kernel == None::<Vec<u8>>,
            r.rootfs == None::<Vec<u8>>,
            r.initrd == None::<Vec<u8>>,
            r.cpus == 2,
            r.memory_mb == 2048,
            r.console == true,
            r.quiet == false,
            r.allow_net == false,
            r.mounts@.len() == 0,
    {
        crate::config::VmConfigBuilder::new()
    }

    /// Take the pending mount requests for delivery, leaving none behind:
    /// the next session performs no mount handshake.
    pub fn take_pending_mounts(&mut self) -> (r: Vec<MountRequest>)
        ensures
            mounts_view(r@) == mounts_view(old(self).pending_mounts@),
            final(self).pending_mounts@.len() == 0,
    {
        let mut out: Vec<MountRequest> = Vec::new();
        core::mem::swap(&mut out, &mut self.pending_mounts);
        out
    }
}

/// Encode the handshake frames for a list of mount requests.
pub fn mount_frames(mounts: &Vec<MountRequest>) -> (r: Vec<Vec<u8>>)
    ensures
        r@.map_values(|v: Vec<u8>| v@) == sp_mount_frames(mounts_view(mounts@)),
{
    let mut out: Vec<Vec<u8>> = Vec::new();
    let mut i: usize = 0;
    while i < mounts.len()
        invariant
            0 <= i <= mounts@.len(),
            out@.map_values(|v: Vec<u8>| v@) =~= sp_mount_frames(
                mounts_view(mounts@.take(i as int)),
            ),
        decreases mounts@.len() - i,
    {
        let ghost out0 = out@;
        out.push(encode_mount_request(&mounts[i]));
        proof {
            assert(mounts@.take(i + 1) =~= mounts@.take(i as int).push(mounts@[i as int]));
            mounts@.take(i as int).lemma_push_map_commute(
                |m: MountRequest| (m.tag@, m.guest_path@, m.persistent),
                mounts@[i as int],
            );
            mounts_view(mounts@.take(i as int)).lemma_push_map_commute(
                |m: MountV| enc_line(mount_request_fields(m.0, m.1, m.2)),
                mounts_view(mounts@.take(i + 1)).last(),
            );
            out0.lemma_push_map_commute(|v: Vec<u8>| v@, out@[out@.len() - 1]);
            assert(out@.map_values(|v: Vec<u8>| v@) =~= sp_mount_frames(
                mounts_view(mounts@.take(i + 1)),
            ));
        }
        i = i + 1;
    }
    proof {
        assert(mounts@.take(mounts@.len() as int) =~= mounts@);
    }
    out
}

/// What the host concludes from one mount-response line.
pub enum MountReply {
    /// The guest mounted the share.
    Accepted,
    /// An empty line: the guest closed the connection during the
    /// handshake.
    SessionClosed,
    /// An unparseable line: the guest predates the mount handshake, and
    /// the user needs an upgraded image.
    Unsupported,
    /// The guest refused the mount, with its diagnostic.
    Refused(Option<Vec<u8>>),
}

/// Model of a mount reply.
pub open spec fn mount_reply_view(r: &MountReply) -> Option<Option<(bool, Option<Seq<u8>>)>> {
    match r {
        MountReply::SessionClosed => None,
        MountReply::Unsupported => Some(None),
        MountReply::Accepted => Some(Some((true, None))),
        MountReply::Refused(e) => Some(Some((false, opt_bytes_ref(e)))),
    }
}

/// View of an optional byte string held by reference.
pub open spec fn opt_bytes_ref(o: &Option<Vec<u8>>) -> Option<Seq<u8>> {
    match o {
        None => None,
        Some(v) => Some(v@),
    }
}

/// Classify one mount-response line: an empty line is a closed session, a
/// malformed one an old guest, and otherwise the guest's own verdict.
pub fn check_mount_response(line: &[u8]) -> (r: MountReply)
    ensures
        line@.len() == 0 ==> r == MountReply::SessionClosed,
        line@.len() > 0 ==> (match crate::proto::sp_mount_response_line(line@) {
            None => r == MountReply::Unsupported,
            Some((ok, e)) => if ok {
                r == MountReply::Accepted
            } else {
                (r matches MountReply::Refused(msg) && opt_bytes_ref(&msg) == e)
            },
        }),
{
    if line.len() == 0 {
        return MountReply::SessionClosed;
    }
    match crate::proto::parse_mount_response(line) {
        None => MountReply::Unsupported,
        Some(resp) => {
            if resp.ok {
                MountReply::Accepted
            } else {
                MountReply::Refused(resp.error)
            }
        },
    }
}

// ---------------------------------------------------------------------------
// Host-side exec session fold
// ---------------------------------------------------------------------------

/// Running state of a host exec session: output gathered so far and the
/// final code once a terminal frame arrived.
pub struct ExecProgress {
    pub stdout: Vec<u8>,
    pub stderr: Vec<u8>,
    pub result: Option<i32>,
}

/// Model of the progress state.
pub open spec fn progress_view(p: &ExecProgress) -> (Seq<u8>, Seq<u8>, Option<int>) {
    (p.stdout@, p.stderr@, opt_int(p.result))
}

/// One step of the host fold over response lines.  After a terminal frame
/// the state never changes again; an unparseable line or an unknown type
/// is ignored; `stdout` and `stderr` data is appended in arrival order;
/// `exit` ends the session with its code (0 when absent); `error` appends
/// the diagnostic to stderr and ends it with code 1.
pub open spec fn sp_exec_step(st: (Seq<u8>, Seq<u8>, Option<int>), line: Seq<u8>) -> (
    Seq<u8>,
    Seq<u8>,
    Option<int>,
) {
    if st.2 != None::<int> {
        st
    } else {
        match sp_exec_response_line(line) {
            None => st,
            Some((t, d, c)) => if t == crate::proto::val_stdout() {
                match d {
                    Some(x) => (st.0 + x, st.1, st.2),
                    None => st,
                }
            } else if t == crate::proto::val_stderr() {
                match d {
                    Some(x) => (st.0, st.1 + x, st.2),
                    None => st,
                }
            } else if t == crate::proto::val_exit() {
                match c {
                    Some(n) => (st.0, st.1, Some(n)),
                    None => (st.0, st.1, Some(0)),
                }
            } else if t == crate::proto::val_error_s() {
                match d {
                    Some(x) => (st.0, st.1 + msg_guest_error_prefix() + x, Some(1)),
                    None => (st.0, st.1, Some(1)),
                }
            } else {
                st
            },
        }
    }
}

/// Terminality, host side: once a terminal frame has been folded in, no
/// further line changes the session's outcome.
pub proof fn lemma_exec_fold_stops(st: (Seq<u8>, Seq<u8>, Option<int>), line: Seq<u8>)
    requires
        st.2 != None::<int>,
    ensures
        sp_exec_step(st, line) == st,
{
}

/// Fold one response line into the progress state.
pub fn exec_fold_line(prog: &mut ExecProgress, line: &[u8])
    ensures
        progress_view(final(prog)) == sp_exec_step(progress_view(old(prog)), line@),
{
    if prog.result.is_some() {
        return;
    }
    let resp = match parse_exec_response(line) {
        None => {
            return;
        },
        Some(r) => r,
    };
    let t_stdout = crate::proto::v_stdout();
    let t_stderr = crate::proto::v_stderr();
    let t_exit = crate::proto::v_exit();
    let t_error = crate::proto::v_error_s();
    if bytes_eq(resp.msg_type.as_slice(), t_stdout.as_slice()) {
        match &resp.data {
            Some(x) => {
                append_bytes(&mut prog.stdout, x.as_slice());
            },
            None => {},
        }
    } else if bytes_eq(resp.msg_type.as_slice(), t_stderr.as_slice()) {
        match &resp.data {
            Some(x) => {
                append_bytes(&mut prog.stderr, x.as_slice());
            },
            None => {},
        }
    } else if bytes_eq(resp.msg_type.as_slice(), t_exit.as_slice()) {
        match resp.code {
            Some(n) => {
                prog.result = Some(n);
            },
            None => {
                prog.result = Some(0);
            },
        }
    } else if bytes_eq(resp.msg_type.as_slice(), t_error.as_slice()) {
        match &resp.data {
            Some(x) => {
                let prefix = m_guest_error_prefix();
                append_bytes(&mut prog.stderr, prefix.as_slice());
                append_bytes(&mut prog.stderr, x.as_slice());
                prog.result = Some(1);
            },
            None => {
                prog.result = Some(1);
            },
        }
    }
}

/// Append a byte slice to a vector.
pub fn append_bytes(out: &mut Vec<u8>, extra: &[u8])
    ensures
        final(out)@ == old(out)@ + extra@,
{
    let mut i: usize = 0;
    while i < extra.len()
        invariant
            0 <= i <= extra@.len(),
            out@ == old(out)@ + extra@.take(i as int),
        decreases extra@.len() - i,
    {
        out.push(extra[i]);
        proof {
            assert(extra@.take(i + 1) =~= extra@.take(i as int).push(extra@[i as int]));
            assert(out@ =~= old(out)@ + extra@.take(i + 1));
        }
        i = i + 1;
    }
    proof {
        assert(extra@.take(extra@.len() as int) =~= extra@);
    }
}

// ---------------------------------------------------------------------------
// Forward handshake, host side
// ---------------------------------------------------------------------------

/// What the host concludes from a forward response line: go ahead, or the
/// guest's refusal message.
pub open spec fn sp_forward_check(line: Seq<u8>) -> Result<(), Option<Seq<u8>>> {
    match sp_forward_response_line(line) {
        None => Err(None),
        Some((status, message)) => if status == val_ok_status() {
            Ok(())
        } else {
            Err(message)
        },
    }
}

/// Check a forward response line: `Ok` exactly on a well-formed `ok`
/// status, otherwise the refusal message if one came.
pub fn check_forward_response(line: &[u8]) -> (r: Result<(), Option<Vec<u8>>>)
    ensures
        match r {
            Ok(()) => sp_forward_check(line@) == Ok::<(), Option<Seq<u8>>>(()),
            Err(m) => sp_forward_check(line@) == Err::<(), Option<Seq<u8>>>(opt_bytes(m)),
        },
{
    let resp = match parse_forward_response(line) {
        None => {
            return Err(None);
        },
        Some(r) => r,
    };
    let okv = v_ok_status();
    if bytes_eq(resp.status.as_slice(), okv.as_slice()) {
        Ok(())
    } else {
        Err(resp.message)
    }
}

// ---------------------------------------------------------------------------
// Accept loop and connect retry
// ---------------------------------------------------------------------------

/// What an accept attempt on a forward listener produced.
pub enum AcceptEvent {
    /// A connection was accepted.
    Conn,
    /// The non-blocking accept would block.
    WouldBlock,
    /// The accept failed.
    Failed,
}

/// What the accept loop does next.
pub enum AcceptAction {
    /// Hand the connection to a relay worker and keep accepting.
    Handle,
    /// Sleep one tick, then poll the stop flag again.
    Sleep,
    /// Leave the loop.
    Stop,
}

/// One step of a forward listener's accept loop.  Once the stop flag is
/// set the loop stops at its next tick, whatever the socket reported.
pub fn accept_step(stop: bool, ev: AcceptEvent) -> (r: AcceptAction)
    ensures
        stop ==> r == AcceptAction::Stop,
        !stop ==> r == (match ev {
            AcceptEvent::Conn => AcceptAction::Handle,
            AcceptEvent::WouldBlock => AcceptAction::Sleep,
            AcceptEvent::Failed => AcceptAction::Stop,
        }),
{
    if stop {
        AcceptAction::Stop
    } else {
        match ev {
            AcceptEvent::Conn => AcceptAction::Handle,
            AcceptEvent::WouldBlock => AcceptAction::Sleep,
            AcceptEvent::Failed => AcceptAction::Stop,
        }
    }
}

/// What the connect-retry loop does next.
pub enum RetryDecision {
    /// Try to connect now; on failure, sleep a second and ask again.
    Attempt,
    /// The VM died during startup: fail with a pointer at the boot log.
    AbortVmDown,
    /// All attempts are used up: report the guest unreachable.
    GiveUp,
}

/// One step of the guest-socket connect retry: the VM observed `Stopped`
/// or `Error` aborts at once; otherwise up to ten attempts are made.
pub fn connect_retry_step(attempt: u32, observed: Option<VmState>) -> (r: RetryDecision)
    ensures
        (observed == Some(VmState::Stopped) || observed == Some(VmState::Error)) ==> r
            == RetryDecision::AbortVmDown,
        observed != Some(VmState::Stopped) && observed != Some(VmState::Error) && attempt > 10
            ==> r == RetryDecision::GiveUp,
        observed != Some(VmState::Stopped) && observed != Some(VmState::Error) && attempt <= 10
            ==> r == RetryDecision::Attempt,
{
    match observed {
        Some(VmState::Stopped) => RetryDecision::AbortVmDown,
        Some(VmState::Error) => RetryDecision::AbortVmDown,
        _ => {
            if attempt > 10 {
                RetryDecision::GiveUp
            } else {
                RetryDecision::Attempt
            }
        },
    }
}

// ---------------------------------------------------------------------------
// PTY control-line drain (guest side of the relay)
// ---------------------------------------------------------------------------

/// Drain the complete lines of a control buffer: the control messages of
/// every parseable line, in order, and the bytes of the unfinished last
/// line.
pub open spec fn sp_drain_controls(s: Seq<u8>) -> (Seq<ControlV>, Seq<u8>)
    decreases s.len(),
{
    match sp_split_line(s) {
        None => (Seq::empty(), s),
        Some((line, rest)) => if rest.len() < s.len() {
            let (ms, fin) = sp_drain_controls(rest);
            (
                (match sp_control_line(line) {
                    Some(m) => seq![m] + ms,
                    None => ms,
                }),
                fin,
            )
        } else {
            (Seq::empty(), s)
        },
    }
}

/// Drain a control buffer into parsed messages and the unfinished tail.
pub fn drain_controls(buf: &[u8]) -> (r: (Vec<ControlMessage>, Vec<u8>))
    ensures
        ({
            let (ms, fin) = sp_drain_controls(buf@);
            r.0@.map_values(|m: ControlMessage| crate::proto::control_view(&m)) == ms && r.1@
                == fin
        }),
    decreases buf@.len(),
{
    match split_first_line(buf) {
        None => {
            let ms: Vec<ControlMessage> = Vec::new();
            proof {
                assert(ms@.map_values(|m: ControlMessage| crate::proto::control_view(&m)) =~= Seq::<
                    ControlV,
                >::empty());
            }
            (ms, vstd::slice::slice_to_vec(buf))
        },
        Some((line, rest)) => {
            proof {
                lemma_split_line_exact(buf@);
            }
            let (tail_ms, fin) = drain_controls(rest.as_slice());
            match parse_control(line.as_slice()) {
                Some(m) => {
                    let mut ms: Vec<ControlMessage> = Vec::new();
                    let ghost mv = crate::proto::control_view(&m);
                    ms.push(m);
                    let mut k: usize = 0;
                    proof {
                        assert(ms@.map_values(|m: ControlMessage| crate::proto::control_view(&m))
                            =~= seq![mv]);
                    }
                    let ghost tail_v = tail_ms@.map_values(
                        |m: ControlMessage| crate::proto::control_view(&m),
                    );
                    while k < tail_ms.len()
                        invariant
                            0 <= k <= tail_ms@.len(),
                            tail_v == tail_ms@.map_values(
                                |m: ControlMessage| crate::proto::control_view(&m),
                            ),
                            ms@.map_values(|m: ControlMessage| crate::proto::control_view(&m))
                                =~= seq![mv] + tail_v.take(k as int),
                        decreases tail_ms@.len() - k,
                    {
                        let ghost ms0 = ms@;
                        let item = clone_control(&tail_ms[k]);
                        ms.push(item);
                        proof {
                            ms0.lemma_push_map_commute(
                                |m: ControlMessage| crate::proto::control_view(&m),
                                ms@[ms@.len() - 1],
                            );
                            assert(tail_v.take(k + 1) =~= tail_v.take(k as int).push(
                                tail_v[k as int],
                            ));
                            assert(ms@.map_values(
                                |m: ControlMessage| crate::proto::control_view(&m),
                            ) =~= seq![mv] + tail_v.take(k + 1));
                        }
                        k = k + 1;
                    }
                    proof {
                        assert(tail_v.take(tail_v.len() as int) =~= tail_v);
                    }
                    (ms, fin)
                },
                None => (tail_ms, fin),
            }
        },
    }
}

/// Copy of a control message.
fn clone_control(m: &ControlMessage) -> (r: ControlMessage)
    ensures
        crate::proto::control_view(&r) == crate::proto::control_view(m),
{
    match m {
        ControlMessage::Stdin { data } => ControlMessage::Stdin {
            data: vstd::slice::slice_to_vec(data.as_slice()),
        },
        ControlMessage::Resize { rows, cols } => ControlMessage::Resize {
            rows: *rows,
            cols: *cols,
        },
    }
}

} // verus!
