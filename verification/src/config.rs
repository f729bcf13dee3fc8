//! Launch configuration: the sandbox builder, the configuration file, the
//! command-line mount and port specs, and the data-directory layout.

use vstd::prelude::*;

use crate::codec::dec_digits;
use crate::codec::digits_val;
use crate::codec::is_digit;
use crate::codec::scan_digits;
use crate::codec::sp_doc;
use crate::codec::JVal;
use crate::codec::JValV;
use crate::codec::JFieldV;
use crate::proto::jget;
use crate::proto::jlookup;
use crate::proto::MountRequest;
use crate::proto::PortMapping;
use crate::proto::copy_strs;
use crate::sandbox::MountConfig;
use crate::sandbox::Sandbox;
use crate::sandbox::sp_mount_tag;
use crate::sandbox::mount_tag;
use crate::sandbox::mounts_view;
use crate::errors::VmError;
use crate::sandbox::val_cmdline_base;
use crate::sandbox::val_cmdline_quiet;
use crate::sandbox::v_cmdline_base;
use crate::sandbox::v_cmdline_quiet;

verus! {

/// The byte string `"cpus"`.
pub open spec fn key_cpus() -> Seq<u8> {
    seq![99u8, 112u8, 117u8, 115u8]
}

/// Executable form of `key_cpus`.
pub fn k_cpus() -> (r: Vec<u8>)
    ensures
        r@ == key_cpus(),
{
    let mut v: Vec<u8> = Vec::new();
    v.push(99);
    v.push(112);
    v.push(117);
    v.push(115);
    proof {
        assert(v@ =~= key_cpus());
    }
    v
}

/// The byte string `"memory"`.
pub open spec fn key_memory() -> Seq<u8> {
    seq![109u8, 101u8, 109u8, 111u8, 114u8, 121u8]
}

/// Executable form of `key_memory`.
pub fn k_memory() -> (r: Vec<u8>)
    ensures
        r@ == key_memory(),
{
    let mut v: Vec<u8> = Vec::new();
    v.push(109);
    v.push(101);
    v.push(109);
    v.push(111);
    v.push(114);
    v.push(121);
    proof {
        assert(v@ =~= key_memory());
    }
    v
}

/// The byte string `"disk_size"`.
pub open spec fn key_disk_size() -> Seq<u8> {
    seq![100u8, 105u8, 115u8, 107u8, 95u8, 115u8, 105u8, 122u8, 101u8]
}

/// Executable form of `key_disk_size`.
pub fn k_disk_size() -> (r: Vec<u8>)
    ensures
        r@ == key_disk_size(),
{
    let mut v: Vec<u8> = Vec::new();
    v.push(100);
    v.push(105);
    v.push(115);
    v.push(107);
    v.push(95);
    v.push(115);
    v.push(105);
    v.push(122);
    v.push(101);
    proof {
        assert(v@ =~= key_disk_size());
    }
    v
}

/// The byte string `"allow_net"`.
pub open spec fn key_allow_net() -> Seq<u8> {
    seq![97u8, 108u8, 108u8, 111u8, 119u8, 95u8, 110u8, 101u8, 116u8]
}

/// Executable form of `key_allow_net`.
pub fn k_allow_net() -> (r: Vec<u8>)
    ensures
        r@ == key_allow_net(),
{
    let mut v: Vec<u8> = Vec::new();
    v.push(97);
    v.push(108);
    v.push(108);
    v.push(111);
    v.push(119);
    v.push(95);
    v.push(110);
    v.push(101);
    v.push(116);
    proof {
        assert(v@ =~= key_allow_net());
    }
    v
}

/// The byte string `"command"`.
pub open spec fn key_command() -> Seq<u8> {
    seq![99u8, 111u8, 109u8, 109u8, 97u8, 110u8, 100u8]
}

/// Executable form of `key_command`.
pub fn k_command() -> (r: Vec<u8>)
    ensures
        r@ == key_command(),
{
    let mut v: Vec<u8> = Vec::new();
    v.push(99);
    v.push(111);
    v.push(109);
    v.push(109);
    v.push(97);
    v.push(110);
    v.push(100);
    proof {
        assert(v@ =~= key_command());
    }
    v
}

/// The byte string `"ports"`.
pub open spec fn key_ports() -> Seq<u8> {
    seq![112u8, 111u8, 114u8, 116u8, 115u8]
}

/// Executable form of `key_ports`.
pub fn k_ports() -> (r: Vec<u8>)
    ensures
        r@ == key_ports(),
{
    let mut v: Vec<u8> = Vec::new();
    v.push(112);
    v.push(111);
    v.push(114);
    v.push(116);
    v.push(115);
    proof {
        assert(v@ =~= key_ports());
    }
    v
}

/// The byte string `"mounts"`.
pub open spec fn key_mounts() -> Seq<u8> {
    seq![109u8, 111u8, 117u8, 110u8, 116u8, 115u8]
}

/// Executable form of `key_mounts`.
pub fn k_mounts() -> (r: Vec<u8>)
    ensures
        r@ == key_mounts(),
{
    let mut v: Vec<u8> = Vec::new();
    v.push(109);
    v.push(111);
    v.push(117);
    v.push(110);
    v.push(116);
    v.push(115);
    proof {
        assert(v@ =~= key_mounts());
    }
    v
}

/// The byte string `"/.local/share/shuru"`.
pub open spec fn seg_data_dir() -> Seq<u8> {
    seq![47u8, 46u8, 108u8, 111u8, 99u8, 97u8, 108u8, 47u8, 115u8, 104u8, 97u8, 114u8, 101u8, 47u8, 115u8, 104u8, 117u8, 114u8, 117u8]
}

/// Executable form of `seg_data_dir`.
pub fn s_data_dir() -> (r: Vec<u8>)
    ensures
        r@ == seg_data_dir(),
{
    let mut v: Vec<u8> = Vec::new();
    v.push(47);
    v.push(46);
    v.push(108);
    v.push(111);
    v.push(99);
    v.push(97);
    v.push(108);
    v.push(47);
    v.push(115);
    v.push(104);
    v.push(97);
    v.push(114);
    v.push(101);
    v.push(47);
    v.push(115);
    v.push(104);
    v.push(117);
    v.push(114);
    v.push(117);
    proof {
        assert(v@ =~= seg_data_dir());
    }
    v
}

/// The byte string `"/Image"`.
pub open spec fn seg_kernel() -> Seq<u8> {
    seq![47u8, 73u8, 109u8, 97u8, 103u8, 101u8]
}

/// Executable form of `seg_kernel`.
pub fn s_kernel() -> (r: Vec<u8>)
    ensures
        r@ == seg_kernel(),
{
    let mut v: Vec<u8> = Vec::new();
    v.push(47);
    v.push(73);
    v.push(109);
    v.push(97);
    v.push(103);
    v.push(101);
    proof {
        assert(v@ =~= seg_kernel());
    }
    v
}

/// The byte string `"/rootfs.ext4"`.
pub open spec fn seg_rootfs() -> Seq<u8> {
    seq![47u8, 114u8, 111u8, 111u8, 116u8, 102u8, 115u8, 46u8, 101u8, 120u8, 116u8, 52u8]
}

/// Executable form of `seg_rootfs`.
pub fn s_rootfs() -> (r: Vec<u8>)
    ensures
        r@ == seg_rootfs(),
{
    let mut v: Vec<u8> = Vec::new();
    v.push(47);
    v.push(114);
    v.push(111);
    v.push(111);
    v.push(116);
    v.push(102);
    v.push(115);
    v.push(46);
    v.push(101);
    v.push(120);
    v.push(116);
    v.push(52);
    proof {
        assert(v@ =~= seg_rootfs());
    }
    v
}

/// The byte string `"/initramfs.cpio.gz"`.
pub open spec fn seg_initrd() -> Seq<u8> {
    seq![47u8, 105u8, 110u8, 105u8, 116u8, 114u8, 97u8, 109u8, 102u8, 115u8, 46u8, 99u8, 112u8, 105u8, 111u8, 46u8, 103u8, 122u8]
}

/// Executable form of `seg_initrd`.
pub fn s_initrd() -> (r: Vec<u8>)
    ensures
        r@ == seg_initrd(),
{
    let mut v: Vec<u8> = Vec::new();
    v.push(47);
    v.push(105);
    v.push(110);
    v.push(105);
    v.push(116);
    v.push(114);
    v.push(97);
    v.push(109);
    v.push(102);
    v.push(115);
    v.push(46);
    v.push(99);
    v.push(112);
    v.push(105);
    v.push(111);
    v.push(46);
    v.push(103);
    v.push(122);
    proof {
        assert(v@ =~= seg_initrd());
    }
    v
}

/// The byte string `"/VERSION"`.
pub open spec fn seg_version() -> Seq<u8> {
    seq![47u8, 86u8, 69u8, 82u8, 83u8, 73u8, 79u8, 78u8]
}

/// Executable form of `seg_version`.
pub fn s_version() -> (r: Vec<u8>)
    ensures
        r@ == seg_version(),
{
    let mut v: Vec<u8> = Vec::new();
    v.push(47);
    v.push(86);
    v.push(69);
    v.push(82);
    v.push(83);
    v.push(73);
    v.push(79);
    v.push(78);
    proof {
        assert(v@ =~= seg_version());
    }
    v
}

/// The byte string `"/checkpoints/"`.
pub open spec fn seg_checkpoints() -> Seq<u8> {
    seq![47u8, 99u8, 104u8, 101u8, 99u8, 107u8, 112u8, 111u8, 105u8, 110u8, 116u8, 115u8, 47u8]
}

/// Executable form of `seg_checkpoints`.
pub fn s_checkpoints() -> (r: Vec<u8>)
    ensures
        r@ == seg_checkpoints(),
{
    let mut v: Vec<u8> = Vec::new();
    v.push(47);
    v.push(99);
    v.push(104);
    v.push(101);
    v.push(99);
    v.push(107);
    v.push(112);
    v.push(111);
    v.push(105);
    v.push(110);
    v.push(116);
    v.push(115);
    v.push(47);
    proof {
        assert(v@ =~= seg_checkpoints());
    }
    v
}

/// The byte string `"/instances/"`.
pub open spec fn seg_instances() -> Seq<u8> {
    seq![47u8, 105u8, 110u8, 115u8, 116u8, 97u8, 110u8, 99u8, 101u8, 115u8, 47u8]
}

/// Executable form of `seg_instances`.
pub fn s_instances() -> (r: Vec<u8>)
    ensures
        r@ == seg_instances(),
{
    let mut v: Vec<u8> = Vec::new();
    v.push(47);
    v.push(105);
    v.push(110);
    v.push(115);
    v.push(116);
    v.push(97);
    v.push(110);
    v.push(99);
    v.push(101);
    v.push(115);
    v.push(47);
    proof {
        assert(v@ =~= seg_instances());
    }
    v
}

/// The byte string `".ext4"`.
pub open spec fn seg_ext4() -> Seq<u8> {
    seq![46u8, 101u8, 120u8, 116u8, 52u8]
}

/// Executable form of `seg_ext4`.
pub fn s_ext4() -> (r: Vec<u8>)
    ensures
        r@ == seg_ext4(),
{
    let mut v: Vec<u8> = Vec::new();
    v.push(46);
    v.push(101);
    v.push(120);
    v.push(116);
    v.push(52);
    proof {
        assert(v@ =~= seg_ext4());
    }
    v
}

/// The byte string `"ro"`.
pub open spec fn val_ro() -> Seq<u8> {
    seq![114u8, 111u8]
}

/// Executable form of `val_ro`.
pub fn v_ro() -> (r: Vec<u8>)
    ensures
        r@ == val_ro(),
{
    let mut v: Vec<u8> = Vec::new();
    v.push(114);
    v.push(111);
    proof {
        assert(v@ =~= val_ro());
    }
    v
}

/// The byte string `"rw"`.
pub open spec fn val_rw() -> Seq<u8> {
    seq![114u8, 119u8]
}

/// Executable form of `val_rw`.
pub fn v_rw() -> (r: Vec<u8>)
    ensures
        r@ == val_rw(),
{
    let mut v: Vec<u8> = Vec::new();
    v.push(114);
    v.push(119);
    proof {
        assert(v@ =~= val_rw());
    }
    v
}

/// The byte string `"kernel path is required"`.
pub open spec fn msg_kernel_required() -> Seq<u8> {
    seq![107u8, 101u8, 114u8, 110u8, 101u8, 108u8, 32u8, 112u8, 97u8, 116u8, 104u8, 32u8, 105u8, 115u8, 32u8, 114u8, 101u8, 113u8, 117u8, 105u8, 114u8, 101u8, 100u8]
}

/// Executable form of `msg_kernel_required`.
pub fn m_kernel_required() -> (r: Vec<u8>)
    ensures
        r@ == msg_kernel_required(),
{
    let mut v: Vec<u8> = Vec::new();
    v.push(107);
    v.push(101);
    v.push(114);
    v.push(110);
    v.push(101);
    v.push(108);
    v.push(32);
    v.push(112);
    v.push(97);
    v.push(116);
    v.push(104);
    v.push(32);
    v.push(105);
    v.push(115);
    v.push(32);
    v.push(114);
    v.push(101);
    v.push(113);
    v.push(117);
    v.push(105);
    v.push(114);
    v.push(101);
    v.push(100);
    proof {
        assert(v@ =~= msg_kernel_required());
    }
    v
}

/// The byte string `"rootfs path is required"`.
pub open spec fn msg_rootfs_required() -> Seq<u8> {
    seq![114u8, 111u8, 111u8, 116u8, 102u8, 115u8, 32u8, 112u8, 97u8, 116u8, 104u8, 32u8, 105u8, 115u8, 32u8, 114u8, 101u8, 113u8, 117u8, 105u8, 114u8, 101u8, 100u8]
}

/// Executable form of `msg_rootfs_required`.
pub fn m_rootfs_required() -> (r: Vec<u8>)
    ensures
        r@ == msg_rootfs_required(),
{
    let mut v: Vec<u8> = Vec::new();
    v.push(114);
    v.push(111);
    v.push(111);
    v.push(116);
    v.push(102);
    v.push(115);
    v.push(32);
    v.push(112);
    v.push(97);
    v.push(116);
    v.push(104);
    v.push(32);
    v.push(105);
    v.push(115);
    v.push(32);
    v.push(114);
    v.push(101);
    v.push(113);
    v.push(117);
    v.push(105);
    v.push(114);
    v.push(101);
    v.push(100);
    proof {
        assert(v@ =~= msg_rootfs_required());
    }
    v
}

/// The byte string `"memory size does not fit"`.
pub open spec fn msg_memory_too_large() -> Seq<u8> {
    seq![109u8, 101u8, 109u8, 111u8, 114u8, 121u8, 32u8, 115u8, 105u8, 122u8, 101u8, 32u8, 100u8, 111u8, 101u8, 115u8, 32u8, 110u8, 111u8, 116u8, 32u8, 102u8, 105u8, 116u8]
}

/// Executable form of `msg_memory_too_large`.
pub fn m_memory_too_large() -> (r: Vec<u8>)
    ensures
        r@ == msg_memory_too_large(),
{
    let mut v: Vec<u8> = Vec::new();
    v.push(109);
    v.push(101);
    v.push(109);
    v.push(111);
    v.push(114);
    v.push(121);
    v.push(32);
    v.push(115);
    v.push(105);
    v.push(122);
    v.push(101);
    v.push(32);
    v.push(100);
    v.push(111);
    v.push(101);
    v.push(115);
    v.push(32);
    v.push(110);
    v.push(111);
    v.push(116);
    v.push(32);
    v.push(102);
    v.push(105);
    v.push(116);
    proof {
        assert(v@ =~= msg_memory_too_large());
    }
    v
}


/// Concatenation of two byte strings.
pub fn concat_bytes(a: &[u8], b: &[u8]) -> (r: Vec<u8>)
    ensures
        r@ == a@ + b@,
{
    let mut out = vstd::slice::slice_to_vec(a);
    let mut i: usize = 0;
    while i < b.len()
        invariant
            0 <= i <= b@.len(),
            out@ == a@ + b@.take(i as int),
        decreases b@.len() - i,
    {
        out.push(b[i]);
        proof {
            assert(b@.take(i + 1) =~= b@.take(i as int).push(b@[i as int]));
            assert(out@ =~= a@ + b@.take(i + 1));
        }
        i = i + 1;
    }
    proof {
        assert(b@.take(b@.len() as int) =~= b@);
    }
    out
}

// ---------------------------------------------------------------------------
// Data-directory layout
// ---------------------------------------------------------------------------

/// The data directory under a home directory.
pub open spec fn sp_data_dir(home: Seq<u8>) -> Seq<u8> {
    home + seg_data_dir()
}

/// Derive the data directory from the home directory.
pub fn default_data_dir(home: &[u8]) -> (r: Vec<u8>)
    ensures
        r@ == sp_data_dir(home@),
{
    let seg = s_data_dir();
    concat_bytes(home, seg.as_slice())
}

/// The path of a named checkpoint.
pub open spec fn sp_checkpoint_path(data_dir: Seq<u8>, name: Seq<u8>) -> Seq<u8> {
    data_dir + seg_checkpoints() + name + seg_ext4()
}

/// Build the path of a named checkpoint.
pub fn checkpoint_path(data_dir: &[u8], name: &[u8]) -> (r: Vec<u8>)
    ensures
        r@ == sp_checkpoint_path(data_dir@, name@),
{
    let seg = s_checkpoints();
    let a = concat_bytes(data_dir, seg.as_slice());
    let b = concat_bytes(a.as_slice(), name);
    let ext = s_ext4();
    let r = concat_bytes(b.as_slice(), ext.as_slice());
    proof {
        assert(r@ =~= sp_checkpoint_path(data_dir@, name@));
    }
    r
}

/// The per-instance directory for a host process id.
pub open spec fn sp_instance_dir(data_dir: Seq<u8>, pid: nat) -> Seq<u8> {
    data_dir + seg_instances() + dec_digits(pid)
}

/// Build the per-instance directory path.
pub fn instance_dir(data_dir: &[u8], pid: u64) -> (r: Vec<u8>)
    ensures
        r@ == sp_instance_dir(data_dir@, pid as nat),
{
    let seg = s_instances();
    let a = concat_bytes(data_dir, seg.as_slice());
    let mut digits: Vec<u8> = Vec::new();
    crate::codec::write_dec_u64_pub(&mut digits, pid);
    let r = concat_bytes(a.as_slice(), digits.as_slice());
    proof {
        assert(r@ =~= sp_instance_dir(data_dir@, pid as nat));
    }
    r
}

/// The working root disk inside an instance directory.
pub open spec fn sp_work_rootfs(instance: Seq<u8>) -> Seq<u8> {
    instance + seg_rootfs()
}

/// Build the working-disk path inside an instance directory.
pub fn work_rootfs_path(instance: &[u8]) -> (r: Vec<u8>)
    ensures
        r@ == sp_work_rootfs(instance@),
{
    let seg = s_rootfs();
    concat_bytes(instance, seg.as_slice())
}

/// The default kernel path under a data directory.
pub fn kernel_path(data_dir: &[u8]) -> (r: Vec<u8>)
    ensures
        r@ == data_dir@ + seg_kernel(),
{
    let seg = s_kernel();
    concat_bytes(data_dir, seg.as_slice())
}

/// The default root-filesystem path under a data directory.
pub fn rootfs_path(data_dir: &[u8]) -> (r: Vec<u8>)
    ensures
        r@ == data_dir@ + seg_rootfs(),
{
    let seg = s_rootfs();
    concat_bytes(data_dir, seg.as_slice())
}

/// The default initramfs path under a data directory.
pub fn initrd_path(data_dir: &[u8]) -> (r: Vec<u8>)
    ensures
        r@ == data_dir@ + seg_initrd(),
{
    let seg = s_initrd();
    concat_bytes(data_dir, seg.as_slice())
}

/// The version-marker path under a data directory.
pub fn version_path(data_dir: &[u8]) -> (r: Vec<u8>)
    ensures
        r@ == data_dir@ + seg_version(),
{
    let seg = s_version();
    concat_bytes(data_dir, seg.as_slice())
}

/// The source disk of a run: the named checkpoint when `from` is given,
/// the base root filesystem otherwise.
pub open spec fn sp_source_disk(
    data_dir: Seq<u8>,
    from: Option<Seq<u8>>,
    base_rootfs: Seq<u8>,
) -> Seq<u8> {
    match from {
        Some(name) => sp_checkpoint_path(data_dir, name),
        None => base_rootfs,
    }
}

/// Pick the source disk for a run.
pub fn source_disk(data_dir: &[u8], from: Option<&Vec<u8>>, base_rootfs: &[u8]) -> (r: Vec<u8>)
    ensures
        r@ == sp_source_disk(
            data_dir@,
            match from {
                Some(n) => Some(n@),
                None => None,
            },
            base_rootfs@,
        ),
{
    match from {
        Some(name) => checkpoint_path(data_dir, name.as_slice()),
        None => vstd::slice::slice_to_vec(base_rootfs),
    }
}

/// The working disk is extended to this many bytes: the configured size in
/// MiB, which must fit a `u64`.
pub fn disk_size_bytes(disk_mb: u64) -> (r: Option<u64>)
    ensures
        disk_mb <= 0xfff_ffff_ffffu64 ==> r == Some((disk_mb * 0x100000) as u64),
        disk_mb > 0xfff_ffff_ffffu64 ==> r == None::<u64>,
{
    if disk_mb > 0xfff_ffff_ffffu64 {
        None
    } else {
        Some(disk_mb * 0x100000)
    }
}

// ---------------------------------------------------------------------------
// Port and mount specs
// ---------------------------------------------------------------------------

/// A decimal port number: digits only, between 1 and 65535.
pub open spec fn sp_port_of(s: Seq<u8>) -> Option<u16> {
    if s.len() >= 1 && scan_digits(s, 0) == s.len() && 1 <= digits_val(s, 0, s.len() as int)
        <= 65535 {
        Some(digits_val(s, 0, s.len() as int) as u16)
    } else {
        None
    }
}

/// Parse a decimal port number.
pub fn parse_port(s: &[u8]) -> (r: Option<u16>)
    ensures
        r == sp_port_of(s@),
{
    if s.len() == 0 {
        return None;
    }
    let mut i: usize = 0;
    let mut acc: u32 = 0;
    while i < s.len()
        invariant
            0 <= i <= s@.len(),
            forall|k: int| 0 <= k < i ==> is_digit(#[trigger] s@[k]),
            acc <= 65535 ==> acc as int == digits_val(s@, 0, i as int),
            acc > 65535 ==> digits_val(s@, 0, i as int) > 65535,
            acc <= 0x10_0000,
        decreases s@.len() - i,
    {
        let b = s[i];
        if b < 0x30 || b > 0x39 {
            proof {
                crate::codec::lemma_scan_digits_stop(s@, 0, i as int);
            }
            return None;
        }
        proof {
            assert(digits_val(s@, 0, i + 1) == digits_val(s@, 0, i as int) * 10 + (s@[i as int]
                - 0x30));
        }
        if acc > 65535 {
            proof {
                let prev = digits_val(s@, 0, i as int);
                assert(prev * 10 >= prev) by (nonlinear_arith)
                    requires
                        prev >= 0,
                ;
            }
        } else {
            acc = acc * 10 + (b - 0x30) as u32;
            if acc > 65535 {
                acc = 0x10_0000;
            }
        }
        i = i + 1;
    }
    proof {
        crate::codec::lemma_scan_digits_stop(s@, 0, s@.len() as int);
    }
    if acc == 0 || acc > 65535 {
        None
    } else {
        Some(acc as u16)
    }
}

/// Positions of the separators in a `HOST:GUEST` style spec: the first
/// colon, and whether another follows it.
pub open spec fn sp_find_colon(s: Seq<u8>, i: int) -> Option<int>
    decreases s.len() - i,
{
    if i < 0 || i >= s.len() {
        None
    } else if s[i] == 0x3a {
        Some(i)
    } else {
        sp_find_colon(s, i + 1)
    }
}

/// Find the first colon at or after `i`.
pub fn find_colon(s: &[u8], i: usize) -> (r: Option<usize>)
    requires
        i <= s@.len(),
    ensures
        match r {
            None => sp_find_colon(s@, i as int) == None::<int>,
            Some(p) => sp_find_colon(s@, i as int) == Some(p as int) && i <= p < s@.len(),
        },
{
    let mut cur = i;
    while cur < s.len()
        invariant
            i <= cur <= s@.len(),
            sp_find_colon(s@, i as int) == sp_find_colon(s@, cur as int),
        decreases s@.len() - cur,
    {
        if s[cur] == 0x3a {
            return Some(cur);
        }
        cur = cur + 1;
    }
    None
}

/// A `HOST:GUEST` port mapping: two colon-separated ports, each between 1
/// and 65535.
pub open spec fn sp_port_mapping_of(s: Seq<u8>) -> Option<(u16, u16)> {
    match sp_find_colon(s, 0) {
        None => None,
        Some(i) => if sp_find_colon(s, i + 1) != None::<int> {
            None
        } else {
            match (sp_port_of(s.take(i)), sp_port_of(s.skip(i + 1))) {
                (Some(h), Some(g)) => Some((h, g)),
                _ => None,
            }
        },
    }
}

/// Parse a `HOST:GUEST` port mapping.
pub fn parse_port_mapping(s: &[u8]) -> (r: Option<PortMapping>)
    ensures
        match r {
            None => sp_port_mapping_of(s@) == None::<(u16, u16)>,
            Some(m) => sp_port_mapping_of(s@) == Some((m.host_port, m.guest_port)),
        },
{
    let n = s.len();
    let i = match find_colon(s, 0) {
        None => {
            return None;
        },
        Some(i) => i,
    };
    if find_colon(s, i + 1).is_some() {
        return None;
    }
    let host_part = vstd::slice::slice_subrange(s, 0, i);
    let guest_part = vstd::slice::slice_subrange(s, i + 1, n);
    proof {
        assert(host_part@ =~= s@.take(i as int));
        assert(guest_part@ =~= s@.skip(i + 1));
    }
    let h = match parse_port(host_part) {
        None => {
            return None;
        },
        Some(h) => h,
    };
    let g = match parse_port(guest_part) {
        None => {
            return None;
        },
        Some(g) => g,
    };
    Some(PortMapping { host_port: h, guest_port: g })
}

/// A `HOST:GUEST[:ro|rw]` mount spec.  The guest path must be absolute;
/// the mode defaults to read-only.  The host path is taken as written:
/// the embedder canonicalises it against the filesystem.
pub open spec fn sp_mount_spec_of(s: Seq<u8>) -> Option<(Seq<u8>, Seq<u8>, bool)> {
    match sp_find_colon(s, 0) {
        None => None,
        Some(i) => {
            let host = s.take(i);
            let rest = s.skip(i + 1);
            match sp_find_colon(rest, 0) {
                None => if rest.len() >= 1 && rest[0] == 0x2f {
                    Some((host, rest, false))
                } else {
                    None
                },
                Some(j) => {
                    let guest = rest.take(j);
                    let mode = rest.skip(j + 1);
                    if guest.len() >= 1 && guest[0] == 0x2f {
                        if mode == val_ro() {
                            Some((host, guest, false))
                        } else if mode == val_rw() {
                            Some((host, guest, true))
                        } else {
                            None
                        }
                    } else {
                        None
                    }
                },
            }
        },
    }
}

/// Parse a `HOST:GUEST[:ro|rw]` mount spec.
pub fn parse_mount_spec(s: &[u8]) -> (r: Option<MountConfig>)
    ensures
        match r {
            None => sp_mount_spec_of(s@) == None::<(Seq<u8>, Seq<u8>, bool)>,
            Some(m) => sp_mount_spec_of(s@) == Some((m.host_path@, m.guest_path@, m.persistent)),
        },
{
    let n = s.len();
    let i = match find_colon(s, 0) {
        None => {
            return None;
        },
        Some(i) => i,
    };
    let host = vstd::slice::slice_to_vec(vstd::slice::slice_subrange(s, 0, i));
    let rest = vstd::slice::slice_subrange(s, i + 1, n);
    proof {
        assert(host@ =~= s@.take(i as int));
        assert(rest@ =~= s@.skip(i + 1));
    }
    match find_colon(rest, 0) {
        None => {
            if rest.len() >= 1 && rest[0] == 0x2f {
                Some(
                    MountConfig {
                        host_path: host,
                        guest_path: vstd::slice::slice_to_vec(rest),
                        persistent: false,
                    },
                )
            } else {
                None
            }
        },
        Some(j) => {
            let rn = rest.len();
            let guest = vstd::slice::slice_to_vec(vstd::slice::slice_subrange(rest, 0, j));
            let mode = vstd::slice::slice_subrange(rest, j + 1, rn);
            proof {
                assert(guest@ =~= rest@.take(j as int));
                assert(mode@ =~= rest@.skip(j + 1));
            }
            if guest.len() >= 1 && guest[0] == 0x2f {
                let ro = v_ro();
                let rw = v_rw();
                if crate::proto::bytes_eq(mode, ro.as_slice()) {
                    Some(MountConfig { host_path: host, guest_path: guest, persistent: false })
                } else if crate::proto::bytes_eq(mode, rw.as_slice()) {
                    Some(MountConfig { host_path: host, guest_path: guest, persistent: true })
                } else {
                    None
                }
            } else {
                None
            }
        },
    }
}

// ---------------------------------------------------------------------------
// Configuration file
// ---------------------------------------------------------------------------

/// The configuration file: every field optional, command-line flags win
/// over all of them.
pub struct ShuruConfig {
    pub cpus: Option<u64>,
    pub memory: Option<u64>,
    pub disk_size: Option<u64>,
    pub allow_net: Option<bool>,
    pub command: Option<Vec<Vec<u8>>>,
    pub ports: Option<Vec<Vec<u8>>>,
    pub mounts: Option<Vec<Vec<u8>>>,
}

/// An optional nonnegative integer field fitting a `u64`: absent, present,
/// or rejected.
pub open spec fn opt_u64_field(fields: Seq<JFieldV>, key: Seq<u8>) -> Option<Option<int>> {
    match jlookup(fields, key) {
        None => Some(None),
        Some(JValV::Num(n)) => if 0 <= n <= u64::MAX {
            Some(Some(n))
        } else {
            None
        },
        Some(_) => None,
    }
}

/// An optional boolean field: absent, present, or rejected.
pub open spec fn opt_bool_field(fields: Seq<JFieldV>, key: Seq<u8>) -> Option<Option<bool>> {
    match jlookup(fields, key) {
        None => Some(None),
        Some(JValV::Bool(b)) => Some(Some(b)),
        Some(_) => None,
    }
}

/// An optional string-array field: absent, present, or rejected.
pub open spec fn opt_arr_field(fields: Seq<JFieldV>, key: Seq<u8>) -> Option<
    Option<Seq<Seq<u8>>>,
> {
    match jlookup(fields, key) {
        None => Some(None),
        Some(JValV::StrArr(items)) => Some(Some(items)),
        Some(_) => None,
    }
}

/// What a configuration document means; any field of the wrong shape
/// rejects the file.
pub open spec fn sp_config_of(fields: Seq<JFieldV>) -> Option<
    (
        Option<int>,
        Option<int>,
        Option<int>,
        Option<bool>,
        Option<Seq<Seq<u8>>>,
        Option<Seq<Seq<u8>>>,
        Option<Seq<Seq<u8>>>,
    ),
> {
    match (opt_u64_field(fields, key_cpus()), opt_u64_field(fields, key_memory()), opt_u64_field(
        fields,
        key_disk_size(),
    ), opt_bool_field(fields, key_allow_net()), opt_arr_field(fields, key_command()), opt_arr_field(
        fields,
        key_ports(),
    ), opt_arr_field(fields, key_mounts())) {
        (Some(c), Some(m), Some(d), Some(a), Some(cmd), Some(p), Some(mt)) => Some(
            (c, m, d, a, cmd, p, mt),
        ),
        _ => None,
    }
}

/// Parse of a whole configuration file.
pub open spec fn sp_config_doc(s: Seq<u8>) -> Option<
    (
        Option<int>,
        Option<int>,
        Option<int>,
        Option<bool>,
        Option<Seq<Seq<u8>>>,
        Option<Seq<Seq<u8>>>,
        Option<Seq<Seq<u8>>>,
    ),
> {
    match sp_doc(s) {
        None => None,
        Some(fields) => sp_config_of(fields),
    }
}

/// View of an optional `u64`.
pub open spec fn opt_u64(o: Option<u64>) -> Option<int> {
    match o {
        None => None,
        Some(v) => Some(v as int),
    }
}

/// View of an optional byte-string list.
pub open spec fn opt_strs(o: &Option<Vec<Vec<u8>>>) -> Option<Seq<Seq<u8>>> {
    match o {
        None => None,
        Some(v) => Some(v@.map_values(|x: Vec<u8>| x@)),
    }
}

/// Parse a configuration file.
pub fn parse_config(text: &[u8]) -> (r: Option<ShuruConfig>)
    ensures
        match r {
            None => sp_config_doc(text@) == None::<
                (
                    Option<int>,
                    Option<int>,
                    Option<int>,
                    Option<bool>,
                    Option<Seq<Seq<u8>>>,
                    Option<Seq<Seq<u8>>>,
                    Option<Seq<Seq<u8>>>,
                ),
            >,
            Some(cfg) => sp_config_doc(text@) == Some(
                (
                    opt_u64(cfg.cpus),
                    opt_u64(cfg.memory),
                    opt_u64(cfg.disk_size),
                    cfg.allow_net,
                    opt_strs(&cfg.command),
                    opt_strs(&cfg.ports),
                    opt_strs(&cfg.mounts),
                ),
            ),
        },
{
    let fields = match crate::codec::parse_line(text) {
        None => {
            return None;
        },
        Some(f) => f,
    };
    let ckey = k_cpus();
    let cpus: Option<u64> = match jget(&fields, ckey.as_slice()) {
        None => None,
        Some(JVal::Num(n)) => {
            let n = *n;
            if n < 0 {
                return None;
            }
            Some(n as u64)
        },
        Some(_) => {
            return None;
        },
    };
    let mkey = k_memory();
    let memory: Option<u64> = match jget(&fields, mkey.as_slice()) {
        None => None,
        Some(JVal::Num(n)) => {
            let n = *n;
            if n < 0 {
                return None;
            }
            Some(n as u64)
        },
        Some(_) => {
            return None;
        },
    };
    let dkey = k_disk_size();
    let disk_size: Option<u64> = match jget(&fields, dkey.as_slice()) {
        None => None,
        Some(JVal::Num(n)) => {
            let n = *n;
            if n < 0 {
                return None;
            }
            Some(n as u64)
        },
        Some(_) => {
            return None;
        },
    };
    let akey = k_allow_net();
    let allow_net: Option<bool> = match jget(&fields, akey.as_slice()) {
        None => None,
        Some(JVal::Bool(b)) => Some(*b),
        Some(_) => {
            return None;
        },
    };
    let cmdkey = k_command();
    let command: Option<Vec<Vec<u8>>> = match jget(&fields, cmdkey.as_slice()) {
        None => None,
        Some(JVal::StrArr(items)) => Some(copy_strs(items)),
        Some(_) => {
            return None;
        },
    };
    let pkey = k_ports();
    let ports: Option<Vec<Vec<u8>>> = match jget(&fields, pkey.as_slice()) {
        None => None,
        Some(JVal::StrArr(items)) => Some(copy_strs(items)),
        Some(_) => {
            return None;
        },
    };
    let mtkey = k_mounts();
    let mounts: Option<Vec<Vec<u8>>> = match jget(&fields, mtkey.as_slice()) {
        None => None,
        Some(JVal::StrArr(items)) => Some(copy_strs(items)),
        Some(_) => {
            return None;
        },
    };
    Some(ShuruConfig { cpus, memory, disk_size, allow_net, command, ports, mounts })
}

// ---------------------------------------------------------------------------
// Setting resolution: command line over configuration over defaults
// ---------------------------------------------------------------------------

/// The numeric and boolean settings of a run after resolution.
pub struct ResolvedSettings {
    pub cpus: u64,
    pub memory: u64,
    pub disk_size: u64,
    pub allow_net: bool,
}

/// Resolve a setting: the flag wins, then the file, then the default.
pub open spec fn sp_resolve(flag: Option<u64>, file: Option<u64>, default: u64) -> u64 {
    match flag {
        Some(v) => v,
        None => match file {
            Some(v) => v,
            None => default,
        },
    }
}

/// Resolve the run settings from flags and file: flags win over the file,
/// the file over the defaults of 2 cpus, 2048 MB memory, 4096 MB disk and
/// no network.
pub fn resolve_settings(
    cpus_flag: Option<u64>,
    memory_flag: Option<u64>,
    disk_flag: Option<u64>,
    allow_net_flag: bool,
    cfg: &ShuruConfig,
) -> (r: ResolvedSettings)
    ensures
        r.cpus == sp_resolve(cpus_flag, cfg.cpus, 2),
        r.memory == sp_resolve(memory_flag, cfg.memory, 2048),
        r.disk_size == sp_resolve(disk_flag, cfg.disk_size, 4096),
        r.allow_net == (allow_net_flag || (cfg.allow_net == Some(true))),
{
    let cpus = match cpus_flag {
        Some(v) => v,
        None => match cfg.cpus {
            Some(v) => v,
            None => 2,
        },
    };
    let memory = match memory_flag {
        Some(v) => v,
        None => match cfg.memory {
            Some(v) => v,
            None => 2048,
        },
    };
    let disk_size = match disk_flag {
        Some(v) => v,
        None => match cfg.disk_size {
            Some(v) => v,
            None => 4096,
        },
    };
    let allow_net = allow_net_flag || (match cfg.allow_net {
        Some(b) => b,
        None => false,
    });
    ResolvedSettings { cpus, memory, disk_size, allow_net }
}

// ---------------------------------------------------------------------------
// The sandbox builder
// ---------------------------------------------------------------------------

/// One directory-share device of the launch plan.
pub struct ShareSpec {
    pub tag: Vec<u8>,
    pub host_path: Vec<u8>,
    pub read_only: bool,
}

/// View of a share list.
pub open spec fn shares_view(s: Seq<ShareSpec>) -> Seq<(Seq<u8>, Seq<u8>, bool)> {
    s.map_values(|x: ShareSpec| (x.tag@, x.host_path@, x.read_only))
}

/// The resolved launch parameters the platform adapter consumes.
pub struct VmPlan {
    pub kernel: Vec<u8>,
    pub rootfs: Vec<u8>,
    pub initrd: Option<Vec<u8>>,
    pub cmdline: Vec<u8>,
    pub cpus: usize,
    pub memory_bytes: u64,
    pub console: bool,
    pub allow_net: bool,
    pub shares: Vec<ShareSpec>,
}

/// The kernel command line: the boot arguments, muted when quiet.
pub open spec fn sp_cmdline(quiet: bool) -> Seq<u8> {
    if quiet {
        val_cmdline_quiet()
    } else {
        val_cmdline_base()
    }
}

/// Accumulates the launch configuration of one sandbox.
pub struct VmConfigBuilder {
    pub kernel: Option<Vec<u8>>,
    pub rootfs: Option<Vec<u8>>,
    pub initrd: Option<Vec<u8>>,
    pub cpus: usize,
    pub memory_mb: u64,
    pub console: bool,
    pub quiet: bool,
    pub allow_net: bool,
    pub mounts: Vec<MountConfig>,
}

/// View of a mount-config list.
pub open spec fn mount_configs_view(ms: Seq<MountConfig>) -> Seq<(Seq<u8>, Seq<u8>, bool)> {
    ms.map_values(|m: MountConfig| (m.host_path@, m.guest_path@, m.persistent))
}

impl VmConfigBuilder {
    /// A builder with the defaults: 2 cpus, 2048 MB, console on, not
    /// quiet, no network, no mounts.
    pub fn new() -> (r: VmConfigBuilder)
        ensures
            r.kernel == None::<Vec<u8>>,
            r.rootfs == None::<Vec<u8>>,
            r.initrd == None::<Vec<u8>>,
            r.cpus == 2,
            r.memory_mb == 2048,
            r.console == true,
            r.quiet == false,
            r.allow_net == false,
            r.mounts@.len() == 0,
    {
        VmConfigBuilder {
            kernel: None,
            rootfs: None,
            initrd: None,
            cpus: 2,
            memory_mb: 2048,
            console: true,
            quiet: false,
            allow_net: false,
            mounts: Vec::new(),
        }
    }

    /// Mute the kernel boot log.
    pub fn quiet(self, enabled: bool) -> (r: VmConfigBuilder)
        ensures
            r == (VmConfigBuilder { quiet: enabled, ..self }),
    {
        VmConfigBuilder { quiet: enabled, ..self }
    }

    /// Attach the serial console to the host terminal.  When off, stdin is
    /// detached and console output goes to stderr, so a boot log cannot
    /// consume the host's stdin during exec or shell.
    pub fn console(self, enabled: bool) -> (r: VmConfigBuilder)
        ensures
            r == (VmConfigBuilder { console: enabled, ..self }),
    {
        VmConfigBuilder { console: enabled, ..self }
    }

    /// Set the kernel image path.
    pub fn kernel(self, path: Vec<u8>) -> (r: VmConfigBuilder)
        ensures
            r == (VmConfigBuilder { kernel: Some(path), ..self }),
    {
        VmConfigBuilder { kernel: Some(path), ..self }
    }

    /// Set the root-filesystem image path.
    pub fn rootfs(self, path: Vec<u8>) -> (r: VmConfigBuilder)
        ensures
            r == (VmConfigBuilder { rootfs: Some(path), ..self }),
    {
        VmConfigBuilder { rootfs: Some(path), ..self }
    }

    /// Set the initramfs path.
    pub fn initrd(self, path: Vec<u8>) -> (r: VmConfigBuilder)
        ensures
            r == (VmConfigBuilder { initrd: Some(path), ..self }),
    {
        VmConfigBuilder { initrd: Some(path), ..self }
    }

    /// Set the cpu count.
    pub fn cpus(self, n: usize) -> (r: VmConfigBuilder)
        ensures
            r == (VmConfigBuilder { cpus: n, ..self }),
    {
        VmConfigBuilder { cpus: n, ..self }
    }

    /// Set the memory size in MB.
    pub fn memory_mb(self, mb: u64) -> (r: VmConfigBuilder)
        ensures
            r == (VmConfigBuilder { memory_mb: mb, ..self }),
    {
        VmConfigBuilder { memory_mb: mb, ..self }
    }

    /// Allow outbound network access over NAT; off by default.
    pub fn allow_net(self, enabled: bool) -> (r: VmConfigBuilder)
        ensures
            r == (VmConfigBuilder { allow_net: enabled, ..self }),
    {
        VmConfigBuilder { allow_net: enabled, ..self }
    }

    /// Add one host directory mount.
    pub fn mount(self, config: MountConfig) -> (r: VmConfigBuilder)
        ensures
            mount_configs_view(r.mounts@) == mount_configs_view(self.mounts@).push(
                (config.host_path@, config.guest_path@, config.persistent),
            ),
            r.kernel == self.kernel,
            r.rootfs == self.rootfs,
            r.initrd == self.initrd,
            r.cpus == self.cpus,
            r.memory_mb == self.memory_mb,
            r.console == self.console,
            r.quiet == self.quiet,
            r.allow_net == self.allow_net,
    {
        let ghost ms0 = self.mounts@;
        let ghost cv = (config.host_path@, config.guest_path@, config.persistent);
        let mut mounts = self.mounts;
        mounts.push(config);
        proof {
            ms0.lemma_push_map_commute(
                |m: MountConfig| (m.host_path@, m.guest_path@, m.persistent),
                mounts@[mounts@.len() - 1],
            );
            assert(mount_configs_view(mounts@) =~= mount_configs_view(ms0).push(cv));
        }
        VmConfigBuilder { mounts, ..self }
    }

    /// Resolve the builder into a sandbox: a launch plan for the adapter
    /// and the pending mount handshake.  Fails exactly when the kernel or
    /// root filesystem is missing, or the memory size does not fit in
    /// bytes.
    pub fn build(self) -> (r: Result<Sandbox, VmError>)
        ensures
            self.kernel == None::<Vec<u8>> <==> (r matches Err(VmError::ConfigInvalid(m))
                && m@ == msg_kernel_required()),
            self.kernel != None::<Vec<u8>> && self.rootfs == None::<Vec<u8>> <==> (r matches Err(
                VmError::ConfigInvalid(m),
            ) && m@ == msg_rootfs_required()),
            self.kernel != None::<Vec<u8>> && self.rootfs != None::<Vec<u8>> && self.memory_mb
                > 0xfff_ffff_ffffu64 <==> (r matches Err(VmError::ConfigInvalid(m)) && m@
                == msg_memory_too_large()),
            self.kernel != None::<Vec<u8>> && self.rootfs != None::<Vec<u8>> && self.memory_mb
                <= 0xfff_ffff_ffffu64 ==> (r matches Ok(_)),
            r matches Ok(s) ==> ({
                let plan = s.plan;
                &&& plan.kernel@ == self.kernel.unwrap()@
                &&& plan.rootfs@ == self.rootfs.unwrap()@
                &&& plan.cmdline@ == sp_cmdline(self.quiet)
                &&& plan.cpus == self.cpus
                &&& plan.memory_bytes == self.memory_mb * 0x100000
                &&& plan.console == self.console
                &&& plan.allow_net == self.allow_net
                &&& (match (plan.initrd, self.initrd) {
                    (Some(a), Some(b)) => a@ == b@,
                    (None, None) => true,
                    _ => false,
                })
                &&& shares_view(plan.shares@) == Seq::new(
                    self.mounts@.len(),
                    |i: int|
                        (
                            sp_mount_tag(i),
                            mount_configs_view(self.mounts@)[i].0,
                            !mount_configs_view(self.mounts@)[i].2,
                        ),
                )
                &&& mounts_view(s.pending_mounts@) == Seq::new(
                    self.mounts@.len(),
                    |i: int|
                        (
                            sp_mount_tag(i),
                            mount_configs_view(self.mounts@)[i].1,
                            mount_configs_view(self.mounts@)[i].2,
                        ),
                )
            }),
    {
        let kernel = match self.kernel {
            None => {
                return Err(VmError::ConfigInvalid(m_kernel_required()));
            },
            Some(k) => k,
        };
        let rootfs = match self.rootfs {
            None => {
                return Err(VmError::ConfigInvalid(m_rootfs_required()));
            },
            Some(p) => p,
        };
        if self.memory_mb > 0xfff_ffff_ffffu64 {
            return Err(VmError::ConfigInvalid(m_memory_too_large()));
        }
        let memory_bytes: u64 = self.memory_mb * 0x100000;
        let cmdline = if self.quiet {
            v_cmdline_quiet()
        } else {
            v_cmdline_base()
        };
        let ghost mv = mount_configs_view(self.mounts@);
        let mut shares: Vec<ShareSpec> = Vec::new();
        let mut pending: Vec<MountRequest> = Vec::new();
        let mut i: usize = 0;
        while i < self.mounts.len()
            invariant
                0 <= i <= self.mounts@.len(),
                mv == mount_configs_view(self.mounts@),
                shares_view(shares@) =~= Seq::new(
                    i as nat,
                    |k: int| (sp_mount_tag(k), mv[k].0, !mv[k].2),
                ),
                mounts_view(pending@) =~= Seq::new(
                    i as nat,
                    |k: int| (sp_mount_tag(k), mv[k].1, mv[k].2),
                ),
            decreases self.mounts@.len() - i,
        {
            let tag = mount_tag(i);
            let m = &self.mounts[i];
            let ghost shares0 = shares@;
            let ghost pending0 = pending@;
            shares.push(
                ShareSpec {
                    tag: vstd::slice::slice_to_vec(tag.as_slice()),
                    host_path: vstd::slice::slice_to_vec(m.host_path.as_slice()),
                    read_only: !m.persistent,
                },
            );
            pending.push(
                MountRequest {
                    tag,
                    guest_path: vstd::slice::slice_to_vec(m.guest_path.as_slice()),
                    persistent: m.persistent,
                },
            );
            proof {
                shares0.lemma_push_map_commute(
                    |x: ShareSpec| (x.tag@, x.host_path@, x.read_only),
                    shares@[shares@.len() - 1],
                );
                pending0.lemma_push_map_commute(
                    |x: MountRequest| (x.tag@, x.guest_path@, x.persistent),
                    pending@[pending@.len() - 1],
                );
                assert(shares_view(shares@) =~= Seq::new(
                    (i + 1) as nat,
                    |k: int| (sp_mount_tag(k), mv[k].0, !mv[k].2),
                ));
                assert(mounts_view(pending@) =~= Seq::new(
                    (i + 1) as nat,
                    |k: int| (sp_mount_tag(k), mv[k].1, mv[k].2),
                ));
            }
            i = i + 1;
        }
        let plan = VmPlan {
            kernel,
            rootfs,
            initrd: self.initrd,
            cmdline,
            cpus: self.cpus,
            memory_bytes,
            console: self.console,
            allow_net: self.allow_net,
            shares,
        };
        Ok(Sandbox { plan, pending_mounts: pending })
    }
}

/// The byte string `"just now"`.
pub open spec fn lbl_just_now() -> Seq<u8> {
    seq![106u8, 117u8, 115u8, 116u8, 32u8, 110u8, 111u8, 119u8]
}

/// Executable form of `lbl_just_now`.
pub fn l_just_now() -> (r: Vec<u8>)
    ensures
        r@ == lbl_just_now(),
{
    let mut v: Vec<u8> = Vec::new();
    v.push(106);
    v.push(117);
    v.push(115);
    v.push(116);
    v.push(32);
    v.push(110);
    v.push(111);
    v.push(119);
    proof {
        assert(v@ =~= lbl_just_now());
    }
    v
}

/// The byte string `"m ago"`.
pub open spec fn lbl_minutes() -> Seq<u8> {
    seq![109u8, 32u8, 97u8, 103u8, 111u8]
}

/// Executable form of `lbl_minutes`.
pub fn l_minutes() -> (r: Vec<u8>)
    ensures
        r@ == lbl_minutes(),
{
    let mut v: Vec<u8> = Vec::new();
    v.push(109);
    v.push(32);
    v.push(97);
    v.push(103);
    v.push(111);
    proof {
        assert(v@ =~= lbl_minutes());
    }
    v
}

/// The byte string `"h ago"`.
pub open spec fn lbl_hours() -> Seq<u8> {
    seq![104u8, 32u8, 97u8, 103u8, 111u8]
}

/// Executable form of `lbl_hours`.
pub fn l_hours() -> (r: Vec<u8>)
    ensures
        r@ == lbl_hours(),
{
    let mut v: Vec<u8> = Vec::new();
    v.push(104);
    v.push(32);
    v.push(97);
    v.push(103);
    v.push(111);
    proof {
        assert(v@ =~= lbl_hours());
    }
    v
}

/// The byte string `"d ago"`.
pub open spec fn lbl_days() -> Seq<u8> {
    seq![100u8, 32u8, 97u8, 103u8, 111u8]
}

/// Executable form of `lbl_days`.
pub fn l_days() -> (r: Vec<u8>)
    ensures
        r@ == lbl_days(),
{
    let mut v: Vec<u8> = Vec::new();
    v.push(100);
    v.push(32);
    v.push(97);
    v.push(103);
    v.push(111);
    proof {
        assert(v@ =~= lbl_days());
    }
    v
}

/// The age column of the checkpoint listing: under a minute is `just
/// now`; then whole minutes, hours and days.
pub open spec fn sp_age_label(secs: nat) -> Seq<u8> {
    if secs < 60 {
        lbl_just_now()
    } else if secs < 3600 {
        dec_digits(secs / 60) + lbl_minutes()
    } else if secs < 86400 {
        dec_digits(secs / 3600) + lbl_hours()
    } else {
        dec_digits(secs / 86400) + lbl_days()
    }
}

/// Format the age of a checkpoint.
pub fn age_label(secs: u64) -> (r: Vec<u8>)
    ensures
        r@ == sp_age_label(secs as nat),
{
    if secs < 60 {
        l_just_now()
    } else if secs < 3600 {
        let mut out: Vec<u8> = Vec::new();
        crate::codec::write_dec_u64_pub(&mut out, secs / 60);
        let lbl = l_minutes();
        crate::sandbox::append_bytes(&mut out, lbl.as_slice());
        out
    } else if secs < 86400 {
        let mut out: Vec<u8> = Vec::new();
        crate::codec::write_dec_u64_pub(&mut out, secs / 3600);
        let lbl = l_hours();
        crate::sandbox::append_bytes(&mut out, lbl.as_slice());
        out
    } else {
        let mut out: Vec<u8> = Vec::new();
        crate::codec::write_dec_u64_pub(&mut out, secs / 86400);
        let lbl = l_days();
        crate::sandbox::append_bytes(&mut out, lbl.as_slice());
        out
    }
}

} // verus!
