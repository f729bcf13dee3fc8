//! The wire protocol: line-delimited JSON frames for the five message
//! families of the host/guest channel.
//!
//! Each frame is one flat JSON object on one line.  The types here carry
//! text as UTF-8 bytes; `codec` gives the canonical encoding and the
//! lenient parse, and the functions here fix, frame by frame, which fields
//! exist, which are optional, and what the defaults are.

use vstd::prelude::*;

use crate::codec::JVal;
use crate::codec::JValV;
use crate::codec::JFieldV;
use crate::codec::fields_of;
use crate::codec::sp_doc;
use crate::codec::enc_line;
use crate::codec::encode_line;
use crate::codec::parse_line;
use crate::codec::canonical_fields;
use crate::codec::lemma_codec_round_trip;
use crate::codec::lemma_enc_line_framing;

verus! {

/// The wire name `"argv"`.
pub open spec fn key_argv() -> Seq<u8> {
    seq![97u8, 114u8, 103u8, 118u8]
}

/// Executable form of `key_argv`.
pub fn k_argv() -> (r: Vec<u8>)
    ensures
        r@ == key_argv(),
{
    let mut v: Vec<u8> = Vec::new();
    v.push(97);
    v.push(114);
    v.push(103);
    v.push(118);
    proof {
        assert(v@ =~= key_argv());
    }
    v
}

/// The wire name `"env"`.
pub open spec fn key_env() -> Seq<u8> {
    seq![101u8, 110u8, 118u8]
}

/// Executable form of `key_env`.
pub fn k_env() -> (r: Vec<u8>)
    ensures
        r@ == key_env(),
{
    let mut v: Vec<u8> = Vec::new();
    v.push(101);
    v.push(110);
    v.push(118);
    proof {
        assert(v@ =~= key_env());
    }
    v
}

/// The wire name `"tty"`.
pub open spec fn key_tty() -> Seq<u8> {
    seq![116u8, 116u8, 121u8]
}

/// Executable form of `key_tty`.
pub fn k_tty() -> (r: Vec<u8>)
    ensures
        r@ == key_tty(),
{
    let mut v: Vec<u8> = Vec::new();
    v.push(116);
    v.push(116);
    v.push(121);
    proof {
        assert(v@ =~= key_tty());
    }
    v
}

/// The wire name `"rows"`.
pub open spec fn key_rows() -> Seq<u8> {
    seq![114u8, 111u8, 119u8, 115u8]
}

/// Executable form of `key_rows`.
pub fn k_rows() -> (r: Vec<u8>)
    ensures
        r@ == key_rows(),
{
    let mut v: Vec<u8> = Vec::new();
    v.push(114);
    v.push(111);
    v.push(119);
    v.push(115);
    proof {
        assert(v@ =~= key_rows());
    }
    v
}

/// The wire name `"cols"`.
pub open spec fn key_cols() -> Seq<u8> {
    seq![99u8, 111u8, 108u8, 115u8]
}

/// Executable form of `key_cols`.
pub fn k_cols() -> (r: Vec<u8>)
    ensures
        r@ == key_cols(),
{
    let mut v: Vec<u8> = Vec::new();
    v.push(99);
    v.push(111);
    v.push(108);
    v.push(115);
    proof {
        assert(v@ =~= key_cols());
    }
    v
}

/// The wire name `"type"`.
pub open spec fn key_type_() -> Seq<u8> {
    seq![116u8, 121u8, 112u8, 101u8]
}

/// Executable form of `key_type_`.
pub fn k_type_() -> (r: Vec<u8>)
    ensures
        r@ == key_type_(),
{
    let mut v: Vec<u8> = Vec::new();
    v.push(116);
    v.push(121);
    v.push(112);
    v.push(101);
    proof {
        assert(v@ =~= key_type_());
    }
    v
}

/// The wire name `"data"`.
pub open spec fn key_data() -> Seq<u8> {
    seq![100u8, 97u8, 116u8, 97u8]
}

/// Executable form of `key_data`.
pub fn k_data() -> (r: Vec<u8>)
    ensures
        r@ == key_data(),
{
    let mut v: Vec<u8> = Vec::new();
    v.push(100);
    v.push(97);
    v.push(116);
    v.push(97);
    proof {
        assert(v@ =~= key_data());
    }
    v
}

/// The wire name `"code"`.
pub open spec fn key_code() -> Seq<u8> {
    seq![99u8, 111u8, 100u8, 101u8]
}

/// Executable form of `key_code`.
pub fn k_code() -> (r: Vec<u8>)
    ensures
        r@ == key_code(),
{
    let mut v: Vec<u8> = Vec::new();
    v.push(99);
    v.push(111);
    v.push(100);
    v.push(101);
    proof {
        assert(v@ =~= key_code());
    }
    v
}

/// The wire name `"tag"`.
pub open spec fn key_tag() -> Seq<u8> {
    seq![116u8, 97u8, 103u8]
}

/// Executable form of `key_tag`.
pub fn k_tag() -> (r: Vec<u8>)
    ensures
        r@ == key_tag(),
{
    let mut v: Vec<u8> = Vec::new();
    v.push(116);
    v.push(97);
    v.push(103);
    proof {
        assert(v@ =~= key_tag());
    }
    v
}

/// The wire name `"guest_path"`.
pub open spec fn key_guest_path() -> Seq<u8> {
    seq![103u8, 117u8, 101u8, 115u8, 116u8, 95u8, 112u8, 97u8, 116u8, 104u8]
}

/// Executable form of `key_guest_path`.
pub fn k_guest_path() -> (r: Vec<u8>)
    ensures
        r@ == key_guest_path(),
{
    let mut v: Vec<u8> = Vec::new();
    v.push(103);
    v.push(117);
    v.push(101);
    v.push(115);
    v.push(116);
    v.push(95);
    v.push(112);
    v.push(97);
    v.push(116);
    v.push(104);
    proof {
        assert(v@ =~= key_guest_path());
    }
    v
}

/// The wire name `"persistent"`.
pub open spec fn key_persistent() -> Seq<u8> {
    seq![112u8, 101u8, 114u8, 115u8, 105u8, 115u8, 116u8, 101u8, 110u8, 116u8]
}

/// Executable form of `key_persistent`.
pub fn k_persistent() -> (r: Vec<u8>)
    ensures
        r@ == key_persistent(),
{
    let mut v: Vec<u8> = Vec::new();
    v.push(112);
    v.push(101);
    v.push(114);
    v.push(115);
    v.push(105);
    v.push(115);
    v.push(116);
    v.push(101);
    v.push(110);
    v.push(116);
    proof {
        assert(v@ =~= key_persistent());
    }
    v
}

/// The wire name `"ok"`.
pub open spec fn key_ok() -> Seq<u8> {
    seq![111u8, 107u8]
}

/// Executable form of `key_ok`.
pub fn k_ok() -> (r: Vec<u8>)
    ensures
        r@ == key_ok(),
{
    let mut v: Vec<u8> = Vec::new();
    v.push(111);
    v.push(107);
    proof {
        assert(v@ =~= key_ok());
    }
    v
}

/// The wire name `"error"`.
pub open spec fn key_error() -> Seq<u8> {
    seq![101u8, 114u8, 114u8, 111u8, 114u8]
}

/// Executable form of `key_error`.
pub fn k_error() -> (r: Vec<u8>)
    ensures
        r@ == key_error(),
{
    let mut v: Vec<u8> = Vec::new();
    v.push(101);
    v.push(114);
    v.push(114);
    v.push(111);
    v.push(114);
    proof {
        assert(v@ =~= key_error());
    }
    v
}

/// The wire name `"port"`.
pub open spec fn key_port() -> Seq<u8> {
    seq![112u8, 111u8, 114u8, 116u8]
}

/// Executable form of `key_port`.
pub fn k_port() -> (r: Vec<u8>)
    ensures
        r@ == key_port(),
{
    let mut v: Vec<u8> = Vec::new();
    v.push(112);
    v.push(111);
    v.push(114);
    v.push(116);
    proof {
        assert(v@ =~= key_port());
    }
    v
}

/// The wire name `"status"`.
pub open spec fn key_status() -> Seq<u8> {
    seq![115u8, 116u8, 97u8, 116u8, 117u8, 115u8]
}

/// Executable form of `key_status`.
pub fn k_status() -> (r: Vec<u8>)
    ensures
        r@ == key_status(),
{
    let mut v: Vec<u8> = Vec::new();
    v.push(115);
    v.push(116);
    v.push(97);
    v.push(116);
    v.push(117);
    v.push(115);
    proof {
        assert(v@ =~= key_status());
    }
    v
}

/// The wire name `"message"`.
pub open spec fn key_message() -> Seq<u8> {
    seq![109u8, 101u8, 115u8, 115u8, 97u8, 103u8, 101u8]
}

/// Executable form of `key_message`.
pub fn k_message() -> (r: Vec<u8>)
    ensures
        r@ == key_message(),
{
    let mut v: Vec<u8> = Vec::new();
    v.push(109);
    v.push(101);
    v.push(115);
    v.push(115);
    v.push(97);
    v.push(103);
    v.push(101);
    proof {
        assert(v@ =~= key_message());
    }
    v
}

/// The wire name `"stdin"`.
pub open spec fn val_stdin() -> Seq<u8> {
    seq![115u8, 116u8, 100u8, 105u8, 110u8]
}

/// Executable form of `val_stdin`.
pub fn v_stdin() -> (r: Vec<u8>)
    ensures
        r@ == val_stdin(),
{
    let mut v: Vec<u8> = Vec::new();
    v.push(115);
    v.push(116);
    v.push(100);
    v.push(105);
    v.push(110);
    proof {
        assert(v@ =~= val_stdin());
    }
    v
}

/// The wire name `"resize"`.
pub open spec fn val_resize() -> Seq<u8> {
    seq![114u8, 101u8, 115u8, 105u8, 122u8, 101u8]
}

/// Executable form of `val_resize`.
pub fn v_resize() -> (r: Vec<u8>)
    ensures
        r@ == val_resize(),
{
    let mut v: Vec<u8> = Vec::new();
    v.push(114);
    v.push(101);
    v.push(115);
    v.push(105);
    v.push(122);
    v.push(101);
    proof {
        assert(v@ =~= val_resize());
    }
    v
}

/// The wire name `"stdout"`.
pub open spec fn val_stdout() -> Seq<u8> {
    seq![115u8, 116u8, 100u8, 111u8, 117u8, 116u8]
}

/// Executable form of `val_stdout`.
pub fn v_stdout() -> (r: Vec<u8>)
    ensures
        r@ == val_stdout(),
{
    let mut v: Vec<u8> = Vec::new();
    v.push(115);
    v.push(116);
    v.push(100);
    v.push(111);
    v.push(117);
    v.push(116);
    proof {
        assert(v@ =~= val_stdout());
    }
    v
}

/// The wire name `"stderr"`.
pub open spec fn val_stderr() -> Seq<u8> {
    seq![115u8, 116u8, 100u8, 101u8, 114u8, 114u8]
}

/// Executable form of `val_stderr`.
pub fn v_stderr() -> (r: Vec<u8>)
    ensures
        r@ == val_stderr(),
{
    let mut v: Vec<u8> = Vec::new();
    v.push(115);
    v.push(116);
    v.push(100);
    v.push(101);
    v.push(114);
    v.push(114);
    proof {
        assert(v@ =~= val_stderr());
    }
    v
}

/// The wire name `"exit"`.
pub open spec fn val_exit() -> Seq<u8> {
    seq![101u8, 120u8, 105u8, 116u8]
}

/// Executable form of `val_exit`.
pub fn v_exit() -> (r: Vec<u8>)
    ensures
        r@ == val_exit(),
{
    let mut v: Vec<u8> = Vec::new();
    v.push(101);
    v.push(120);
    v.push(105);
    v.push(116);
    proof {
        assert(v@ =~= val_exit());
    }
    v
}

/// The wire name `"error"`.
pub open spec fn val_error_s() -> Seq<u8> {
    seq![101u8, 114u8, 114u8, 111u8, 114u8]
}

/// Executable form of `val_error_s`.
pub fn v_error_s() -> (r: Vec<u8>)
    ensures
        r@ == val_error_s(),
{
    let mut v: Vec<u8> = Vec::new();
    v.push(101);
    v.push(114);
    v.push(114);
    v.push(111);
    v.push(114);
    proof {
        assert(v@ =~= val_error_s());
    }
    v
}

// ---------------------------------------------------------------------------
// Field lookup
// ---------------------------------------------------------------------------

/// Byte-for-byte equality of two byte strings.
pub fn bytes_eq(a: &[u8], b: &[u8]) -> (r: bool)
    ensures
        r <==> a@ == b@,
{
    if a.len() != b.len() {
        return false;
    }
    let mut i: usize = 0;
    while i < a.len()
        invariant
            0 <= i <= a@.len(),
            a@.len() == b@.len(),
            forall|k: int| 0 <= k < i ==> a@[k] == #[trigger] b@[k],
        decreases a@.len() - i,
    {
        if a[i] != b[i] {
            proof {
                assert(a@[i as int] != b@[i as int]);
            }
            return false;
        }
        i = i + 1;
    }
    proof {
        assert(a@ =~= b@);
    }
    true
}

/// First value bound to `key`, if any.
pub open spec fn jlookup(fields: Seq<JFieldV>, key: Seq<u8>) -> Option<JValV>
    decreases fields.len(),
{
    if fields.len() == 0 {
        None
    } else if fields[0].0 == key {
        Some(fields[0].1)
    } else {
        jlookup(fields.drop_first(), key)
    }
}

/// Executable first-match lookup.
pub fn jget<'a>(fields: &'a Vec<(Vec<u8>, JVal)>, key: &[u8]) -> (r: Option<&'a JVal>)
    ensures
        match r {
            None => jlookup(fields_of(fields@), key@) == None::<JValV>,
            Some(v) => jlookup(fields_of(fields@), key@) == Some(v@),
        },
{
    let ghost all = fields_of(fields@);
    proof {
        assert(all.skip(0) =~= all);
    }
    let mut i: usize = 0;
    while i < fields.len()
        invariant
            0 <= i <= fields@.len(),
            all == fields_of(fields@),
            jlookup(all, key@) == jlookup(all.skip(i as int), key@),
        decreases fields@.len() - i,
    {
        proof {
            assert(all.skip(i as int)[0] == all[i as int]);
            assert(all.skip(i as int).drop_first() =~= all.skip(i + 1));
        }
        if bytes_eq(fields[i].0.as_slice(), key) {
            return Some(&fields[i].1);
        }
        i = i + 1;
    }
    proof {
        assert(all.skip(fields@.len() as int).len() == 0);
    }
    None
}

// ---------------------------------------------------------------------------
// Exec responses (guest to host)
// ---------------------------------------------------------------------------

/// One guest-to-host response frame of an exec session: a `stdout`,
/// `stderr`, `exit` or `error` message (other types are carried through and
/// ignored by the host).
pub struct ExecResponse {
    pub msg_type: Vec<u8>,
    pub data: Option<Vec<u8>>,
    pub code: Option<i32>,
}

/// View of an optional byte-string field.
pub open spec fn opt_bytes(o: Option<Vec<u8>>) -> Option<Seq<u8>> {
    match o {
        None => None,
        Some(v) => Some(v@),
    }
}

/// View of an optional `i32` field.
pub open spec fn opt_int(o: Option<i32>) -> Option<int> {
    match o {
        None => None,
        Some(v) => Some(v as int),
    }
}

/// The field list of an exec response frame.
pub open spec fn exec_response_fields(t: Seq<u8>, d: Option<Seq<u8>>, c: Option<int>) -> Seq<
    JFieldV,
> {
    seq![(key_type_(), JValV::Str(t))] + (match d {
        Some(x) => seq![(key_data(), JValV::Str(x))],
        None => Seq::empty(),
    }) + (match c {
        Some(n) => seq![(key_code(), JValV::Num(n))],
        None => Seq::empty(),
    })
}

/// An optional string field: absent, present, or (wrong shape) rejected.
pub open spec fn opt_str_field(fields: Seq<JFieldV>, key: Seq<u8>) -> Option<Option<Seq<u8>>> {
    match jlookup(fields, key) {
        None => Some(None),
        Some(JValV::Str(s)) => Some(Some(s)),
        Some(_) => None,
    }
}

/// An optional `i32` field: absent, present in range, or rejected.
pub open spec fn opt_i32_field(fields: Seq<JFieldV>, key: Seq<u8>) -> Option<Option<int>> {
    match jlookup(fields, key) {
        None => Some(None),
        Some(JValV::Num(n)) => if i32::MIN <= n <= i32::MAX {
            Some(Some(n))
        } else {
            None
        },
        Some(_) => None,
    }
}

/// What an exec response frame means: `type` is required and a string;
/// `data` and `code` are optional.
pub open spec fn sp_exec_response_of(fields: Seq<JFieldV>) -> Option<
    (Seq<u8>, Option<Seq<u8>>, Option<int>),
> {
    match jlookup(fields, key_type_()) {
        Some(JValV::Str(t)) => match (opt_str_field(fields, key_data()), opt_i32_field(
            fields,
            key_code(),
        )) {
            (Some(d), Some(c)) => Some((t, d, c)),
            _ => None,
        },
        _ => None,
    }
}

/// Parse of one exec response line.
pub open spec fn sp_exec_response_line(s: Seq<u8>) -> Option<(Seq<u8>, Option<Seq<u8>>, Option<int>)> {
    match sp_doc(s) {
        None => None,
        Some(fields) => sp_exec_response_of(fields),
    }
}

/// Encode an exec response as one frame line.
pub fn encode_exec_response(r: &ExecResponse) -> (out: Vec<u8>)
    ensures
        out@ == enc_line(exec_response_fields(r.msg_type@, opt_bytes(r.data), opt_int(r.code))),
{
    let mut fields: Vec<(Vec<u8>, JVal)> = Vec::new();
    let t: Vec<u8> = vstd::slice::slice_to_vec(r.msg_type.as_slice());
    fields.push((k_type_(), JVal::Str(t)));
    match (&r.data, &r.code) {
        (Some(d), Some(c)) => {
            fields.push((k_data(), JVal::Str(vstd::slice::slice_to_vec(d.as_slice()))));
            fields.push((k_code(), JVal::Num(*c as i64)));
            proof {
                assert(fields_of(fields@) =~= exec_response_fields(
                    r.msg_type@,
                    opt_bytes(r.data),
                    opt_int(r.code),
                ));
            }
        },
        (Some(d), None) => {
            fields.push((k_data(), JVal::Str(vstd::slice::slice_to_vec(d.as_slice()))));
            proof {
                assert(fields_of(fields@) =~= exec_response_fields(
                    r.msg_type@,
                    opt_bytes(r.data),
                    opt_int(r.code),
                ));
            }
        },
        (None, Some(c)) => {
            fields.push((k_code(), JVal::Num(*c as i64)));
            proof {
                assert(fields_of(fields@) =~= exec_response_fields(
                    r.msg_type@,
                    opt_bytes(r.data),
                    opt_int(r.code),
                ));
            }
        },
        (None, None) => {
            proof {
                assert(fields_of(fields@) =~= exec_response_fields(
                    r.msg_type@,
                    opt_bytes(r.data),
                    opt_int(r.code),
                ));
            }
        },
    }
    encode_line(&fields)
}

/// Parse one exec response line.
pub fn parse_exec_response(line: &[u8]) -> (r: Option<ExecResponse>)
    ensures
        match r {
            None => sp_exec_response_line(line@) == None::<(Seq<u8>, Option<Seq<u8>>, Option<int>)>,
            Some(resp) => sp_exec_response_line(line@) == Some(
                (resp.msg_type@, opt_bytes(resp.data), opt_int(resp.code)),
            ),
        },
{
    let fields = match parse_line(line) {
        None => {
            return None;
        },
        Some(f) => f,
    };
    let tkey = k_type_();
    let t: Vec<u8> = match jget(&fields, tkey.as_slice()) {
        Some(JVal::Str(s)) => vstd::slice::slice_to_vec(s.as_slice()),
        _ => {
            return None;
        },
    };
    let dkey = k_data();
    let d: Option<Vec<u8>> = match jget(&fields, dkey.as_slice()) {
        None => None,
        Some(JVal::Str(s)) => Some(vstd::slice::slice_to_vec(s.as_slice())),
        Some(_) => {
            return None;
        },
    };
    let ckey = k_code();
    let c: Option<i32> = match jget(&fields, ckey.as_slice()) {
        None => None,
        Some(JVal::Num(n)) => {
            let n = *n;
            if n < -0x8000_0000i64 || n > 0x7fff_ffffi64 {
                return None;
            }
            Some(n as i32)
        },
        Some(_) => {
            return None;
        },
    };
    Some(ExecResponse { msg_type: t, data: d, code: c })
}

/// Lookup in a one-field list.
pub proof fn lemma_lookup1(a: JFieldV, k: Seq<u8>)
    ensures
        jlookup(seq![a], a.0) == Some(a.1),
        k != a.0 ==> jlookup(seq![a], k) == None::<JValV>,
{
    assert(seq![a].drop_first() =~= Seq::<JFieldV>::empty());
    assert(jlookup(Seq::<JFieldV>::empty(), k) == None::<JValV>);
    assert(jlookup(Seq::<JFieldV>::empty(), a.0) == None::<JValV>);
}

/// Lookup in a two-field list with distinct keys.
pub proof fn lemma_lookup2(a: JFieldV, b: JFieldV, k: Seq<u8>)
    requires
        a.0 != b.0,
    ensures
        jlookup(seq![a, b], a.0) == Some(a.1),
        jlookup(seq![a, b], b.0) == Some(b.1),
        k != a.0 && k != b.0 ==> jlookup(seq![a, b], k) == None::<JValV>,
{
    assert(seq![a, b].drop_first() =~= seq![b]);
    lemma_lookup1(b, k);
    lemma_lookup1(b, a.0);
}

/// Lookup in a three-field list with distinct keys.
pub proof fn lemma_lookup3(a: JFieldV, b: JFieldV, c: JFieldV, k: Seq<u8>)
    requires
        a.0 != b.0,
        a.0 != c.0,
        b.0 != c.0,
    ensures
        jlookup(seq![a, b, c], a.0) == Some(a.1),
        jlookup(seq![a, b, c], b.0) == Some(b.1),
        jlookup(seq![a, b, c], c.0) == Some(c.1),
        k != a.0 && k != b.0 && k != c.0 ==> jlookup(seq![a, b, c], k) == None::<JValV>,
{
    assert(seq![a, b, c].drop_first() =~= seq![b, c]);
    lemma_lookup2(b, c, k);
    lemma_lookup2(b, c, a.0);
}

/// Round trip: an encoded exec response parses back to the same message.
#[verifier::rlimit(50)]
pub proof fn lemma_exec_response_round_trip(t: Seq<u8>, d: Option<Seq<u8>>, c: Option<int>)
    requires
        match c {
            Some(n) => i32::MIN <= n <= i32::MAX,
            None => true,
        },
    ensures
        sp_exec_response_line(enc_line(exec_response_fields(t, d, c))) == Some((t, d, c)),
{
    let fields = exec_response_fields(t, d, c);
    let fa = (key_type_(), JValV::Str(t));
    assert(key_type_() != key_data());
    assert(key_type_() != key_code());
    assert(key_data() != key_code());
    match (d, c) {
        (Some(x), Some(n)) => {
            let fb = (key_data(), JValV::Str(x));
            let fc = (key_code(), JValV::Num(n));
            assert(fields =~= seq![fa, fb, fc]);
            assert(canonical_fields(fields)) by {
                assert(fields[0] == fa && fields[1] == fb && fields[2] == fc);
            }
            lemma_lookup3(fa, fb, fc, key_type_());
            assert(jlookup(fields, key_type_()) == Some(JValV::Str(t)));
            assert(jlookup(fields, key_data()) == Some(JValV::Str(x)));
            assert(jlookup(fields, key_code()) == Some(JValV::Num(n)));
            assert(sp_exec_response_of(fields) == Some((t, d, c)));
            lemma_codec_round_trip(fields);
        },
        (Some(x), None) => {
            let fb = (key_data(), JValV::Str(x));
            assert(fields =~= seq![fa, fb]);
            assert(canonical_fields(fields)) by {
                assert(fields[0] == fa && fields[1] == fb);
            }
            lemma_lookup2(fa, fb, key_code());
            assert(jlookup(fields, key_type_()) == Some(JValV::Str(t)));
            assert(jlookup(fields, key_data()) == Some(JValV::Str(x)));
            assert(jlookup(fields, key_code()) == None::<JValV>);
            assert(sp_exec_response_of(fields) == Some((t, d, c)));
            lemma_codec_round_trip(fields);
        },
        (None, Some(n)) => {
            let fc = (key_code(), JValV::Num(n));
            assert(fields =~= seq![fa, fc]);
            assert(canonical_fields(fields)) by {
                assert(fields[0] == fa && fields[1] == fc);
            }
            lemma_lookup2(fa, fc, key_data());
            assert(jlookup(fields, key_type_()) == Some(JValV::Str(t)));
            assert(jlookup(fields, key_data()) == None::<JValV>);
            assert(jlookup(fields, key_code()) == Some(JValV::Num(n)));
            assert(sp_exec_response_of(fields) == Some((t, d, c)));
            lemma_codec_round_trip(fields);
        },
        (None, None) => {
            assert(fields =~= seq![fa]);
            assert(canonical_fields(fields)) by {
                assert(fields[0] == fa);
            }
            lemma_lookup1(fa, key_data());
            lemma_lookup1(fa, key_code());
            assert(jlookup(fields, key_type_()) == Some(JValV::Str(t)));
            assert(jlookup(fields, key_data()) == None::<JValV>);
            assert(jlookup(fields, key_code()) == None::<JValV>);
            assert(sp_exec_response_of(fields) == Some((t, d, c)));
            lemma_codec_round_trip(fields);
        },
    }
}

/// Lookup in a four-field list with distinct keys.
pub proof fn lemma_lookup4(a: JFieldV, b: JFieldV, c: JFieldV, d: JFieldV, k: Seq<u8>)
    requires
        a.0 != b.0,
        a.0 != c.0,
        a.0 != d.0,
        b.0 != c.0,
        b.0 != d.0,
        c.0 != d.0,
    ensures
        jlookup(seq![a, b, c, d], a.0) == Some(a.1),
        jlookup(seq![a, b, c, d], b.0) == Some(b.1),
        jlookup(seq![a, b, c, d], c.0) == Some(c.1),
        jlookup(seq![a, b, c, d], d.0) == Some(d.1),
        k != a.0 && k != b.0 && k != c.0 && k != d.0 ==> jlookup(seq![a, b, c, d], k) == None::<
            JValV,
        >,
{
    assert(seq![a, b, c, d].drop_first() =~= seq![b, c, d]);
    lemma_lookup3(b, c, d, k);
    lemma_lookup3(b, c, d, a.0);
}

/// Lookup in a five-field list with distinct keys.
pub proof fn lemma_lookup5(a: JFieldV, b: JFieldV, c: JFieldV, d: JFieldV, e: JFieldV, k: Seq<u8>)
    requires
        a.0 != b.0,
        a.0 != c.0,
        a.0 != d.0,
        a.0 != e.0,
        b.0 != c.0,
        b.0 != d.0,
        b.0 != e.0,
        c.0 != d.0,
        c.0 != e.0,
        d.0 != e.0,
    ensures
        jlookup(seq![a, b, c, d, e], a.0) == Some(a.1),
        jlookup(seq![a, b, c, d, e], b.0) == Some(b.1),
        jlookup(seq![a, b, c, d, e], c.0) == Some(c.1),
        jlookup(seq![a, b, c, d, e], d.0) == Some(d.1),
        jlookup(seq![a, b, c, d, e], e.0) == Some(e.1),
        k != a.0 && k != b.0 && k != c.0 && k != d.0 && k != e.0 ==> jlookup(
            seq![a, b, c, d, e],
            k,
        ) == None::<JValV>,
{
    assert(seq![a, b, c, d, e].drop_first() =~= seq![b, c, d, e]);
    lemma_lookup4(b, c, d, e, k);
    lemma_lookup4(b, c, d, e, a.0);
}

// ---------------------------------------------------------------------------
// Exec requests (host to guest)
// ---------------------------------------------------------------------------

/// The host-side exec request: the command line and environment, and, for a
/// PTY session, the terminal flag and initial window size.  Absent optional
/// fields are omitted from the wire frame.
pub struct ExecRequest {
    pub argv: Vec<Vec<u8>>,
    pub env: Vec<(Vec<u8>, Vec<u8>)>,
    pub tty: Option<bool>,
    pub rows: Option<u16>,
    pub cols: Option<u16>,
}

/// View of an optional `u16` field.
pub open spec fn opt_u16(o: Option<u16>) -> Option<int> {
    match o {
        None => None,
        Some(v) => Some(v as int),
    }
}

/// The field list of an exec request frame.
pub open spec fn exec_request_fields(
    argv: Seq<Seq<u8>>,
    env: Seq<(Seq<u8>, Seq<u8>)>,
    tty: Option<bool>,
    rows: Option<int>,
    cols: Option<int>,
) -> Seq<JFieldV> {
    seq![(key_argv(), JValV::StrArr(argv)), (key_env(), JValV::StrMap(env))] + (match tty {
        Some(b) => seq![(key_tty(), JValV::Bool(b))],
        None => Seq::empty(),
    }) + (match rows {
        Some(n) => seq![(key_rows(), JValV::Num(n))],
        None => Seq::empty(),
    }) + (match cols {
        Some(n) => seq![(key_cols(), JValV::Num(n))],
        None => Seq::empty(),
    })
}

/// What an exec request frame means to the guest: `argv` is required;
/// `env` defaults to empty; `tty` defaults to false; `rows` and `cols`
/// default to 24 and 80.  A field of the wrong shape rejects the frame.
pub open spec fn sp_exec_request_of(fields: Seq<JFieldV>) -> Option<
    (Seq<Seq<u8>>, Seq<(Seq<u8>, Seq<u8>)>, bool, u16, u16),
> {
    match jlookup(fields, key_argv()) {
        Some(JValV::StrArr(argv)) => {
            let envr = match jlookup(fields, key_env()) {
                None => Some(Seq::<(Seq<u8>, Seq<u8>)>::empty()),
                Some(JValV::StrMap(m)) => Some(m),
                Some(_) => None,
            };
            let ttyr = match jlookup(fields, key_tty()) {
                None => Some(false),
                Some(JValV::Bool(b)) => Some(b),
                Some(_) => None,
            };
            let rowsr = match jlookup(fields, key_rows()) {
                None => Some(24u16),
                Some(JValV::Num(n)) => if 0 <= n <= u16::MAX {
                    Some(n as u16)
                } else {
                    None
                },
                Some(_) => None,
            };
            let colsr = match jlookup(fields, key_cols()) {
                None => Some(80u16),
                Some(JValV::Num(n)) => if 0 <= n <= u16::MAX {
                    Some(n as u16)
                } else {
                    None
                },
                Some(_) => None,
            };
            match (envr, ttyr, rowsr, colsr) {
                (Some(env), Some(tty), Some(rows), Some(cols)) => Some((argv, env, tty, rows, cols)),
                _ => None,
            }
        },
        _ => None,
    }
}

/// Parse of one exec request line.
pub open spec fn sp_exec_request_line(s: Seq<u8>) -> Option<
    (Seq<Seq<u8>>, Seq<(Seq<u8>, Seq<u8>)>, bool, u16, u16),
> {
    match sp_doc(s) {
        None => None,
        Some(fields) => sp_exec_request_of(fields),
    }
}

/// Deep copy of a byte-string list.
pub(crate) fn copy_strs(items: &Vec<Vec<u8>>) -> (r: Vec<Vec<u8>>)
    ensures
        r@.map_values(|v: Vec<u8>| v@) == items@.map_values(|v: Vec<u8>| v@),
{
    let mut out: Vec<Vec<u8>> = Vec::new();
    let mut i: usize = 0;
    while i < items.len()
        invariant
            0 <= i <= items@.len(),
            out@.map_values(|v: Vec<u8>| v@) =~= items@.take(i as int).map_values(
                |v: Vec<u8>| v@,
            ),
        decreases items@.len() - i,
    {
        let ghost out0 = out@;
        out.push(vstd::slice::slice_to_vec(items[i].as_slice()));
        proof {
            assert(items@.take(i + 1) =~= items@.take(i as int).push(items@[i as int]));
            out0.lemma_push_map_commute(|v: Vec<u8>| v@, out@[i as int]);
            items@.take(i as int).lemma_push_map_commute(|v: Vec<u8>| v@, items@[i as int]);
            assert(out@ =~= out0.push(out@[i as int]));
            assert(out@.map_values(|v: Vec<u8>| v@) =~= items@.take(i + 1).map_values(
                |v: Vec<u8>| v@,
            ));
        }
        i = i + 1;
    }
    proof {
        assert(items@.take(items@.len() as int) =~= items@);
    }
    out
}

/// Deep copy of a byte-string pair list.
pub(crate) fn copy_pairs(pairs: &Vec<(Vec<u8>, Vec<u8>)>) -> (r: Vec<(Vec<u8>, Vec<u8>)>)
    ensures
        r@.map_values(|p: (Vec<u8>, Vec<u8>)| (p.0@, p.1@)) == pairs@.map_values(
            |p: (Vec<u8>, Vec<u8>)| (p.0@, p.1@),
        ),
{
    let mut out: Vec<(Vec<u8>, Vec<u8>)> = Vec::new();
    let mut i: usize = 0;
    while i < pairs.len()
        invariant
            0 <= i <= pairs@.len(),
            out@.map_values(|p: (Vec<u8>, Vec<u8>)| (p.0@, p.1@)) =~= pairs@.take(
                i as int,
            ).map_values(|p: (Vec<u8>, Vec<u8>)| (p.0@, p.1@)),
        decreases pairs@.len() - i,
    {
        let ghost out0 = out@;
        out.push(
            (
                vstd::slice::slice_to_vec(pairs[i].0.as_slice()),
                vstd::slice::slice_to_vec(pairs[i].1.as_slice()),
            ),
        );
        proof {
            assert(pairs@.take(i + 1) =~= pairs@.take(i as int).push(pairs@[i as int]));
            out0.lemma_push_map_commute(
                |p: (Vec<u8>, Vec<u8>)| (p.0@, p.1@),
                out@[i as int],
            );
            pairs@.take(i as int).lemma_push_map_commute(
                |p: (Vec<u8>, Vec<u8>)| (p.0@, p.1@),
                pairs@[i as int],
            );
            assert(out@ =~= out0.push(out@[i as int]));
            assert(out@.map_values(|p: (Vec<u8>, Vec<u8>)| (p.0@, p.1@)) =~= pairs@.take(
                i + 1,
            ).map_values(|p: (Vec<u8>, Vec<u8>)| (p.0@, p.1@)));
        }
        i = i + 1;
    }
    proof {
        assert(pairs@.take(pairs@.len() as int) =~= pairs@);
    }
    out
}

/// Encode an exec request as one frame line.
pub fn encode_exec_request(r: &ExecRequest) -> (out: Vec<u8>)
    ensures
        out@ == enc_line(exec_request_fields(
            r.argv@.map_values(|v: Vec<u8>| v@),
            r.env@.map_values(|p: (Vec<u8>, Vec<u8>)| (p.0@, p.1@)),
            r.tty,
            opt_u16(r.rows),
            opt_u16(r.cols),
        )),
{
    let mut fields: Vec<(Vec<u8>, JVal)> = Vec::new();
    fields.push((k_argv(), JVal::StrArr(copy_strs(&r.argv))));
    fields.push((k_env(), JVal::StrMap(copy_pairs(&r.env))));
    match &r.tty {
        Some(b) => {
            fields.push((k_tty(), JVal::Bool(*b)));
        },
        None => {},
    }
    match &r.rows {
        Some(n) => {
            fields.push((k_rows(), JVal::Num(*n as i64)));
        },
        None => {},
    }
    match &r.cols {
        Some(n) => {
            fields.push((k_cols(), JVal::Num(*n as i64)));
        },
        None => {},
    }
    proof {
        assert(fields_of(fields@) =~= exec_request_fields(
            r.argv@.map_values(|v: Vec<u8>| v@),
            r.env@.map_values(|p: (Vec<u8>, Vec<u8>)| (p.0@, p.1@)),
            r.tty,
            opt_u16(r.rows),
            opt_u16(r.cols),
        ));
    }
    encode_line(&fields)
}

/// Round trip: an encoded exec request parses back, on the guest, to the
/// same command with the documented defaults filled in.
#[verifier::rlimit(100)]
pub proof fn lemma_exec_request_round_trip(
    argv: Seq<Seq<u8>>,
    env: Seq<(Seq<u8>, Seq<u8>)>,
    tty: Option<bool>,
    rows: Option<int>,
    cols: Option<int>,
)
    requires
        match rows {
            Some(n) => 0 <= n <= u16::MAX,
            None => true,
        },
        match cols {
            Some(n) => 0 <= n <= u16::MAX,
            None => true,
        },
    ensures
        sp_exec_request_line(enc_line(exec_request_fields(argv, env, tty, rows, cols))) == Some(
            (
                argv,
                env,
                match tty {
                    Some(b) => b,
                    None => false,
                },
                match rows {
                    Some(n) => n as u16,
                    None => 24u16,
                },
                match cols {
                    Some(n) => n as u16,
                    None => 80u16,
                },
            ),
        ),
{
    let fields = exec_request_fields(argv, env, tty, rows, cols);
    let fa = (key_argv(), JValV::StrArr(argv));
    let fe = (key_env(), JValV::StrMap(env));
    assert(key_argv() != key_env());
    assert(key_argv() != key_tty());
    assert(key_argv() != key_rows());
    assert(key_argv() != key_cols());
    assert(key_env() != key_tty());
    assert(key_env() != key_rows());
    assert(key_env() != key_cols());
    assert(key_tty() != key_rows());
    assert(key_tty() != key_cols());
    assert(key_rows() != key_cols());
    match (tty, rows, cols) {
        (Some(b), Some(rn), Some(cn)) => {
            let ft = (key_tty(), JValV::Bool(b));
            let fr = (key_rows(), JValV::Num(rn));
            let fc = (key_cols(), JValV::Num(cn));
            assert(fields =~= seq![fa, fe, ft, fr, fc]);
            assert(canonical_fields(fields)) by {
                assert(fields[0] == fa && fields[1] == fe && fields[2] == ft && fields[3] == fr && fields[4] == fc);
            }
            lemma_lookup5(fa, fe, ft, fr, fc, key_tty());
            assert(jlookup(fields, key_argv()) == Some(JValV::StrArr(argv)));
            assert(jlookup(fields, key_env()) == Some(JValV::StrMap(env)));
            assert(jlookup(fields, key_tty()) == Some(JValV::Bool(b)));
            assert(jlookup(fields, key_rows()) == Some(JValV::Num(rn)));
            assert(jlookup(fields, key_cols()) == Some(JValV::Num(cn)));
            assert(sp_exec_request_of(fields) == Some((argv, env, b, rn as u16, cn as u16)));
            lemma_codec_round_trip(fields);
        },
        (Some(b), Some(rn), None) => {
            let ft = (key_tty(), JValV::Bool(b));
            let fr = (key_rows(), JValV::Num(rn));
            assert(fields =~= seq![fa, fe, ft, fr]);
            assert(canonical_fields(fields)) by {
                assert(fields[0] == fa && fields[1] == fe && fields[2] == ft && fields[3] == fr);
            }
            lemma_lookup4(fa, fe, ft, fr, key_cols());
            assert(jlookup(fields, key_argv()) == Some(JValV::StrArr(argv)));
            assert(jlookup(fields, key_env()) == Some(JValV::StrMap(env)));
            assert(jlookup(fields, key_tty()) == Some(JValV::Bool(b)));
            assert(jlookup(fields, key_rows()) == Some(JValV::Num(rn)));
            assert(jlookup(fields, key_cols()) == None::<JValV>);
            assert(sp_exec_request_of(fields) == Some((argv, env, b, rn as u16, 80u16)));
            lemma_codec_round_trip(fields);
        },
        (Some(b), None, Some(cn)) => {
            let ft = (key_tty(), JValV::Bool(b));
            let fc = (key_cols(), JValV::Num(cn));
            assert(fields =~= seq![fa, fe, ft, fc]);
            assert(canonical_fields(fields)) by {
                assert(fields[0] == fa && fields[1] == fe && fields[2] == ft && fields[3] == fc);
            }
            lemma_lookup4(fa, fe, ft, fc, key_rows());
            assert(jlookup(fields, key_argv()) == Some(JValV::StrArr(argv)));
            assert(jlookup(fields, key_env()) == Some(JValV::StrMap(env)));
            assert(jlookup(fields, key_tty()) == Some(JValV::Bool(b)));
            assert(jlookup(fields, key_rows()) == None::<JValV>);
            assert(jlookup(fields, key_cols()) == Some(JValV::Num(cn)));
            assert(sp_exec_request_of(fields) == Some((argv, env, b, 24u16, cn as u16)));
            lemma_codec_round_trip(fields);
        },
        (Some(b), None, None) => {
            let ft = (key_tty(), JValV::Bool(b));
            assert(fields =~= seq![fa, fe, ft]);
            assert(canonical_fields(fields)) by {
                assert(fields[0] == fa && fields[1] == fe && fields[2] == ft);
            }
            lemma_lookup3(fa, fe, ft, key_rows());
            lemma_lookup3(fa, fe, ft, key_cols());
            assert(jlookup(fields, key_argv()) == Some(JValV::StrArr(argv)));
            assert(jlookup(fields, key_env()) == Some(JValV::StrMap(env)));
            assert(jlookup(fields, key_tty()) == Some(JValV::Bool(b)));
            assert(jlookup(fields, key_rows()) == None::<JValV>);
            assert(jlookup(fields, key_cols()) == None::<JValV>);
            assert(sp_exec_request_of(fields) == Some((argv, env, b, 24u16, 80u16)));
            lemma_codec_round_trip(fields);
        },
        (None, Some(rn), Some(cn)) => {
            let fr = (key_rows(), JValV::Num(rn));
            let fc = (key_cols(), JValV::Num(cn));
            assert(fields =~= seq![fa, fe, fr, fc]);
            assert(canonical_fields(fields)) by {
                assert(fields[0] == fa && fields[1] == fe && fields[2] == fr && fields[3] == fc);
            }
            lemma_lookup4(fa, fe, fr, fc, key_tty());
            assert(jlookup(fields, key_argv()) == Some(JValV::StrArr(argv)));
            assert(jlookup(fields, key_env()) == Some(JValV::StrMap(env)));
            assert(jlookup(fields, key_tty()) == None::<JValV>);
            assert(jlookup(fields, key_rows()) == Some(JValV::Num(rn)));
            assert(jlookup(fields, key_cols()) == Some(JValV::Num(cn)));
            assert(sp_exec_request_of(fields) == Some((argv, env, false, rn as u16, cn as u16)));
            lemma_codec_round_trip(fields);
        },
        (None, Some(rn), None) => {
            let fr = (key_rows(), JValV::Num(rn));
            assert(fields =~= seq![fa, fe, fr]);
            assert(canonical_fields(fields)) by {
                assert(fields[0] == fa && fields[1] == fe && fields[2] == fr);
            }
            lemma_lookup3(fa, fe, fr, key_tty());
            lemma_lookup3(fa, fe, fr, key_cols());
            assert(jlookup(fields, key_argv()) == Some(JValV::StrArr(argv)));
            assert(jlookup(fields, key_env()) == Some(JValV::StrMap(env)));
            assert(jlookup(fields, key_tty()) == None::<JValV>);
            assert(jlookup(fields, key_rows()) == Some(JValV::Num(rn)));
            assert(jlookup(fields, key_cols()) == None::<JValV>);
            assert(sp_exec_request_of(fields) == Some((argv, env, false, rn as u16, 80u16)));
            lemma_codec_round_trip(fields);
        },
        (None, None, Some(cn)) => {
            let fc = (key_cols(), JValV::Num(cn));
            assert(fields =~= seq![fa, fe, fc]);
            assert(canonical_fields(fields)) by {
                assert(fields[0] == fa && fields[1] == fe && fields[2] == fc);
            }
            lemma_lookup3(fa, fe, fc, key_tty());
            lemma_lookup3(fa, fe, fc, key_rows());
            assert(jlookup(fields, key_argv()) == Some(JValV::StrArr(argv)));
            assert(jlookup(fields, key_env()) == Some(JValV::StrMap(env)));
            assert(jlookup(fields, key_tty()) == None::<JValV>);
            assert(jlookup(fields, key_rows()) == None::<JValV>);
            assert(jlookup(fields, key_cols()) == Some(JValV::Num(cn)));
            assert(sp_exec_request_of(fields) == Some((argv, env, false, 24u16, cn as u16)));
            lemma_codec_round_trip(fields);
        },
        (None, None, None) => {

            assert(fields =~= seq![fa, fe]);
            assert(canonical_fields(fields)) by {
                assert(fields[0] == fa && fields[1] == fe);
            }
            lemma_lookup2(fa, fe, key_tty());
            lemma_lookup2(fa, fe, key_rows());
            lemma_lookup2(fa, fe, key_cols());
            assert(jlookup(fields, key_argv()) == Some(JValV::StrArr(argv)));
            assert(jlookup(fields, key_env()) == Some(JValV::StrMap(env)));
            assert(jlookup(fields, key_tty()) == None::<JValV>);
            assert(jlookup(fields, key_rows()) == None::<JValV>);
            assert(jlookup(fields, key_cols()) == None::<JValV>);
            assert(sp_exec_request_of(fields) == Some((argv, env, false, 24u16, 80u16)));
            lemma_codec_round_trip(fields);
        },
    }
}

// ---------------------------------------------------------------------------
// Control messages (host to guest, PTY sessions only)
// ---------------------------------------------------------------------------

/// A host-to-guest control message sent after the exec request of a PTY
/// session: keyboard bytes for the child, or a window-size change.
pub enum ControlMessage {
    Stdin { data: Vec<u8> },
    Resize { rows: u16, cols: u16 },
}

/// The model of a control message.
pub enum ControlV {
    Stdin(Seq<u8>),
    Resize(int, int),
}

/// View of a control message.
pub open spec fn control_view(m: &ControlMessage) -> ControlV {
    match m {
        ControlMessage::Stdin { data } => ControlV::Stdin(data@),
        ControlMessage::Resize { rows, cols } => ControlV::Resize(*rows as int, *cols as int),
    }
}

/// The field list of a control frame.
pub open spec fn control_fields(m: ControlV) -> Seq<JFieldV> {
    match m {
        ControlV::Stdin(d) => seq![
            (key_type_(), JValV::Str(val_stdin())),
            (key_data(), JValV::Str(d)),
        ],
        ControlV::Resize(r, c) => seq![
            (key_type_(), JValV::Str(val_resize())),
            (key_rows(), JValV::Num(r)),
            (key_cols(), JValV::Num(c)),
        ],
    }
}

/// What a control frame means: a `stdin` frame needs `data`, a `resize`
/// frame needs `rows` and `cols` in range; anything else is rejected.
pub open spec fn sp_control_of(fields: Seq<JFieldV>) -> Option<ControlV> {
    match jlookup(fields, key_type_()) {
        Some(JValV::Str(t)) => if t == val_stdin() {
            match jlookup(fields, key_data()) {
                Some(JValV::Str(d)) => Some(ControlV::Stdin(d)),
                _ => None,
            }
        } else if t == val_resize() {
            match (jlookup(fields, key_rows()), jlookup(fields, key_cols())) {
                (Some(JValV::Num(r)), Some(JValV::Num(c))) => if 0 <= r <= u16::MAX && 0 <= c
                    <= u16::MAX {
                    Some(ControlV::Resize(r, c))
                } else {
                    None
                },
                _ => None,
            }
        } else {
            None
        },
        _ => None,
    }
}

/// Parse of one control line.
pub open spec fn sp_control_line(s: Seq<u8>) -> Option<ControlV> {
    match sp_doc(s) {
        None => None,
        Some(fields) => sp_control_of(fields),
    }
}

/// Encode a control message as one frame line.
pub fn encode_control(m: &ControlMessage) -> (out: Vec<u8>)
    ensures
        out@ == enc_line(control_fields(control_view(m))),
{
    let mut fields: Vec<(Vec<u8>, JVal)> = Vec::new();
    match m {
        ControlMessage::Stdin { data } => {
            fields.push((k_type_(), JVal::Str(v_stdin())));
            fields.push((k_data(), JVal::Str(vstd::slice::slice_to_vec(data.as_slice()))));
            proof {
                assert(fields_of(fields@) =~= control_fields(control_view(m)));
            }
        },
        ControlMessage::Resize { rows, cols } => {
            fields.push((k_type_(), JVal::Str(v_resize())));
            fields.push((k_rows(), JVal::Num(*rows as i64)));
            fields.push((k_cols(), JVal::Num(*cols as i64)));
            proof {
                assert(fields_of(fields@) =~= control_fields(control_view(m)));
            }
        },
    }
    encode_line(&fields)
}

/// Parse one control line.
pub fn parse_control(line: &[u8]) -> (r: Option<ControlMessage>)
    ensures
        match r {
            None => sp_control_line(line@) == None::<ControlV>,
            Some(m) => sp_control_line(line@) == Some(control_view(&m)),
        },
{
    let fields = match parse_line(line) {
        None => {
            return None;
        },
        Some(f) => f,
    };
    let tkey = k_type_();
    let stdin_name = v_stdin();
    let resize_name = v_resize();
    match jget(&fields, tkey.as_slice()) {
        Some(JVal::Str(t)) => {
            if bytes_eq(t.as_slice(), stdin_name.as_slice()) {
                let dkey = k_data();
                match jget(&fields, dkey.as_slice()) {
                    Some(JVal::Str(d)) => Some(
                        ControlMessage::Stdin { data: vstd::slice::slice_to_vec(d.as_slice()) },
                    ),
                    _ => None,
                }
            } else if bytes_eq(t.as_slice(), resize_name.as_slice()) {
                let rkey = k_rows();
                let ckey = k_cols();
                let r: i64 = match jget(&fields, rkey.as_slice()) {
                    Some(JVal::Num(n)) => *n,
                    _ => {
                        return None;
                    },
                };
                let c: i64 = match jget(&fields, ckey.as_slice()) {
                    Some(JVal::Num(n)) => *n,
                    _ => {
                        return None;
                    },
                };
                if r < 0 || r > 65535 || c < 0 || c > 65535 {
                    return None;
                }
                Some(ControlMessage::Resize { rows: r as u16, cols: c as u16 })
            } else {
                None
            }
        },
        _ => None,
    }
}

/// Round trip: an encoded control message parses back to itself.
#[verifier::rlimit(50)]
pub proof fn lemma_control_round_trip(m: ControlV)
    requires
        match m {
            ControlV::Resize(r, c) => 0 <= r <= u16::MAX && 0 <= c <= u16::MAX,
            ControlV::Stdin(_) => true,
        },
    ensures
        sp_control_line(enc_line(control_fields(m))) == Some(m),
{
    let fields = control_fields(m);
    assert(val_stdin() != val_resize());
    match m {
        ControlV::Stdin(d) => {
            let fa = (key_type_(), JValV::Str(val_stdin()));
            let fb = (key_data(), JValV::Str(d));
            assert(fields =~= seq![fa, fb]);
            assert(canonical_fields(fields)) by {
                assert(fields[0] == fa && fields[1] == fb);
            }
            lemma_lookup2(fa, fb, key_type_());
            lemma_codec_round_trip(fields);
        },
        ControlV::Resize(r, c) => {
            let fa = (key_type_(), JValV::Str(val_resize()));
            let fb = (key_rows(), JValV::Num(r));
            let fc = (key_cols(), JValV::Num(c));
            assert(fields =~= seq![fa, fb, fc]);
            assert(canonical_fields(fields)) by {
                assert(fields[0] == fa && fields[1] == fb && fields[2] == fc);
            }
            lemma_lookup3(fa, fb, fc, key_type_());
            lemma_codec_round_trip(fields);
        },
    }
}

// ---------------------------------------------------------------------------
// Mount handshake frames
// ---------------------------------------------------------------------------

/// A host-to-guest mount request: mount the share tagged `tag` at
/// `guest_path`; a non-persistent share is overlaid with tmpfs inside the
/// guest.
pub struct MountRequest {
    pub tag: Vec<u8>,
    pub guest_path: Vec<u8>,
    pub persistent: bool,
}

/// The field list of a mount request frame.
pub open spec fn mount_request_fields(tag: Seq<u8>, guest_path: Seq<u8>, persistent: bool) -> Seq<
    JFieldV,
> {
    seq![
        (key_tag(), JValV::Str(tag)),
        (key_guest_path(), JValV::Str(guest_path)),
        (key_persistent(), JValV::Bool(persistent)),
    ]
}

/// What a mount request frame means: all three fields are required.
pub open spec fn sp_mount_request_of(fields: Seq<JFieldV>) -> Option<(Seq<u8>, Seq<u8>, bool)> {
    match (jlookup(fields, key_tag()), jlookup(fields, key_guest_path()), jlookup(
        fields,
        key_persistent(),
    )) {
        (Some(JValV::Str(t)), Some(JValV::Str(g)), Some(JValV::Bool(p))) => Some((t, g, p)),
        _ => None,
    }
}

/// Parse of one mount request line.
pub open spec fn sp_mount_request_line(s: Seq<u8>) -> Option<(Seq<u8>, Seq<u8>, bool)> {
    match sp_doc(s) {
        None => None,
        Some(fields) => sp_mount_request_of(fields),
    }
}

/// A frame is addressed to the mount handler exactly when it carries a
/// `tag` field.
pub open spec fn sp_has_tag(fields: Seq<JFieldV>) -> bool {
    jlookup(fields, key_tag()) != None::<JValV>
}

/// Encode a mount request as one frame line.
pub fn encode_mount_request(r: &MountRequest) -> (out: Vec<u8>)
    ensures
        out@ == enc_line(mount_request_fields(r.tag@, r.guest_path@, r.persistent)),
{
    let mut fields: Vec<(Vec<u8>, JVal)> = Vec::new();
    fields.push((k_tag(), JVal::Str(vstd::slice::slice_to_vec(r.tag.as_slice()))));
    fields.push(
        (k_guest_path(), JVal::Str(vstd::slice::slice_to_vec(r.guest_path.as_slice()))),
    );
    fields.push((k_persistent(), JVal::Bool(r.persistent)));
    proof {
        assert(fields_of(fields@) =~= mount_request_fields(r.tag@, r.guest_path@, r.persistent));
    }
    encode_line(&fields)
}

/// Parse one mount request line.
pub fn parse_mount_request(line: &[u8]) -> (r: Option<MountRequest>)
    ensures
        match r {
            None => sp_mount_request_line(line@) == None::<(Seq<u8>, Seq<u8>, bool)>,
            Some(m) => sp_mount_request_line(line@) == Some((m.tag@, m.guest_path@, m.persistent)),
        },
{
    let fields = match parse_line(line) {
        None => {
            return None;
        },
        Some(f) => f,
    };
    let tkey = k_tag();
    let gkey = k_guest_path();
    let pkey = k_persistent();
    let t: Vec<u8> = match jget(&fields, tkey.as_slice()) {
        Some(JVal::Str(x)) => vstd::slice::slice_to_vec(x.as_slice()),
        _ => {
            return None;
        },
    };
    let g: Vec<u8> = match jget(&fields, gkey.as_slice()) {
        Some(JVal::Str(x)) => vstd::slice::slice_to_vec(x.as_slice()),
        _ => {
            return None;
        },
    };
    let p: bool = match jget(&fields, pkey.as_slice()) {
        Some(JVal::Bool(b)) => *b,
        _ => {
            return None;
        },
    };
    Some(MountRequest { tag: t, guest_path: g, persistent: p })
}

/// Round trip: an encoded mount request parses back to itself, and is
/// recognised as a mount frame by its `tag` field.
#[verifier::rlimit(50)]
pub proof fn lemma_mount_request_round_trip(tag: Seq<u8>, guest_path: Seq<u8>, persistent: bool)
    ensures
        sp_mount_request_line(enc_line(mount_request_fields(tag, guest_path, persistent))) == Some(
            (tag, guest_path, persistent),
        ),
        sp_doc(enc_line(mount_request_fields(tag, guest_path, persistent))) matches Some(fields)
            && sp_has_tag(fields),
{
    let fields = mount_request_fields(tag, guest_path, persistent);
    let fa = (key_tag(), JValV::Str(tag));
    let fb = (key_guest_path(), JValV::Str(guest_path));
    let fc = (key_persistent(), JValV::Bool(persistent));
    assert(fields =~= seq![fa, fb, fc]);
    assert(canonical_fields(fields)) by {
        assert(fields[0] == fa && fields[1] == fb && fields[2] == fc);
    }
    lemma_lookup3(fa, fb, fc, key_tag());
    lemma_codec_round_trip(fields);
}

/// A guest-to-host mount response: success, or a failure message.
pub struct MountResponse {
    pub ok: bool,
    pub error: Option<Vec<u8>>,
}

/// The field list of a mount response frame.
pub open spec fn mount_response_fields(ok: bool, error: Option<Seq<u8>>) -> Seq<JFieldV> {
    seq![(key_ok(), JValV::Bool(ok))] + (match error {
        Some(e) => seq![(key_error(), JValV::Str(e))],
        None => Seq::empty(),
    })
}

/// What a mount response frame means: `ok` is required, `error` optional.
pub open spec fn sp_mount_response_of(fields: Seq<JFieldV>) -> Option<(bool, Option<Seq<u8>>)> {
    match jlookup(fields, key_ok()) {
        Some(JValV::Bool(ok)) => match opt_str_field(fields, key_error()) {
            Some(e) => Some((ok, e)),
            None => None,
        },
        _ => None,
    }
}

/// Parse of one mount response line.
pub open spec fn sp_mount_response_line(s: Seq<u8>) -> Option<(bool, Option<Seq<u8>>)> {
    match sp_doc(s) {
        None => None,
        Some(fields) => sp_mount_response_of(fields),
    }
}

/// Encode a mount response as one frame line.
pub fn encode_mount_response(r: &MountResponse) -> (out: Vec<u8>)
    ensures
        out@ == enc_line(mount_response_fields(r.ok, opt_bytes(r.error))),
{
    let mut fields: Vec<(Vec<u8>, JVal)> = Vec::new();
    fields.push((k_ok(), JVal::Bool(r.ok)));
    match &r.error {
        Some(e) => {
            fields.push((k_error(), JVal::Str(vstd::slice::slice_to_vec(e.as_slice()))));
            proof {
                assert(fields_of(fields@) =~= mount_response_fields(r.ok, opt_bytes(r.error)));
            }
        },
        None => {
            proof {
                assert(fields_of(fields@) =~= mount_response_fields(r.ok, opt_bytes(r.error)));
            }
        },
    }
    encode_line(&fields)
}

/// Parse one mount response line.
pub fn parse_mount_response(line: &[u8]) -> (r: Option<MountResponse>)
    ensures
        match r {
            None => sp_mount_response_line(line@) == None::<(bool, Option<Seq<u8>>)>,
            Some(m) => sp_mount_response_line(line@) == Some((m.ok, opt_bytes(m.error))),
        },
{
    let fields = match parse_line(line) {
        None => {
            return None;
        },
        Some(f) => f,
    };
    let okey = k_ok();
    let ekey = k_error();
    let ok: bool = match jget(&fields, okey.as_slice()) {
        Some(JVal::Bool(b)) => *b,
        _ => {
            return None;
        },
    };
    let e: Option<Vec<u8>> = match jget(&fields, ekey.as_slice()) {
        None => None,
        Some(JVal::Str(x)) => Some(vstd::slice::slice_to_vec(x.as_slice())),
        Some(_) => {
            return None;
        },
    };
    Some(MountResponse { ok, error: e })
}

/// Round trip: an encoded mount response parses back to itself.
#[verifier::rlimit(100)]
pub proof fn lemma_mount_response_round_trip(ok: bool, error: Option<Seq<u8>>)
    ensures
        sp_mount_response_line(enc_line(mount_response_fields(ok, error))) == Some((ok, error)),
{
    let fields = mount_response_fields(ok, error);
    let fa = (key_ok(), JValV::Bool(ok));
    assert(key_ok() != key_error());
    match error {
        Some(e) => {
            let fb = (key_error(), JValV::Str(e));
            assert(fields =~= seq![fa, fb]);
            assert(canonical_fields(fields)) by {
                assert(fields[0] == fa && fields[1] == fb);
            }
            lemma_lookup2(fa, fb, key_ok());
            assert(jlookup(fields, key_ok()) == Some(JValV::Bool(ok)));
            assert(jlookup(fields, key_error()) == Some(JValV::Str(e)));
            assert(sp_mount_response_of(fields) == Some((ok, error)));
            lemma_codec_round_trip(fields);
        },
        None => {
            assert(fields =~= seq![fa]);
            assert(canonical_fields(fields)) by {
                assert(fields[0] == fa);
            }
            lemma_lookup1(fa, key_error());
            assert(jlookup(fields, key_ok()) == Some(JValV::Bool(ok)));
            assert(jlookup(fields, key_error()) == None::<JValV>);
            assert(sp_mount_response_of(fields) == Some((ok, error)));
            lemma_codec_round_trip(fields);
        },
    }
}

// ---------------------------------------------------------------------------
// Port-forward handshake frames
// ---------------------------------------------------------------------------

/// A host:guest port pair for port forwarding.
#[derive(Clone, Copy, PartialEq, Eq, Structural, Debug)]
pub struct PortMapping {
    pub host_port: u16,
    pub guest_port: u16,
}

/// The host-to-guest request opening one forwarded connection.
pub struct ForwardRequest {
    pub port: u16,
}

/// The field list of a forward request frame.
pub open spec fn forward_request_fields(port: int) -> Seq<JFieldV> {
    seq![(key_port(), JValV::Num(port))]
}

/// What a forward request frame means: `port` is required and must fit a
/// `u16`.
pub open spec fn sp_forward_request_of(fields: Seq<JFieldV>) -> Option<u16> {
    match jlookup(fields, key_port()) {
        Some(JValV::Num(n)) => if 0 <= n <= u16::MAX {
            Some(n as u16)
        } else {
            None
        },
        _ => None,
    }
}

/// Parse of one forward request line.
pub open spec fn sp_forward_request_line(s: Seq<u8>) -> Option<u16> {
    match sp_doc(s) {
        None => None,
        Some(fields) => sp_forward_request_of(fields),
    }
}

/// Encode a forward request as one frame line.
pub fn encode_forward_request(r: &ForwardRequest) -> (out: Vec<u8>)
    ensures
        out@ == enc_line(forward_request_fields(r.port as int)),
{
    let mut fields: Vec<(Vec<u8>, JVal)> = Vec::new();
    fields.push((k_port(), JVal::Num(r.port as i64)));
    proof {
        assert(fields_of(fields@) =~= forward_request_fields(r.port as int));
    }
    encode_line(&fields)
}

/// Parse one forward request line.
pub fn parse_forward_request(line: &[u8]) -> (r: Option<ForwardRequest>)
    ensures
        match r {
            None => sp_forward_request_line(line@) == None::<u16>,
            Some(m) => sp_forward_request_line(line@) == Some(m.port),
        },
{
    let fields = match parse_line(line) {
        None => {
            return None;
        },
        Some(f) => f,
    };
    let pkey = k_port();
    match jget(&fields, pkey.as_slice()) {
        Some(JVal::Num(n)) => {
            let n = *n;
            if n < 0 || n > 65535 {
                return None;
            }
            Some(ForwardRequest { port: n as u16 })
        },
        _ => None,
    }
}

/// Round trip: an encoded forward request parses back to itself.
pub proof fn lemma_forward_request_round_trip(port: int)
    requires
        0 <= port <= u16::MAX,
    ensures
        sp_forward_request_line(enc_line(forward_request_fields(port))) == Some(port as u16),
{
    let fields = forward_request_fields(port);
    let fa = (key_port(), JValV::Num(port));
    assert(fields =~= seq![fa]);
    assert(canonical_fields(fields)) by {
        assert(fields[0] == fa);
    }
    lemma_lookup1(fa, key_port());
    lemma_codec_round_trip(fields);
}

/// The guest-to-host reply to a forward request: `ok`, or an error with a
/// message.
pub struct ForwardResponse {
    pub status: Vec<u8>,
    pub message: Option<Vec<u8>>,
}

/// The field list of a forward response frame.
pub open spec fn forward_response_fields(status: Seq<u8>, message: Option<Seq<u8>>) -> Seq<
    JFieldV,
> {
    seq![(key_status(), JValV::Str(status))] + (match message {
        Some(m) => seq![(key_message(), JValV::Str(m))],
        None => Seq::empty(),
    })
}

/// What a forward response frame means: `status` is required, `message`
/// optional.
pub open spec fn sp_forward_response_of(fields: Seq<JFieldV>) -> Option<
    (Seq<u8>, Option<Seq<u8>>),
> {
    match jlookup(fields, key_status()) {
        Some(JValV::Str(st)) => match opt_str_field(fields, key_message()) {
            Some(m) => Some((st, m)),
            None => None,
        },
        _ => None,
    }
}

/// Parse of one forward response line.
pub open spec fn sp_forward_response_line(s: Seq<u8>) -> Option<(Seq<u8>, Option<Seq<u8>>)> {
    match sp_doc(s) {
        None => None,
        Some(fields) => sp_forward_response_of(fields),
    }
}

/// Encode a forward response as one frame line.
pub fn encode_forward_response(r: &ForwardResponse) -> (out: Vec<u8>)
    ensures
        out@ == enc_line(forward_response_fields(r.status@, opt_bytes(r.message))),
{
    let mut fields: Vec<(Vec<u8>, JVal)> = Vec::new();
    fields.push((k_status(), JVal::Str(vstd::slice::slice_to_vec(r.status.as_slice()))));
    match &r.message {
        Some(m) => {
            fields.push((k_message(), JVal::Str(vstd::slice::slice_to_vec(m.as_slice()))));
            proof {
                assert(fields_of(fields@) =~= forward_response_fields(
                    r.status@,
                    opt_bytes(r.message),
                ));
            }
        },
        None => {
            proof {
                assert(fields_of(fields@) =~= forward_response_fields(
                    r.status@,
                    opt_bytes(r.message),
                ));
            }
        },
    }
    encode_line(&fields)
}

/// Parse one forward response line.
pub fn parse_forward_response(line: &[u8]) -> (r: Option<ForwardResponse>)
    ensures
        match r {
            None => sp_forward_response_line(line@) == None::<(Seq<u8>, Option<Seq<u8>>)>,
            Some(m) => sp_forward_response_line(line@) == Some((m.status@, opt_bytes(m.message))),
        },
{
    let fields = match parse_line(line) {
        None => {
            return None;
        },
        Some(f) => f,
    };
    let skey = k_status();
    let mkey = k_message();
    let st: Vec<u8> = match jget(&fields, skey.as_slice()) {
        Some(JVal::Str(x)) => vstd::slice::slice_to_vec(x.as_slice()),
        _ => {
            return None;
        },
    };
    let m: Option<Vec<u8>> = match jget(&fields, mkey.as_slice()) {
        None => None,
        Some(JVal::Str(x)) => Some(vstd::slice::slice_to_vec(x.as_slice())),
        Some(_) => {
            return None;
        },
    };
    Some(ForwardResponse { status: st, message: m })
}

/// Round trip: an encoded forward response parses back to itself.
#[verifier::rlimit(100)]
pub proof fn lemma_forward_response_round_trip(status: Seq<u8>, message: Option<Seq<u8>>)
    ensures
        sp_forward_response_line(enc_line(forward_response_fields(status, message))) == Some(
            (status, message),
        ),
{
    let fields = forward_response_fields(status, message);
    let fa = (key_status(), JValV::Str(status));
    assert(key_status() != key_message());
    match message {
        Some(m) => {
            let fb = (key_message(), JValV::Str(m));
            assert(fields =~= seq![fa, fb]);
            assert(canonical_fields(fields)) by {
                assert(fields[0] == fa && fields[1] == fb);
            }
            lemma_lookup2(fa, fb, key_status());
            assert(jlookup(fields, key_status()) == Some(JValV::Str(status)));
            assert(jlookup(fields, key_message()) == Some(JValV::Str(m)));
            assert(sp_forward_response_of(fields) == Some((status, message)));
            lemma_codec_round_trip(fields);
        },
        None => {
            assert(fields =~= seq![fa]);
            assert(canonical_fields(fields)) by {
                assert(fields[0] == fa);
            }
            lemma_lookup1(fa, key_message());
            assert(jlookup(fields, key_status()) == Some(JValV::Str(status)));
            assert(jlookup(fields, key_message()) == None::<JValV>);
            assert(sp_forward_response_of(fields) == Some((status, message)));
            lemma_codec_round_trip(fields);
        },
    }
}

} // verus!
