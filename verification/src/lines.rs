//! Line framing over raw byte streams.
//!
//! Both channel kinds carry newline-terminated frames; the forward channel
//! switches to a raw byte relay right after its handshake line.  Splitting
//! a received buffer at the first newline therefore must not lose or
//! reorder a single byte: the relay phase begins with exactly the bytes
//! that follow the newline.

use vstd::prelude::*;

verus! {

/// Position of the first newline in `s`, if any.
pub open spec fn sp_find_nl(s: Seq<u8>, i: int) -> Option<int>
    decreases s.len() - i,
{
    if i < 0 || i >= s.len() {
        None
    } else if s[i] == 0x0a {
        Some(i)
    } else {
        sp_find_nl(s, i + 1)
    }
}

/// Split `s` at its first newline: the line before it and the remainder
/// after it.
pub open spec fn sp_split_line(s: Seq<u8>) -> Option<(Seq<u8>, Seq<u8>)> {
    match sp_find_nl(s, 0) {
        None => None,
        Some(i) => Some((s.take(i), s.skip(i + 1))),
    }
}

/// Find the first newline at or after `i`.
fn find_nl(s: &[u8], i: usize) -> (r: Option<usize>)
    requires
        i <= s@.len(),
    ensures
        match r {
            None => sp_find_nl(s@, i as int) == None::<int>,
            Some(p) => sp_find_nl(s@, i as int) == Some(p as int) && i <= p < s@.len(),
        },
{
    let mut cur = i;
    while cur < s.len()
        invariant
            i <= cur <= s@.len(),
            sp_find_nl(s@, i as int) == sp_find_nl(s@, cur as int),
        decreases s@.len() - cur,
    {
        if s[cur] == 0x0a {
            return Some(cur);
        }
        cur = cur + 1;
    }
    None
}

/// Split a buffer at its first newline, returning the line (without the
/// newline) and every byte after it, untouched.
pub fn split_first_line(buf: &[u8]) -> (r: Option<(Vec<u8>, Vec<u8>)>)
    ensures
        match r {
            None => sp_split_line(buf@) == None::<(Seq<u8>, Seq<u8>)>,
            Some(p) => sp_split_line(buf@) == Some((p.0@, p.1@)),
        },
{
    match find_nl(buf, 0) {
        None => None,
        Some(p) => {
            let n = buf.len();
            let line = vstd::slice::slice_to_vec(vstd::slice::slice_subrange(buf, 0, p));
            let rest = vstd::slice::slice_to_vec(vstd::slice::slice_subrange(buf, p + 1, n));
            proof {
                assert(line@ =~= buf@.take(p as int));
                assert(rest@ =~= buf@.skip(p + 1));
            }
            Some((line, rest))
        },
    }
}

/// Splitting loses nothing: the line, its newline, and the remainder
/// reassemble the original buffer, and the line itself holds no newline.
/// This is the byte discipline that keeps a handshake reader from stealing
/// relay bytes.
pub proof fn lemma_split_line_exact(s: Seq<u8>)
    requires
        sp_split_line(s) != None::<(Seq<u8>, Seq<u8>)>,
    ensures
        ({
            let (line, rest) = sp_split_line(s).unwrap();
            s =~= line + seq![0x0au8] + rest && (forall|k: int|
                0 <= k < line.len() ==> line[k] != 0x0a)
        }),
{
    let i = sp_find_nl(s, 0).unwrap();
    lemma_find_nl_props(s, 0, i);
    let line = s.take(i);
    let rest = s.skip(i + 1);
    assert(s[i] == 0x0a);
    assert forall|k: int| 0 <= k < line.len() implies line[k] != 0x0a by {
        assert(line[k] == s[k]);
    }
    assert(s =~= line + seq![0x0au8] + rest);
}

/// The newline found is the first one: everything before it is not a
/// newline, and it is one.
proof fn lemma_find_nl_props(s: Seq<u8>, i: int, p: int)
    requires
        0 <= i,
        sp_find_nl(s, i) == Some(p),
    ensures
        i <= p < s.len(),
        s[p] == 0x0a,
        forall|k: int| i <= k < p ==> s[k] != 0x0a,
    decreases s.len() - i,
{
    if i < s.len() && s[i] != 0x0a {
        lemma_find_nl_props(s, i + 1, p);
    }
}

} // verus!
