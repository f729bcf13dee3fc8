//! Line-delimited JSON codec for the wire protocol.
//!
//! Every frame on the host/guest channel is a flat JSON object: its values
//! are strings, integers, booleans, null, arrays of strings, or objects
//! whose values are all strings.  That shape covers every message family of
//! the protocol as well as the configuration file, so the codec models
//! exactly that subset.  Encoding is canonical (no interior whitespace, all
//! control bytes escaped); parsing is lenient about whitespace, field order
//! and the usual string escapes.
//!
//! Text is carried as UTF-8 bytes (`Vec<u8>`): the codec is transparent for
//! arbitrary byte content of string fields.

use vstd::prelude::*;

verus! {

/// A JSON value of the flat protocol subset, as executable data.
pub enum JVal {
    Null,
    Bool(bool),
    Num(i64),
    Str(Vec<u8>),
    StrArr(Vec<Vec<u8>>),
    StrMap(Vec<(Vec<u8>, Vec<u8>)>),
}

/// The mathematical model of a `JVal`.
pub enum JValV {
    Null,
    Bool(bool),
    Num(int),
    Str(Seq<u8>),
    StrArr(Seq<Seq<u8>>),
    StrMap(Seq<(Seq<u8>, Seq<u8>)>),
}

impl View for JVal {
    type V = JValV;

    open spec fn view(&self) -> JValV {
        match self {
            JVal::Null => JValV::Null,
            JVal::Bool(b) => JValV::Bool(*b),
            JVal::Num(n) => JValV::Num(*n as int),
            JVal::Str(s) => JValV::Str(s@),
            JVal::StrArr(items) => JValV::StrArr(items@.map_values(|v: Vec<u8>| v@)),
            JVal::StrMap(pairs) => JValV::StrMap(
                pairs@.map_values(|p: (Vec<u8>, Vec<u8>)| (p.0@, p.1@)),
            ),
        }
    }
}

/// Model of one object field: key and value.
pub type JFieldV = (Seq<u8>, JValV);

// ---------------------------------------------------------------------------
// Canonical encoding, in specification form
// ---------------------------------------------------------------------------

/// Hex digit (lower case) for a nibble.
pub open spec fn hex_digit(n: u8) -> u8 {
    if n < 10 {
        (0x30 + n) as u8
    } else {
        (0x61 + (n - 10)) as u8
    }
}

/// Canonical escape of one byte inside a JSON string: quote and backslash
/// get a two-byte escape, every control byte a uniform `\u00XX` escape, and
/// everything else passes through unchanged.
pub open spec fn esc_byte(b: u8) -> Seq<u8> {
    if b == 0x22 {
        seq![0x5c, 0x22]
    } else if b == 0x5c {
        seq![0x5c, 0x5c]
    } else if b < 0x20 {
        seq![0x5c, 0x75, 0x30, 0x30, hex_digit(b / 16), hex_digit(b % 16)]
    } else {
        seq![b]
    }
}

/// Canonical escape of a whole string body.
pub open spec fn esc(s: Seq<u8>) -> Seq<u8>
    decreases s.len(),
{
    if s.len() == 0 {
        Seq::empty()
    } else {
        esc_byte(s[0]) + esc(s.drop_first())
    }
}

/// Canonical encoding of a JSON string, quotes included.
pub open spec fn enc_str(s: Seq<u8>) -> Seq<u8> {
    seq![0x22u8] + esc(s) + seq![0x22u8]
}

/// Decimal digits of a natural number, most significant first.
pub open spec fn dec_digits(n: nat) -> Seq<u8>
    decreases n,
{
    if n < 10 {
        seq![(0x30 + n) as u8]
    } else {
        dec_digits(n / 10) + seq![(0x30 + n % 10) as u8]
    }
}

/// Canonical encoding of an integer.
pub open spec fn enc_num(i: int) -> Seq<u8> {
    if i < 0 {
        seq![0x2du8] + dec_digits((-i) as nat)
    } else {
        dec_digits(i as nat)
    }
}

/// Parts joined by a single comma.
pub open spec fn join_comma(parts: Seq<Seq<u8>>) -> Seq<u8>
    decreases parts.len(),
{
    if parts.len() == 0 {
        Seq::empty()
    } else if parts.len() == 1 {
        parts[0]
    } else {
        parts[0] + seq![0x2cu8] + join_comma(parts.drop_first())
    }
}

/// Canonical encoding of a value.
pub open spec fn enc_jval(v: JValV) -> Seq<u8> {
    match v {
        JValV::Null => seq![0x6eu8, 0x75, 0x6c, 0x6c],
        JValV::Bool(b) => if b {
            seq![0x74u8, 0x72, 0x75, 0x65]
        } else {
            seq![0x66u8, 0x61, 0x6c, 0x73, 0x65]
        },
        JValV::Num(i) => enc_num(i),
        JValV::Str(s) => enc_str(s),
        JValV::StrArr(items) => seq![0x5bu8] + join_comma(items.map_values(|s: Seq<u8>| enc_str(s)))
            + seq![0x5du8],
        JValV::StrMap(pairs) => seq![0x7bu8] + join_comma(
            pairs.map_values(|p: (Seq<u8>, Seq<u8>)| enc_str(p.0) + seq![0x3au8] + enc_str(p.1)),
        ) + seq![0x7du8],
    }
}

/// Canonical encoding of an object (one protocol frame, without the
/// terminating newline).
pub open spec fn enc_obj(fields: Seq<JFieldV>) -> Seq<u8> {
    seq![0x7bu8] + join_comma(
        fields.map_values(|f: JFieldV| enc_str(f.0) + seq![0x3au8] + enc_jval(f.1)),
    ) + seq![0x7du8]
}

/// Canonical encoding of one frame line: the object followed by `\n`.
pub open spec fn enc_line(fields: Seq<JFieldV>) -> Seq<u8> {
    enc_obj(fields) + seq![0x0au8]
}

// ---------------------------------------------------------------------------
// Parsing, in specification form
// ---------------------------------------------------------------------------
//
// Each `sp_*` function consumes from position `i` of `s` and yields the
// parsed value together with the position just past it, or `None` on a
// malformed input.  The executable parser mirrors these definitions branch
// by branch.  Positions strictly grow; where a sub-parse supplies the next
// position, an explicit monotonicity guard keeps the recursion well-founded.

/// JSON insignificant whitespace.
pub open spec fn is_ws(b: u8) -> bool {
    b == 0x20 || b == 0x09 || b == 0x0d || b == 0x0a
}

/// First position at or after `i` holding a non-whitespace byte (or the end).
pub open spec fn skip_ws(s: Seq<u8>, i: int) -> int
    decreases s.len() - i,
{
    if 0 <= i < s.len() && is_ws(s[i]) {
        skip_ws(s, i + 1)
    } else {
        i
    }
}

/// ASCII digit test.
pub open spec fn is_digit(b: u8) -> bool {
    0x30 <= b <= 0x39
}

/// Value of a hex digit, or 16 for a byte that is none.
pub open spec fn hex_val(b: u8) -> u8 {
    if 0x30 <= b <= 0x39 {
        (b - 0x30) as u8
    } else if 0x61 <= b <= 0x66 {
        (b - 0x61 + 10) as u8
    } else if 0x41 <= b <= 0x46 {
        (b - 0x41 + 10) as u8
    } else {
        16
    }
}

/// String body parse, starting just after the opening quote.  Accepts the
/// two-character escapes `\" \\ \/ \b \f \n \r \t` and `\u00XX`-style
/// escapes up to `\u007f`; everything else below an escape is passed
/// through byte for byte.
pub open spec fn sp_str_body(s: Seq<u8>, i: int) -> Option<(Seq<u8>, int)>
    decreases s.len() - i,
{
    if i < 0 || i >= s.len() {
        None
    } else if s[i] == 0x22 {
        Some((Seq::empty(), i + 1))
    } else if s[i] == 0x5c {
        if i + 1 >= s.len() {
            None
        } else if s[i + 1] == 0x75 {
            // \uXXXX
            if i + 5 >= s.len() {
                None
            } else {
                let v = hex_val(s[i + 2]) * 0x1000 + hex_val(s[i + 3]) * 0x100 + hex_val(
                    s[i + 4],
                ) * 0x10 + hex_val(s[i + 5]);
                if hex_val(s[i + 2]) >= 16 || hex_val(s[i + 3]) >= 16 || hex_val(s[i + 4]) >= 16
                    || hex_val(s[i + 5]) >= 16 || v > 0x7f {
                    None
                } else {
                    match sp_str_body(s, i + 6) {
                        None => None,
                        Some((rest, end)) => Some((seq![v as u8] + rest, end)),
                    }
                }
            }
        } else {
            let e = s[i + 1];
            let c: u8 = if e == 0x22 {
                0x22u8
            } else if e == 0x5c {
                0x5cu8
            } else if e == 0x2f {
                0x2fu8
            } else if e == 0x62 {
                0x08u8
            } else if e == 0x66 {
                0x0cu8
            } else if e == 0x6e {
                0x0au8
            } else if e == 0x72 {
                0x0du8
            } else if e == 0x74 {
                0x09u8
            } else {
                0xffu8
            };
            if c == 0xff {
                None
            } else {
                match sp_str_body(s, i + 2) {
                    None => None,
                    Some((rest, end)) => Some((seq![c] + rest, end)),
                }
            }
        }
    } else {
        match sp_str_body(s, i + 1) {
            None => None,
            Some((rest, end)) => Some((seq![s[i]] + rest, end)),
        }
    }
}

/// First position at or after `i` holding a non-digit byte (or the end).
pub open spec fn scan_digits(s: Seq<u8>, i: int) -> int
    decreases s.len() - i,
{
    if 0 <= i < s.len() && is_digit(s[i]) {
        scan_digits(s, i + 1)
    } else {
        i
    }
}

/// Value of the decimal digits `s[i..j]`.
pub open spec fn digits_val(s: Seq<u8>, i: int, j: int) -> int
    decreases j - i,
{
    if j <= i {
        0
    } else {
        digits_val(s, i, j - 1) * 10 + (s[j - 1] - 0x30)
    }
}

/// Integer parse: an optional minus sign, then at least one digit, with the
/// value required to fit an `i64`.
pub open spec fn sp_num(s: Seq<u8>, i: int) -> Option<(int, int)> {
    if i < 0 || i >= s.len() {
        None
    } else {
        let neg = s[i] == 0x2d;
        let d0 = if neg {
            i + 1
        } else {
            i
        };
        let e = scan_digits(s, d0);
        if e == d0 {
            None
        } else {
            let v = digits_val(s, d0, e);
            if neg {
                if -v < i64::MIN as int {
                    None
                } else {
                    Some((-v, e))
                }
            } else {
                if v > i64::MAX as int {
                    None
                } else {
                    Some((v, e))
                }
            }
        }
    }
}

/// Remaining elements of a string array, starting at a position that must
/// hold (after whitespace) `]` or a comma followed by another string.
pub open spec fn sp_arr_tail(s: Seq<u8>, i: int) -> Option<(Seq<Seq<u8>>, int)>
    decreases s.len() - i,
{
    let j = skip_ws(s, i);
    if i < 0 || j >= s.len() {
        None
    } else if s[j] == 0x5d {
        Some((Seq::empty(), j + 1))
    } else if s[j] == 0x2c {
        let j2 = skip_ws(s, j + 1);
        if j2 >= s.len() || s[j2] != 0x22 {
            None
        } else {
            match sp_str_body(s, j2 + 1) {
                None => None,
                Some((item, k)) => if k <= i || k > s.len() {
                    None
                } else {
                    match sp_arr_tail(s, k) {
                        None => None,
                        Some((rest, end)) => Some((seq![item] + rest, end)),
                    }
                },
            }
        }
    } else {
        None
    }
}

/// String array parse, starting at the `[`.
pub open spec fn sp_arr(s: Seq<u8>, i: int) -> Option<(Seq<Seq<u8>>, int)> {
    if i < 0 || i >= s.len() || s[i] != 0x5b {
        None
    } else {
        let j = skip_ws(s, i + 1);
        if j >= s.len() {
            None
        } else if s[j] == 0x5d {
            Some((Seq::empty(), j + 1))
        } else if s[j] == 0x22 {
            match sp_str_body(s, j + 1) {
                None => None,
                Some((item, k)) => match sp_arr_tail(s, k) {
                    None => None,
                    Some((rest, end)) => Some((seq![item] + rest, end)),
                },
            }
        } else {
            None
        }
    }
}

/// One `"key":"value"` pair of a string map, starting at the opening quote
/// of the key.
pub open spec fn sp_strpair(s: Seq<u8>, i: int) -> Option<((Seq<u8>, Seq<u8>), int)> {
    if i < 0 || i >= s.len() || s[i] != 0x22 {
        None
    } else {
        match sp_str_body(s, i + 1) {
            None => None,
            Some((key, k)) => {
                let k2 = skip_ws(s, k);
                if k2 >= s.len() || s[k2] != 0x3a {
                    None
                } else {
                    let k3 = skip_ws(s, k2 + 1);
                    if k3 >= s.len() || s[k3] != 0x22 {
                        None
                    } else {
                        match sp_str_body(s, k3 + 1) {
                            None => None,
                            Some((val, end)) => Some(((key, val), end)),
                        }
                    }
                }
            },
        }
    }
}

/// Remaining pairs of a string map.
pub open spec fn sp_map_tail(s: Seq<u8>, i: int) -> Option<(Seq<(Seq<u8>, Seq<u8>)>, int)>
    decreases s.len() - i,
{
    let j = skip_ws(s, i);
    if i < 0 || j >= s.len() {
        None
    } else if s[j] == 0x7d {
        Some((Seq::empty(), j + 1))
    } else if s[j] == 0x2c {
        let j2 = skip_ws(s, j + 1);
        match sp_strpair(s, j2) {
            None => None,
            Some((pair, k)) => if k <= i || k > s.len() {
                None
            } else {
                match sp_map_tail(s, k) {
                    None => None,
                    Some((rest, end)) => Some((seq![pair] + rest, end)),
                }
            },
        }
    } else {
        None
    }
}

/// String map parse, starting at the `{`.
pub open spec fn sp_strmap(s: Seq<u8>, i: int) -> Option<(Seq<(Seq<u8>, Seq<u8>)>, int)> {
    if i < 0 || i >= s.len() || s[i] != 0x7b {
        None
    } else {
        let j = skip_ws(s, i + 1);
        if j >= s.len() {
            None
        } else if s[j] == 0x7d {
            Some((Seq::empty(), j + 1))
        } else {
            match sp_strpair(s, j) {
                None => None,
                Some((pair, k)) => match sp_map_tail(s, k) {
                    None => None,
                    Some((rest, end)) => Some((seq![pair] + rest, end)),
                },
            }
        }
    }
}

/// Exact match of a keyword at position `i`.
pub open spec fn match_at(s: Seq<u8>, i: int, w: Seq<u8>) -> bool {
    0 <= i && i + w.len() <= s.len() && s.subrange(i, i + w.len() as int) == w
}

/// Value parse, starting at the first byte of the value.
pub open spec fn sp_jval(s: Seq<u8>, i: int) -> Option<(JValV, int)> {
    if i < 0 || i >= s.len() {
        None
    } else if s[i] == 0x22 {
        match sp_str_body(s, i + 1) {
            None => None,
            Some((body, end)) => Some((JValV::Str(body), end)),
        }
    } else if s[i] == 0x5b {
        match sp_arr(s, i) {
            None => None,
            Some((items, end)) => Some((JValV::StrArr(items), end)),
        }
    } else if s[i] == 0x7b {
        match sp_strmap(s, i) {
            None => None,
            Some((pairs, end)) => Some((JValV::StrMap(pairs), end)),
        }
    } else if s[i] == 0x74 {
        if match_at(s, i, seq![0x74u8, 0x72, 0x75, 0x65]) {
            Some((JValV::Bool(true), i + 4))
        } else {
            None
        }
    } else if s[i] == 0x66 {
        if match_at(s, i, seq![0x66u8, 0x61, 0x6c, 0x73, 0x65]) {
            Some((JValV::Bool(false), i + 5))
        } else {
            None
        }
    } else if s[i] == 0x6e {
        if match_at(s, i, seq![0x6eu8, 0x75, 0x6c, 0x6c]) {
            Some((JValV::Null, i + 4))
        } else {
            None
        }
    } else if s[i] == 0x2d || is_digit(s[i]) {
        match sp_num(s, i) {
            None => None,
            Some((v, end)) => Some((JValV::Num(v), end)),
        }
    } else {
        None
    }
}

/// One `"key": value` field of an object, starting at the opening quote of
/// the key.
pub open spec fn sp_field(s: Seq<u8>, i: int) -> Option<(JFieldV, int)> {
    if i < 0 || i >= s.len() || s[i] != 0x22 {
        None
    } else {
        match sp_str_body(s, i + 1) {
            None => None,
            Some((key, k)) => {
                let k2 = skip_ws(s, k);
                if k2 >= s.len() || s[k2] != 0x3a {
                    None
                } else {
                    let k3 = skip_ws(s, k2 + 1);
                    match sp_jval(s, k3) {
                        None => None,
                        Some((v, end)) => Some(((key, v), end)),
                    }
                }
            },
        }
    }
}

/// Remaining fields of an object.
pub open spec fn sp_obj_tail(s: Seq<u8>, i: int) -> Option<(Seq<JFieldV>, int)>
    decreases s.len() - i,
{
    let j = skip_ws(s, i);
    if i < 0 || j >= s.len() {
        None
    } else if s[j] == 0x7d {
        Some((Seq::empty(), j + 1))
    } else if s[j] == 0x2c {
        let j2 = skip_ws(s, j + 1);
        match sp_field(s, j2) {
            None => None,
            Some((f, k)) => if k <= i || k > s.len() {
                None
            } else {
                match sp_obj_tail(s, k) {
                    None => None,
                    Some((rest, end)) => Some((seq![f] + rest, end)),
                }
            },
        }
    } else {
        None
    }
}

/// Object parse, starting (after whitespace) at the `{`.
pub open spec fn sp_obj(s: Seq<u8>, i: int) -> Option<(Seq<JFieldV>, int)> {
    let j0 = skip_ws(s, i);
    if i < 0 || j0 >= s.len() || s[j0] != 0x7b {
        None
    } else {
        let j = skip_ws(s, j0 + 1);
        if j >= s.len() {
            None
        } else if s[j] == 0x7d {
            Some((Seq::empty(), j + 1))
        } else {
            match sp_field(s, j) {
                None => None,
                Some((f, k)) => match sp_obj_tail(s, k) {
                    None => None,
                    Some((rest, end)) => Some((seq![f] + rest, end)),
                },
            }
        }
    }
}

/// Whole-document parse of one frame line: a single object, with nothing
/// but whitespace (including the line terminator) around it.
pub open spec fn sp_doc(s: Seq<u8>) -> Option<Seq<JFieldV>> {
    match sp_obj(s, 0) {
        None => None,
        Some((fields, end)) => if skip_ws(s, end) == s.len() {
            Some(fields)
        } else {
            None
        },
    }
}

// ---------------------------------------------------------------------------
// Encoder
// ---------------------------------------------------------------------------

/// Model of a field list held as executable data.
pub open spec fn fields_of(fields: Seq<(Vec<u8>, JVal)>) -> Seq<JFieldV> {
    fields.map_values(|f: (Vec<u8>, JVal)| (f.0@, f.1@))
}

/// `esc` distributes over concatenation.
pub proof fn lemma_esc_concat(a: Seq<u8>, b: Seq<u8>)
    ensures
        esc(a + b) == esc(a) + esc(b),
    decreases a.len(),
{
    if a.len() == 0 {
        assert(a + b =~= b);
        assert(esc(a) + esc(b) =~= esc(b));
    } else {
        lemma_esc_concat(a.drop_first(), b);
        assert((a + b).drop_first() =~= a.drop_first() + b);
        assert(esc_byte(a[0]) + (esc(a.drop_first()) + esc(b)) =~= (esc_byte(a[0]) + esc(
            a.drop_first(),
        )) + esc(b));
    }
}

/// One more byte extends the escape of a prefix.
pub proof fn lemma_esc_take_succ(s: Seq<u8>, i: int)
    requires
        0 <= i < s.len(),
    ensures
        esc(s.take(i + 1)) == esc(s.take(i)) + esc_byte(s[i]),
{
    assert(s.take(i + 1) =~= s.take(i) + seq![s[i]]);
    lemma_esc_concat(s.take(i), seq![s[i]]);
    let single = seq![s[i]];
    assert(single.drop_first() =~= Seq::<u8>::empty());
    assert(esc(single) == esc_byte(s[i]) + esc(single.drop_first()));
    assert(esc(single.drop_first()) =~= Seq::<u8>::empty());
    assert(esc(single) =~= esc_byte(s[i]));
}

/// Appending one part extends a comma join on the right.
pub proof fn lemma_join_push(parts: Seq<Seq<u8>>, x: Seq<u8>)
    requires
        parts.len() >= 1,
    ensures
        join_comma(parts.push(x)) == join_comma(parts) + seq![0x2cu8] + x,
    decreases parts.len(),
{
    if parts.len() == 1 {
        assert(parts.push(x).drop_first() =~= seq![x]);
        assert(join_comma(seq![x]) == x);
        assert(join_comma(parts.push(x)) == parts[0] + seq![0x2cu8] + x);
    } else {
        lemma_join_push(parts.drop_first(), x);
        assert(parts.push(x).drop_first() =~= parts.drop_first().push(x));
        assert(join_comma(parts.push(x)) == parts[0] + seq![0x2cu8] + join_comma(
            parts.drop_first().push(x),
        ));
        assert(parts[0] + seq![0x2cu8] + (join_comma(parts.drop_first()) + seq![0x2cu8] + x) =~= (
        parts[0] + seq![0x2cu8] + join_comma(parts.drop_first())) + seq![0x2cu8] + x);
    }
}

/// Hex digit of a nibble, executable.
fn hexd(n: u8) -> (r: u8)
    requires
        n < 16,
    ensures
        r == hex_digit(n),
{
    if n < 10 {
        0x30 + n
    } else {
        0x61 + (n - 10)
    }
}

/// Append the canonical escape of `s` to `out`.
fn write_esc(out: &mut Vec<u8>, s: &[u8])
    ensures
        final(out)@ == old(out)@ + esc(s@),
{
    let ghost pre = out@;
    let mut i: usize = 0;
    while i < s.len()
        invariant
            0 <= i <= s@.len(),
            out@ == pre + esc(s@.take(i as int)),
        decreases s@.len() - i,
    {
        let b = s[i];
        if b == 0x22 {
            out.push(0x5c);
            out.push(0x22);
        } else if b == 0x5c {
            out.push(0x5c);
            out.push(0x5c);
        } else if b < 0x20 {
            out.push(0x5c);
            out.push(0x75);
            out.push(0x30);
            out.push(0x30);
            out.push(hexd(b / 16));
            out.push(hexd(b % 16));
        } else {
            out.push(b);
        }
        proof {
            lemma_esc_take_succ(s@, i as int);
            assert(out@ =~= pre + esc(s@.take(i + 1)));
        }
        i = i + 1;
    }
    proof {
        assert(s@.take(i as int) =~= s@);
    }
}

/// Append the canonical JSON string encoding of `s` to `out`.
fn write_jstr(out: &mut Vec<u8>, s: &[u8])
    ensures
        final(out)@ == old(out)@ + enc_str(s@),
{
    out.push(0x22);
    write_esc(out, s);
    out.push(0x22);
    proof {
        assert(out@ =~= old(out)@ + enc_str(s@));
    }
}

/// Append the decimal digits of `n` to `out`.
pub fn write_dec_u64_pub(out: &mut Vec<u8>, n: u64)
    ensures
        final(out)@ == old(out)@ + dec_digits(n as nat),
{
    write_dec_u64(out, n)
}

/// Append the decimal digits of `n` to `out`.
fn write_dec_u64(out: &mut Vec<u8>, n: u64)
    ensures
        final(out)@ == old(out)@ + dec_digits(n as nat),
    decreases n,
{
    if n < 10 {
        out.push(0x30 + n as u8);
        proof {
            assert(out@ =~= old(out)@ + dec_digits(n as nat));
        }
    } else {
        write_dec_u64(out, n / 10);
        out.push(0x30 + (n % 10) as u8);
        proof {
            assert(out@ =~= old(out)@ + dec_digits(n as nat));
        }
    }
}

/// Append the canonical encoding of `i` to `out`.
fn write_num(out: &mut Vec<u8>, i: i64)
    ensures
        final(out)@ == old(out)@ + enc_num(i as int),
{
    if i >= 0 {
        write_dec_u64(out, i as u64);
    } else {
        out.push(0x2d);
        let mag: u64 = ((-(i + 1)) as u64) + 1;
        assert(mag as nat == (-(i as int)) as nat);
        write_dec_u64(out, mag);
        proof {
            assert(out@ =~= old(out)@ + enc_num(i as int));
        }
    }
}

/// Append the canonical encoding of `v` to `out`.
fn write_jval(out: &mut Vec<u8>, v: &JVal)
    ensures
        final(out)@ == old(out)@ + enc_jval(v@),
{
    let ghost pre = out@;
    match v {
        JVal::Null => {
            out.push(0x6e);
            out.push(0x75);
            out.push(0x6c);
            out.push(0x6c);
            proof {
                assert(out@ =~= pre + enc_jval(v@));
            }
        },
        JVal::Bool(b) => {
            if *b {
                out.push(0x74);
                out.push(0x72);
                out.push(0x75);
                out.push(0x65);
            } else {
                out.push(0x66);
                out.push(0x61);
                out.push(0x6c);
                out.push(0x73);
                out.push(0x65);
            }
            proof {
                assert(out@ =~= pre + enc_jval(v@));
            }
        },
        JVal::Num(n) => {
            write_num(out, *n);
        },
        JVal::Str(s) => {
            write_jstr(out, s.as_slice());
        },
        JVal::StrArr(items) => {
            let ghost parts = items@.map_values(|s: Vec<u8>| s@).map_values(
                |s: Seq<u8>| enc_str(s),
            );
            out.push(0x5b);
            let mut i: usize = 0;
            while i < items.len()
                invariant
                    0 <= i <= items@.len(),
                    parts == items@.map_values(|s: Vec<u8>| s@).map_values(
                        |s: Seq<u8>| enc_str(s),
                    ),
                    out@ == pre + seq![0x5bu8] + join_comma(parts.take(i as int)),
                decreases items@.len() - i,
            {
                if i > 0 {
                    out.push(0x2c);
                    write_jstr(out, items[i].as_slice());
                    proof {
                        lemma_join_push(parts.take(i as int), parts[i as int]);
                        assert(parts.take(i + 1) =~= parts.take(i as int).push(parts[i as int]));
                        assert(out@ =~= pre + seq![0x5bu8] + join_comma(parts.take(i + 1)));
                    }
                } else {
                    write_jstr(out, items[i].as_slice());
                    proof {
                        assert(parts.take(1) =~= seq![parts[0]]);
                        assert(join_comma(seq![parts[0]]) == parts[0]);
                        assert(out@ =~= pre + seq![0x5bu8] + join_comma(parts.take(1)));
                    }
                }
                i = i + 1;
            }
            out.push(0x5d);
            proof {
                assert(parts.take(items@.len() as int) =~= parts);
                assert(out@ =~= pre + enc_jval(v@));
            }
        },
        JVal::StrMap(pairs) => {
            let ghost parts = pairs@.map_values(|p: (Vec<u8>, Vec<u8>)| (p.0@, p.1@)).map_values(
                |p: (Seq<u8>, Seq<u8>)| enc_str(p.0) + seq![0x3au8] + enc_str(p.1),
            );
            out.push(0x7b);
            let mut i: usize = 0;
            while i < pairs.len()
                invariant
                    0 <= i <= pairs@.len(),
                    parts == pairs@.map_values(|p: (Vec<u8>, Vec<u8>)| (p.0@, p.1@)).map_values(
                        |p: (Seq<u8>, Seq<u8>)| enc_str(p.0) + seq![0x3au8] + enc_str(p.1),
                    ),
                    out@ == pre + seq![0x7bu8] + join_comma(parts.take(i as int)),
                decreases pairs@.len() - i,
            {
                if i > 0 {
                    out.push(0x2c);
                }
                write_jstr(out, pairs[i].0.as_slice());
                out.push(0x3a);
                write_jstr(out, pairs[i].1.as_slice());
                proof {
                    if i > 0 {
                        lemma_join_push(parts.take(i as int), parts[i as int]);
                        assert(parts.take(i + 1) =~= parts.take(i as int).push(parts[i as int]));
                        assert(out@ =~= pre + seq![0x7bu8] + join_comma(parts.take(i + 1)));
                    } else {
                        assert(parts.take(1) =~= seq![parts[0]]);
                        assert(join_comma(seq![parts[0]]) == parts[0]);
                        assert(out@ =~= pre + seq![0x7bu8] + join_comma(parts.take(1)));
                    }
                }
                i = i + 1;
            }
            out.push(0x7d);
            proof {
                assert(parts.take(pairs@.len() as int) =~= parts);
                assert(out@ =~= pre + enc_jval(v@));
            }
        },
    }
}

// ---------------------------------------------------------------------------
// Executable parser
// ---------------------------------------------------------------------------

/// Continuation invariant of the string-body loop: what remains to parse at
/// `cur`, prefixed by `acc`, is what the whole parse from `i` yields.
pub open spec fn str_cont_ok(s: Seq<u8>, i: int, acc: Seq<u8>, cur: int) -> bool {
    match sp_str_body(s, cur) {
        None => sp_str_body(s, i) == None::<(Seq<u8>, int)>,
        Some((rest, end)) => sp_str_body(s, i) == Some((acc + rest, end)),
    }
}

/// Continuation invariant of the array loop.
pub open spec fn arr_cont_ok(s: Seq<u8>, i: int, acc: Seq<Seq<u8>>, cur: int) -> bool {
    match sp_arr_tail(s, cur) {
        None => sp_arr(s, i) == None::<(Seq<Seq<u8>>, int)>,
        Some((rest, end)) => sp_arr(s, i) == Some((acc + rest, end)),
    }
}

/// Continuation invariant of the string-map loop.
pub open spec fn map_cont_ok(s: Seq<u8>, i: int, acc: Seq<(Seq<u8>, Seq<u8>)>, cur: int) -> bool {
    match sp_map_tail(s, cur) {
        None => sp_strmap(s, i) == None::<(Seq<(Seq<u8>, Seq<u8>)>, int)>,
        Some((rest, end)) => sp_strmap(s, i) == Some((acc + rest, end)),
    }
}

/// Continuation invariant of the object loop.
pub open spec fn obj_cont_ok(s: Seq<u8>, i: int, acc: Seq<JFieldV>, cur: int) -> bool {
    match sp_obj_tail(s, cur) {
        None => sp_obj(s, i) == None::<(Seq<JFieldV>, int)>,
        Some((rest, end)) => sp_obj(s, i) == Some((acc + rest, end)),
    }
}

/// Whitespace test, executable.
fn ws_byte(b: u8) -> (r: bool)
    ensures
        r == is_ws(b),
{
    b == 0x20 || b == 0x09 || b == 0x0d || b == 0x0a
}

/// First non-whitespace position at or after `i`.
fn ws_end(s: &[u8], i: usize) -> (r: usize)
    requires
        i <= s@.len(),
    ensures
        r == skip_ws(s@, i as int),
        i <= r <= s@.len(),
{
    let mut cur = i;
    while cur < s.len() && ws_byte(s[cur])
        invariant
            i <= cur <= s@.len(),
            skip_ws(s@, i as int) == skip_ws(s@, cur as int),
        decreases s@.len() - cur,
    {
        cur = cur + 1;
    }
    cur
}

/// Hex digit value, executable.
fn hexv(b: u8) -> (r: u8)
    ensures
        r == hex_val(b),
{
    if 0x30 <= b && b <= 0x39 {
        b - 0x30
    } else if 0x61 <= b && b <= 0x66 {
        b - 0x61 + 10
    } else if 0x41 <= b && b <= 0x46 {
        b - 0x41 + 10
    } else {
        16
    }
}

/// String body parse, starting just after the opening quote.
fn parse_str_body(s: &[u8], i: usize) -> (r: Option<(Vec<u8>, usize)>)
    requires
        i <= s@.len(),
    ensures
        match r {
            None => sp_str_body(s@, i as int) == None::<(Seq<u8>, int)>,
            Some(p) => sp_str_body(s@, i as int) == Some((p.0@, p.1 as int)) && i < p.1 <= s@.len(),
        },
{
    let mut acc: Vec<u8> = Vec::new();
    let mut cur = i;
    loop
        invariant
            i <= cur <= s@.len(),
            str_cont_ok(s@, i as int, acc@, cur as int),
        decreases s@.len() - cur,
    {
        if cur >= s.len() {
            return None;
        }
        let b = s[cur];
        if b == 0x22 {
            proof {
                assert(acc@ + Seq::<u8>::empty() =~= acc@);
            }
            return Some((acc, cur + 1));
        }
        if b == 0x5c {
            if s.len() - cur < 2 {
                return None;
            }
            let e = s[cur + 1];
            if e == 0x75 {
                if s.len() - cur < 6 {
                    return None;
                }
                let h2 = hexv(s[cur + 2]);
                let h3 = hexv(s[cur + 3]);
                let h4 = hexv(s[cur + 4]);
                let h5 = hexv(s[cur + 5]);
                let v: u32 = (h2 as u32) * 0x1000 + (h3 as u32) * 0x100 + (h4 as u32) * 0x10
                    + (h5 as u32);
                if h2 >= 16 || h3 >= 16 || h4 >= 16 || h5 >= 16 || v > 0x7f {
                    return None;
                }
                let ghost acc0 = acc@;
                acc.push(v as u8);
                proof {
                    assert(acc@ =~= acc0 + seq![v as u8]);
                    let m = sp_str_body(s@, cur + 6);
                    if m.is_some() {
                        assert(acc0 + (seq![v as u8] + m.unwrap().0) =~= (acc0 + seq![v as u8])
                            + m.unwrap().0);
                    }
                }
                cur = cur + 6;
            } else {
                let c: u8 = if e == 0x22 {
                    0x22
                } else if e == 0x5c {
                    0x5c
                } else if e == 0x2f {
                    0x2f
                } else if e == 0x62 {
                    0x08
                } else if e == 0x66 {
                    0x0c
                } else if e == 0x6e {
                    0x0a
                } else if e == 0x72 {
                    0x0d
                } else if e == 0x74 {
                    0x09
                } else {
                    0xff
                };
                if c == 0xff {
                    return None;
                }
                let ghost acc0 = acc@;
                acc.push(c);
                proof {
                    assert(acc@ =~= acc0 + seq![c]);
                    let m = sp_str_body(s@, cur + 2);
                    if m.is_some() {
                        assert(acc0 + (seq![c] + m.unwrap().0) =~= (acc0 + seq![c])
                            + m.unwrap().0);
                    }
                }
                cur = cur + 2;
            }
        } else {
            let ghost acc0 = acc@;
            acc.push(b);
            proof {
                assert(acc@ =~= acc0 + seq![b]);
                let m = sp_str_body(s@, cur + 1);
                if m.is_some() {
                    assert(acc0 + (seq![b] + m.unwrap().0) =~= (acc0 + seq![b]) + m.unwrap().0);
                }
            }
            cur = cur + 1;
        }
    }
}

/// First non-digit position at or after `i`.
fn dig_end(s: &[u8], i: usize) -> (r: usize)
    requires
        i <= s@.len(),
    ensures
        r == scan_digits(s@, i as int),
        i <= r <= s@.len(),
{
    let mut cur = i;
    while cur < s.len() && 0x30 <= s[cur] && s[cur] <= 0x39
        invariant
            i <= cur <= s@.len(),
            scan_digits(s@, i as int) == scan_digits(s@, cur as int),
        decreases s@.len() - cur,
    {
        cur = cur + 1;
    }
    cur
}

/// A non-digit byte at `j` within a scan stops it there.
pub proof fn lemma_scan_digits_stop(s: Seq<u8>, i: int, j: int)
    requires
        0 <= i <= j <= s.len(),
        forall|k: int| i <= k < j ==> is_digit(#[trigger] s[k]),
        j == s.len() || !is_digit(s[j]),
    ensures
        scan_digits(s, i) == j,
{
    lemma_scan_digits_span(s, i, j);
}

/// The value of a run of scanned digits is nonnegative.
proof fn lemma_digits_val_nonneg(s: Seq<u8>, i: int, j: int)
    requires
        0 <= i <= j,
        j <= scan_digits(s, i),
    ensures
        digits_val(s, i, j) >= 0,
    decreases j - i,
{
    if j > i {
        lemma_digits_val_nonneg(s, i, j - 1);
        lemma_scan_digits_all(s, i, j - 1);
    }
}

/// Every position of the scanned run is a digit.
proof fn lemma_scan_digits_all(s: Seq<u8>, i: int, k: int)
    requires
        0 <= i,
        i <= k < scan_digits(s, i),
    ensures
        k < s.len() && is_digit(s[k]),
    decreases k - i,
{
    if k > i {
        lemma_scan_digits_all(s, i + 1, k);
    }
}

/// Integer parse at `i`, mirroring `sp_num`.
fn parse_num(s: &[u8], i: usize) -> (r: Option<(i64, usize)>)
    requires
        i <= s@.len(),
    ensures
        match r {
            None => sp_num(s@, i as int) == None::<(int, int)>,
            Some(p) => sp_num(s@, i as int) == Some((p.0 as int, p.1 as int)) && i < p.1
                <= s@.len(),
        },
{
    if i >= s.len() {
        return None;
    }
    let neg = s[i] == 0x2d;
    let d0 = if neg {
        i + 1
    } else {
        i
    };
    if d0 > s.len() {
        return None;
    }
    let e = dig_end(s, d0);
    if e == d0 {
        return None;
    }
    let mut acc: u64 = 0;
    let mut over = false;
    let mut cur = d0;
    while cur < e
        invariant
            d0 <= cur <= e <= s@.len(),
            e == scan_digits(s@, d0 as int),
            d0 < e,
            !over ==> acc as int == digits_val(s@, d0 as int, cur as int) && acc
                <= 0x8000_0000_0000_0000u64,
            over ==> digits_val(s@, d0 as int, cur as int) > 0x8000_0000_0000_0000,
        decreases e - cur,
    {
        proof {
            lemma_scan_digits_all(s@, d0 as int, cur as int);
            lemma_digits_val_nonneg(s@, d0 as int, cur as int);
        }
        let d = s[cur] - 0x30;
        if over {
            proof {
                let prev = digits_val(s@, d0 as int, cur as int);
                assert(digits_val(s@, d0 as int, cur + 1) == prev * 10 + (s@[cur as int] - 0x30));
                assert(prev * 10 > 0x8000_0000_0000_0000 * 1) by (nonlinear_arith)
                    requires
                        prev > 0x8000_0000_0000_0000,
                ;
            }
        } else {
            let wide: u128 = (acc as u128) * 10 + (d as u128);
            if wide > 0x8000_0000_0000_0000u128 {
                over = true;
                proof {
                    assert(digits_val(s@, d0 as int, cur + 1) == digits_val(
                        s@,
                        d0 as int,
                        cur as int,
                    ) * 10 + (s@[cur as int] - 0x30));
                }
            } else {
                acc = wide as u64;
                proof {
                    assert(digits_val(s@, d0 as int, cur + 1) == digits_val(
                        s@,
                        d0 as int,
                        cur as int,
                    ) * 10 + (s@[cur as int] - 0x30));
                }
            }
        }
        cur = cur + 1;
    }
    proof {
        lemma_digits_val_nonneg(s@, d0 as int, e as int);
    }
    if neg {
        if over {
            return None;
        }
        if acc == 0x8000_0000_0000_0000u64 {
            Some((i64::MIN, e))
        } else {
            Some((-(acc as i64), e))
        }
    } else {
        if over || acc > 0x7fff_ffff_ffff_ffffu64 {
            return None;
        }
        Some((acc as i64, e))
    }
}

/// String array parse at the `[`, mirroring `sp_arr`.
fn parse_arr(s: &[u8], i: usize) -> (r: Option<(Vec<Vec<u8>>, usize)>)
    requires
        i <= s@.len(),
    ensures
        match r {
            None => sp_arr(s@, i as int) == None::<(Seq<Seq<u8>>, int)>,
            Some(p) => sp_arr(s@, i as int) == Some(
                (p.0@.map_values(|v: Vec<u8>| v@), p.1 as int),
            ) && i < p.1 <= s@.len(),
        },
{
    if i >= s.len() || s[i] != 0x5b {
        return None;
    }
    let j = ws_end(s, i + 1);
    if j >= s.len() {
        return None;
    }
    let mut items: Vec<Vec<u8>> = Vec::new();
    let mut cur: usize;
    if s[j] == 0x5d {
        proof {
            assert(items@.map_values(|v: Vec<u8>| v@) =~= Seq::<Seq<u8>>::empty());
        }
        return Some((items, j + 1));
    }
    if s[j] != 0x22 {
        return None;
    }
    match parse_str_body(s, j + 1) {
        None => {
            return None;
        },
        Some((first, k)) => {
            proof {
                let m = sp_arr_tail(s@, k as int);
                if m.is_some() {
                    assert(seq![first@] + m.unwrap().0 =~= seq![first@] + m.unwrap().0);
                }
            }
            items.push(first);
            proof {
                assert(items@.map_values(|v: Vec<u8>| v@) =~= seq![first@]);
            }
            cur = k;
        },
    }
    loop
        invariant
            i < cur <= s@.len(),
            arr_cont_ok(s@, i as int, items@.map_values(|v: Vec<u8>| v@), cur as int),
        decreases s@.len() - cur,
    {
        let ghost items0 = items@.map_values(|v: Vec<u8>| v@);
        let j = ws_end(s, cur);
        if j >= s.len() {
            return None;
        }
        if s[j] == 0x5d {
            proof {
                assert(items0 + Seq::<Seq<u8>>::empty() =~= items0);
            }
            return Some((items, j + 1));
        }
        if s[j] != 0x2c {
            return None;
        }
        let j2 = ws_end(s, j + 1);
        if j2 >= s.len() || s[j2] != 0x22 {
            return None;
        }
        match parse_str_body(s, j2 + 1) {
            None => {
                return None;
            },
            Some((item, k)) => {
                proof {
                    let iv = item@;
                    let m = sp_arr_tail(s@, k as int);
                    if m.is_some() {
                        assert(items0 + (seq![iv] + m.unwrap().0) =~= (items0 + seq![iv])
                            + m.unwrap().0);
                    }
                }
                items.push(item);
                proof {
                    assert(items@.map_values(|v: Vec<u8>| v@) =~= items0 + seq![item@]);
                }
                cur = k;
            },
        }
    }
}

/// String map parse at the `{`, mirroring `sp_strmap`.
fn parse_strmap(s: &[u8], i: usize) -> (r: Option<(Vec<(Vec<u8>, Vec<u8>)>, usize)>)
    requires
        i <= s@.len(),
    ensures
        match r {
            None => sp_strmap(s@, i as int) == None::<(Seq<(Seq<u8>, Seq<u8>)>, int)>,
            Some(p) => sp_strmap(s@, i as int) == Some(
                (p.0@.map_values(|q: (Vec<u8>, Vec<u8>)| (q.0@, q.1@)), p.1 as int),
            ) && i < p.1 <= s@.len(),
        },
{
    if i >= s.len() || s[i] != 0x7b {
        return None;
    }
    let j = ws_end(s, i + 1);
    if j >= s.len() {
        return None;
    }
    let mut pairs: Vec<(Vec<u8>, Vec<u8>)> = Vec::new();
    let mut cur: usize;
    if s[j] == 0x7d {
        proof {
            assert(pairs@.map_values(|q: (Vec<u8>, Vec<u8>)| (q.0@, q.1@)) =~= Seq::<
                (Seq<u8>, Seq<u8>),
            >::empty());
        }
        return Some((pairs, j + 1));
    }
    match parse_strpair(s, j) {
        None => {
            return None;
        },
        Some((pair, k)) => {
            pairs.push(pair);
            proof {
                assert(pairs@.map_values(|q: (Vec<u8>, Vec<u8>)| (q.0@, q.1@)) =~= seq![
                    (pair.0@, pair.1@),
                ]);
            }
            cur = k;
        },
    }
    loop
        invariant
            i < cur <= s@.len(),
            map_cont_ok(
                s@,
                i as int,
                pairs@.map_values(|q: (Vec<u8>, Vec<u8>)| (q.0@, q.1@)),
                cur as int,
            ),
        decreases s@.len() - cur,
    {
        let ghost pairs0 = pairs@.map_values(|q: (Vec<u8>, Vec<u8>)| (q.0@, q.1@));
        let j = ws_end(s, cur);
        if j >= s.len() {
            return None;
        }
        if s[j] == 0x7d {
            proof {
                assert(pairs0 + Seq::<(Seq<u8>, Seq<u8>)>::empty() =~= pairs0);
            }
            return Some((pairs, j + 1));
        }
        if s[j] != 0x2c {
            return None;
        }
        let j2 = ws_end(s, j + 1);
        match parse_strpair(s, j2) {
            None => {
                return None;
            },
            Some((pair, k)) => {
                proof {
                    let pv = (pair.0@, pair.1@);
                    let m = sp_map_tail(s@, k as int);
                    if m.is_some() {
                        assert(pairs0 + (seq![pv] + m.unwrap().0) =~= (pairs0 + seq![pv])
                            + m.unwrap().0);
                    }
                }
                pairs.push(pair);
                proof {
                    assert(pairs@.map_values(|q: (Vec<u8>, Vec<u8>)| (q.0@, q.1@)) =~= pairs0
                        + seq![(pair.0@, pair.1@)]);
                }
                cur = k;
            },
        }
    }
}

/// One `"key":"value"` pair, mirroring `sp_strpair`.
fn parse_strpair(s: &[u8], i: usize) -> (r: Option<((Vec<u8>, Vec<u8>), usize)>)
    requires
        i <= s@.len(),
    ensures
        match r {
            None => sp_strpair(s@, i as int) == None::<((Seq<u8>, Seq<u8>), int)>,
            Some(p) => sp_strpair(s@, i as int) == Some(
                ((p.0.0@, p.0.1@), p.1 as int),
            ) && i < p.1 <= s@.len(),
        },
{
    if i >= s.len() || s[i] != 0x22 {
        return None;
    }
    match parse_str_body(s, i + 1) {
        None => None,
        Some((key, k)) => {
            let k2 = ws_end(s, k);
            if k2 >= s.len() || s[k2] != 0x3a {
                return None;
            }
            let k3 = ws_end(s, k2 + 1);
            if k3 >= s.len() || s[k3] != 0x22 {
                return None;
            }
            match parse_str_body(s, k3 + 1) {
                None => None,
                Some((val, end)) => Some(((key, val), end)),
            }
        },
    }
}

/// Value parse at `i`, mirroring `sp_jval`.
fn parse_jval(s: &[u8], i: usize) -> (r: Option<(JVal, usize)>)
    requires
        i <= s@.len(),
    ensures
        match r {
            None => sp_jval(s@, i as int) == None::<(JValV, int)>,
            Some(p) => sp_jval(s@, i as int) == Some((p.0@, p.1 as int)) && i < p.1 <= s@.len(),
        },
{
    if i >= s.len() {
        return None;
    }
    let b = s[i];
    if b == 0x22 {
        match parse_str_body(s, i + 1) {
            None => None,
            Some((body, end)) => Some((JVal::Str(body), end)),
        }
    } else if b == 0x5b {
        match parse_arr(s, i) {
            None => None,
            Some((items, end)) => Some((JVal::StrArr(items), end)),
        }
    } else if b == 0x7b {
        match parse_strmap(s, i) {
            None => None,
            Some((pairs, end)) => Some((JVal::StrMap(pairs), end)),
        }
    } else if b == 0x74 {
        let ghost w = seq![0x74u8, 0x72, 0x75, 0x65];
        if s.len() - i >= 4 && s[i + 1] == 0x72 && s[i + 2] == 0x75 && s[i + 3] == 0x65 {
            proof {
                assert(s@.subrange(i as int, i + 4) =~= w);
            }
            Some((JVal::Bool(true), i + 4))
        } else {
            proof {
                if match_at(s@, i as int, w) {
                    assert(s@.subrange(i as int, i + 4)[1] == s@[i + 1]);
                    assert(s@.subrange(i as int, i + 4)[2] == s@[i + 2]);
                    assert(s@.subrange(i as int, i + 4)[3] == s@[i + 3]);
                }
            }
            None
        }
    } else if b == 0x66 {
        let ghost w = seq![0x66u8, 0x61, 0x6c, 0x73, 0x65];
        if s.len() - i >= 5 && s[i + 1] == 0x61 && s[i + 2] == 0x6c && s[i + 3] == 0x73 && s[i + 4]
            == 0x65 {
            proof {
                assert(s@.subrange(i as int, i + 5) =~= w);
            }
            Some((JVal::Bool(false), i + 5))
        } else {
            proof {
                if match_at(s@, i as int, w) {
                    assert(s@.subrange(i as int, i + 5)[1] == s@[i + 1]);
                    assert(s@.subrange(i as int, i + 5)[2] == s@[i + 2]);
                    assert(s@.subrange(i as int, i + 5)[3] == s@[i + 3]);
                    assert(s@.subrange(i as int, i + 5)[4] == s@[i + 4]);
                }
            }
            None
        }
    } else if b == 0x6e {
        let ghost w = seq![0x6eu8, 0x75, 0x6c, 0x6c];
        if s.len() - i >= 4 && s[i + 1] == 0x75 && s[i + 2] == 0x6c && s[i + 3] == 0x6c {
            proof {
                assert(s@.subrange(i as int, i + 4) =~= w);
            }
            Some((JVal::Null, i + 4))
        } else {
            proof {
                if match_at(s@, i as int, w) {
                    assert(s@.subrange(i as int, i + 4)[1] == s@[i + 1]);
                    assert(s@.subrange(i as int, i + 4)[2] == s@[i + 2]);
                    assert(s@.subrange(i as int, i + 4)[3] == s@[i + 3]);
                }
            }
            None
        }
    } else if b == 0x2d || (0x30 <= b && b <= 0x39) {
        match parse_num(s, i) {
            None => None,
            Some((v, end)) => Some((JVal::Num(v), end)),
        }
    } else {
        None
    }
}

/// One `"key": value` field, mirroring `sp_field`.
fn parse_field(s: &[u8], i: usize) -> (r: Option<((Vec<u8>, JVal), usize)>)
    requires
        i <= s@.len(),
    ensures
        match r {
            None => sp_field(s@, i as int) == None::<(JFieldV, int)>,
            Some(p) => sp_field(s@, i as int) == Some(
                ((p.0.0@, p.0.1@), p.1 as int),
            ) && i < p.1 <= s@.len(),
        },
{
    if i >= s.len() || s[i] != 0x22 {
        return None;
    }
    match parse_str_body(s, i + 1) {
        None => None,
        Some((key, k)) => {
            let k2 = ws_end(s, k);
            if k2 >= s.len() || s[k2] != 0x3a {
                return None;
            }
            let k3 = ws_end(s, k2 + 1);
            match parse_jval(s, k3) {
                None => None,
                Some((v, end)) => Some(((key, v), end)),
            }
        },
    }
}

/// Object parse, mirroring `sp_obj`.
fn parse_obj(s: &[u8], i: usize) -> (r: Option<(Vec<(Vec<u8>, JVal)>, usize)>)
    requires
        i <= s@.len(),
    ensures
        match r {
            None => sp_obj(s@, i as int) == None::<(Seq<JFieldV>, int)>,
            Some(p) => sp_obj(s@, i as int) == Some((fields_of(p.0@), p.1 as int)) && i < p.1
                <= s@.len(),
        },
{
    let j0 = ws_end(s, i);
    if j0 >= s.len() || s[j0] != 0x7b {
        return None;
    }
    let j = ws_end(s, j0 + 1);
    if j >= s.len() {
        return None;
    }
    let mut fields: Vec<(Vec<u8>, JVal)> = Vec::new();
    let mut cur: usize;
    if s[j] == 0x7d {
        proof {
            assert(fields_of(fields@) =~= Seq::<JFieldV>::empty());
        }
        return Some((fields, j + 1));
    }
    match parse_field(s, j) {
        None => {
            return None;
        },
        Some((f, k)) => {
            fields.push(f);
            proof {
                assert(fields_of(fields@) =~= seq![(f.0@, f.1@)]);
            }
            cur = k;
        },
    }
    loop
        invariant
            i < cur <= s@.len(),
            obj_cont_ok(s@, i as int, fields_of(fields@), cur as int),
        decreases s@.len() - cur,
    {
        let ghost fields0 = fields_of(fields@);
        let j = ws_end(s, cur);
        if j >= s.len() {
            return None;
        }
        if s[j] == 0x7d {
            proof {
                assert(fields0 + Seq::<JFieldV>::empty() =~= fields0);
            }
            return Some((fields, j + 1));
        }
        if s[j] != 0x2c {
            return None;
        }
        let j2 = ws_end(s, j + 1);
        match parse_field(s, j2) {
            None => {
                return None;
            },
            Some((f, k)) => {
                if k <= cur {
                    return None;
                }
                proof {
                    let fv = (f.0@, f.1@);
                    let m = sp_obj_tail(s@, k as int);
                    if m.is_some() {
                        assert(fields0 + (seq![fv] + m.unwrap().0) =~= (fields0 + seq![fv])
                            + m.unwrap().0);
                    }
                }
                fields.push(f);
                proof {
                    assert(fields_of(fields@) =~= fields0 + seq![(f.0@, f.1@)]);
                }
                cur = k;
            },
        }
    }
}

/// Parse one frame line (the terminating newline may be present or already
/// stripped): a single JSON object and nothing else.
pub fn parse_line(s: &[u8]) -> (r: Option<Vec<(Vec<u8>, JVal)>>)
    ensures
        match r {
            None => sp_doc(s@) == None::<Seq<JFieldV>>,
            Some(fields) => sp_doc(s@) == Some(fields_of(fields@)),
        },
{
    match parse_obj(s, 0) {
        None => None,
        Some((fields, end)) => {
            let t = ws_end(s, end);
            if t == s.len() {
                Some(fields)
            } else {
                None
            }
        },
    }
}

// ---------------------------------------------------------------------------
// Inversion: parsing a canonical encoding gives the value back
// ---------------------------------------------------------------------------

/// A value the canonical encoder can produce: integers fit an `i64`.
pub open spec fn canonical_jval(v: JValV) -> bool {
    match v {
        JValV::Num(i) => i64::MIN <= i <= i64::MAX,
        _ => true,
    }
}

/// All values of a field list are canonical.
pub open spec fn canonical_fields(fs: Seq<JFieldV>) -> bool {
    forall|k: int| 0 <= k < fs.len() ==> canonical_jval(#[trigger] fs[k].1)
}

/// `hex_val` inverts `hex_digit` on nibbles.
proof fn lemma_hex_inv(n: u8)
    requires
        n < 16,
    ensures
        hex_val(hex_digit(n)) == n,
{
}

/// Parsing the escaped body of `s`, with the closing quote right after it,
/// yields `s` and stops just past the quote.
pub proof fn lemma_str_inv(t: Seq<u8>, i: int, s: Seq<u8>)
    requires
        0 <= i,
        i + esc(s).len() < t.len(),
        t.subrange(i, i + esc(s).len()) == esc(s),
        t[i + esc(s).len()] == 0x22,
    ensures
        sp_str_body(t, i) == Some((s, i + esc(s).len() + 1)),
    decreases s.len(),
{
    let whole = esc(s);
    if s.len() == 0 {
        assert(whole.len() == 0);
        assert(t[i] == 0x22);
    } else {
        let b = s[0];
        let rest = s.drop_first();
        let head = esc_byte(b);
        let tail = esc(rest);
        let w = head.len() as int;
        assert(whole == head + tail);
        assert(whole.len() == w + tail.len());
        // the sub-region for the recursive call
        assert(t.subrange(i + w, i + w + tail.len()) =~= tail) by {
            assert forall|k: int| 0 <= k < tail.len() implies t.subrange(
                i + w,
                i + w + tail.len(),
            )[k] == tail[k] by {
                assert(t.subrange(i + w, i + w + tail.len())[k] == t[i + w + k]);
                assert(t.subrange(i, i + whole.len())[w + k] == t[i + w + k]);
                assert(whole[w + k] == tail[k]);
            }
        }
        lemma_str_inv(t, i + w, rest);
        // bytes of the head escape
        assert forall|k: int| 0 <= k < w implies t[i + k] == head[k] by {
            assert(t.subrange(i, i + whole.len())[k] == t[i + k]);
            assert(whole[k] == head[k]);
        }
        assert(seq![b] + rest =~= s);
        if b == 0x22 {
            assert(t[i] == 0x5c && t[i + 1] == 0x22);
            assert(sp_str_body(t, i) == Some((seq![b] + rest, i + whole.len() + 1)));
        } else if b == 0x5c {
            assert(t[i] == 0x5c && t[i + 1] == 0x5c);
            assert(sp_str_body(t, i) == Some((seq![b] + rest, i + whole.len() + 1)));
        } else if b < 0x20 {
            assert(t[i] == 0x5c && t[i + 1] == 0x75 && t[i + 2] == 0x30 && t[i + 3] == 0x30);
            assert(t[i + 4] == hex_digit(b / 16) && t[i + 5] == hex_digit(b % 16));
            lemma_hex_inv(b / 16);
            lemma_hex_inv(b % 16);
            assert(hex_val(t[i + 2]) == 0 && hex_val(t[i + 3]) == 0);
            let v = hex_val(t[i + 2]) * 0x1000 + hex_val(t[i + 3]) * 0x100 + hex_val(t[i + 4])
                * 0x10 + hex_val(t[i + 5]);
            assert(v == (b / 16) * 0x10 + b % 16);
            assert(v == b);
            assert(sp_str_body(t, i) == Some((seq![b] + rest, i + whole.len() + 1)));
        } else {
            assert(t[i] == b);
            assert(sp_str_body(t, i) == Some((seq![b] + rest, i + whole.len() + 1)));
        }
    }
}

/// The digits of `dec_digits` are digits.
proof fn lemma_dec_digits_are_digits(n: nat)
    ensures
        dec_digits(n).len() >= 1,
        forall|k: int| 0 <= k < dec_digits(n).len() ==> is_digit(#[trigger] dec_digits(n)[k]),
    decreases n,
{
    if n >= 10 {
        lemma_dec_digits_are_digits(n / 10);
    }
}

/// A run of digit bytes followed by a non-digit (or the end) scans exactly
/// to its end.
proof fn lemma_scan_digits_span(t: Seq<u8>, i: int, j: int)
    requires
        0 <= i <= j <= t.len(),
        forall|k: int| i <= k < j ==> is_digit(#[trigger] t[k]),
        j == t.len() || !is_digit(t[j]),
    ensures
        scan_digits(t, i) == j,
    decreases j - i,
{
    if i < j {
        lemma_scan_digits_span(t, i + 1, j);
    }
}

/// The value of the region holding `dec_digits(n)` is `n`.
proof fn lemma_digits_val_of(t: Seq<u8>, i: int, n: nat)
    requires
        0 <= i,
        i + dec_digits(n).len() <= t.len(),
        t.subrange(i, i + dec_digits(n).len()) == dec_digits(n),
    ensures
        digits_val(t, i, i + dec_digits(n).len()) == n,
    decreases n,
{
    let d = dec_digits(n);
    let l = d.len() as int;
    assert forall|k: int| 0 <= k < l implies t[i + k] == d[k] by {
        assert(t.subrange(i, i + l)[k] == t[i + k]);
    }
    if n < 10 {
        assert(digits_val(t, i, i + 1) == digits_val(t, i, i) * 10 + (t[i] - 0x30));
        assert(t[i + 0] == d[0]);
        assert(t[i] == 0x30 + n);
    } else {
        let p = dec_digits(n / 10);
        let lp = p.len() as int;
        assert(d == p + seq![(0x30 + n % 10) as u8]);
        assert(l == lp + 1);
        assert(t.subrange(i, i + lp) =~= p) by {
            assert forall|k: int| 0 <= k < lp implies t.subrange(i, i + lp)[k] == p[k] by {
                assert(t.subrange(i, i + lp)[k] == t[i + k]);
                assert(d[k] == p[k]);
            }
        }
        lemma_digits_val_of(t, i, n / 10);
        assert(t[i + lp] == d[lp]);
        assert(t[i + lp] == 0x30 + n % 10);
        assert(digits_val(t, i, i + l) == digits_val(t, i, i + l - 1) * 10 + (t[i + l - 1]
            - 0x30));
        assert(digits_val(t, i, i + l) == (n / 10) * 10 + n % 10);
    }
}

/// The value of the region holding `dec_digits(n)` is `n` (public form).
pub proof fn lemma_digits_val_of_pub(t: Seq<u8>, i: int, n: nat)
    requires
        0 <= i,
        i + dec_digits(n).len() <= t.len(),
        t.subrange(i, i + dec_digits(n).len()) == dec_digits(n),
    ensures
        digits_val(t, i, i + dec_digits(n).len()) == n,
{
    lemma_digits_val_of(t, i, n);
}

/// Parsing the canonical encoding of an in-range integer yields it back.
pub proof fn lemma_num_inv(t: Seq<u8>, i: int, v: int)
    requires
        0 <= i,
        i64::MIN <= v <= i64::MAX,
        i + enc_num(v).len() <= t.len(),
        t.subrange(i, i + enc_num(v).len()) == enc_num(v),
        i + enc_num(v).len() == t.len() || !is_digit(t[i + enc_num(v).len()]),
    ensures
        sp_num(t, i) == Some((v, i + enc_num(v).len())),
{
    let r = enc_num(v);
    let l = r.len() as int;
    assert forall|k: int| 0 <= k < l implies t[i + k] == r[k] by {
        assert(t.subrange(i, i + l)[k] == t[i + k]);
    }
    if v >= 0 {
        let n = v as nat;
        lemma_dec_digits_are_digits(n);
        assert(r == dec_digits(n));
        assert forall|k: int| i <= k < i + l implies is_digit(#[trigger] t[k]) by {
            assert(t[k] == r[k - i]);
        }
        assert(is_digit(t[i]));
        assert(t[i] != 0x2d);
        lemma_scan_digits_span(t, i, i + l);
        lemma_digits_val_of(t, i, n);
    } else {
        let n = (-v) as nat;
        lemma_dec_digits_are_digits(n);
        assert(r == seq![0x2du8] + dec_digits(n));
        assert(t[i + 0] == r[0]);
        assert(t[i] == 0x2d);
        let lp = dec_digits(n).len() as int;
        assert(t.subrange(i + 1, i + 1 + lp) =~= dec_digits(n)) by {
            assert forall|k: int| 0 <= k < lp implies t.subrange(i + 1, i + 1 + lp)[k]
                == dec_digits(n)[k] by {
                assert(t.subrange(i + 1, i + 1 + lp)[k] == t[i + 1 + k]);
                assert(r[1 + k] == dec_digits(n)[k]);
            }
        }
        assert forall|k: int| i + 1 <= k < i + l implies is_digit(#[trigger] t[k]) by {
            assert(t[k] == r[k - i]);
            assert(r[k - i] == dec_digits(n)[k - i - 1]);
        }
        lemma_scan_digits_span(t, i + 1, i + l);
        lemma_digits_val_of(t, i + 1, n);
    }
}

/// A region that holds `a + b` holds `a` and then `b`.
proof fn lemma_region_split(t: Seq<u8>, i: int, a: Seq<u8>, b: Seq<u8>)
    requires
        0 <= i,
        i + a.len() + b.len() <= t.len(),
        t.subrange(i, i + a.len() + b.len()) == a + b,
    ensures
        t.subrange(i, i + a.len()) == a,
        t.subrange(i + a.len(), i + a.len() + b.len()) == b,
{
    let l = a.len() + b.len();
    assert forall|k: int| 0 <= k < l implies t[i + k] == (a + b)[k] by {
        assert(t.subrange(i, i + l)[k] == t[i + k]);
    }
    assert(t.subrange(i, i + a.len()) =~= a) by {
        assert forall|k: int| 0 <= k < a.len() implies t.subrange(i, i + a.len())[k] == a[k] by {
            assert(t.subrange(i, i + a.len())[k] == t[i + k]);
            assert(t[i + k] == (a + b)[k]);
        }
    }
    assert(t.subrange(i + a.len(), i + l) =~= b) by {
        assert forall|k: int| 0 <= k < b.len() implies t.subrange(i + a.len(), i + l)[k]
            == b[k] by {
            assert(t.subrange(i + a.len(), i + l)[k] == t[i + a.len() + k]);
            assert(t[i + (a.len() + k)] == (a + b)[a.len() + k]);
        }
    }
}

/// The byte at offset `k` of a matched region.
proof fn lemma_region_byte(t: Seq<u8>, i: int, r: Seq<u8>, k: int)
    requires
        0 <= i,
        i + r.len() <= t.len(),
        t.subrange(i, i + r.len()) == r,
        0 <= k < r.len(),
    ensures
        t[i + k] == r[k],
{
    assert(t.subrange(i, i + r.len())[k] == t[i + k]);
}

/// What follows the first part in a comma join.
pub open spec fn join_tail(parts: Seq<Seq<u8>>) -> Seq<u8>
    decreases parts.len(),
{
    if parts.len() == 0 {
        Seq::empty()
    } else {
        seq![0x2cu8] + parts[0] + join_tail(parts.drop_first())
    }
}

/// A nonempty comma join is its first part followed by the joined rest.
proof fn lemma_join_decomp(parts: Seq<Seq<u8>>)
    requires
        parts.len() >= 1,
    ensures
        join_comma(parts) == parts[0] + join_tail(parts.drop_first()),
    decreases parts.len(),
{
    if parts.len() == 1 {
        assert(parts.drop_first().len() == 0);
        assert(parts[0] + join_tail(parts.drop_first()) =~= parts[0]);
    } else {
        lemma_join_decomp(parts.drop_first());
        let rest = parts.drop_first();
        assert(join_comma(parts) == parts[0] + seq![0x2cu8] + join_comma(rest));
        assert(join_comma(rest) == rest[0] + join_tail(rest.drop_first()));
        assert(parts[0] + seq![0x2cu8] + (rest[0] + join_tail(rest.drop_first())) =~= parts[0] + (
        seq![0x2cu8] + rest[0] + join_tail(rest.drop_first())));
    }
}

/// The region an array tail parse consumes: the joined remaining elements,
/// then the closing bracket.
pub open spec fn enc_arr_tail(items: Seq<Seq<u8>>) -> Seq<u8> {
    join_tail(items.map_values(|s: Seq<u8>| enc_str(s))) + seq![0x5du8]
}

/// Parsing an array tail region yields the remaining items.
proof fn lemma_arr_tail_inv(t: Seq<u8>, i: int, items: Seq<Seq<u8>>)
    requires
        0 <= i,
        i + enc_arr_tail(items).len() <= t.len(),
        t.subrange(i, i + enc_arr_tail(items).len()) == enc_arr_tail(items),
    ensures
        sp_arr_tail(t, i) == Some((items, i + enc_arr_tail(items).len())),
    decreases items.len(),
{
    let region = enc_arr_tail(items);
    let parts = items.map_values(|s: Seq<u8>| enc_str(s));
    if items.len() == 0 {
        assert(region =~= seq![0x5du8]);
        lemma_region_byte(t, i, region, 0);
        assert(t[i] == 0x5d);
        assert(skip_ws(t, i) == i);
    } else {
        let head = items[0];
        let rest = items.drop_first();
        let rparts = rest.map_values(|s: Seq<u8>| enc_str(s));
        assert(parts.drop_first() =~= rparts);
        assert(parts[0] == enc_str(head));
        assert(join_tail(parts) == seq![0x2cu8] + enc_str(head) + join_tail(rparts));
        let a = seq![0x2cu8] + enc_str(head);
        let b = enc_arr_tail(rest);
        assert(region =~= a + b);
        lemma_region_split(t, i, a, b);
        lemma_region_byte(t, i, a, 0);
        lemma_region_byte(t, i, a, 1);
        assert(a[1] == enc_str(head)[0]);
        assert(t[i] == 0x2c && t[i + 1] == 0x22);
        assert(skip_ws(t, i) == i);
        assert(skip_ws(t, i + 1) == i + 1);
        // the escaped body of `head` sits at i + 2, closed by a quote
        let eh = esc(head);
        assert(a =~= (seq![0x2cu8, 0x22u8] + eh) + seq![0x22u8]);
        assert(a + b =~= (seq![0x2cu8, 0x22u8] + eh) + (seq![0x22u8] + b));
        lemma_region_split(t, i, seq![0x2cu8, 0x22u8] + eh, seq![0x22u8] + b);
        assert(a + b =~= (seq![0x2cu8, 0x22u8]) + (eh + (seq![0x22u8] + b)));
        lemma_region_split(t, i, seq![0x2cu8, 0x22u8], eh + (seq![0x22u8] + b));
        lemma_region_split(t, i + 2, eh, seq![0x22u8] + b);
        lemma_region_byte(t, i + 2 + eh.len(), seq![0x22u8] + b, 0);
        assert(t[i + 2 + eh.len()] == 0x22);
        lemma_str_inv(t, i + 2, head);
        let k = i + 2 + eh.len() + 1;
        assert(sp_str_body(t, i + 2) == Some((head, k)));
        assert(t.subrange(k, k + b.len()) == b) by {
            assert(t.subrange(i + 2 + eh.len(), i + 2 + eh.len() + (seq![0x22u8] + b).len())
                == seq![0x22u8] + b);
            lemma_region_split(t, i + 2 + eh.len(), seq![0x22u8], b);
        }
        lemma_arr_tail_inv(t, k, rest);
        assert(seq![head] + rest =~= items);
        assert(k + b.len() == i + region.len());
    }
}

/// Parsing a canonical string array yields the items back.
proof fn lemma_arr_inv(t: Seq<u8>, i: int, items: Seq<Seq<u8>>)
    requires
        0 <= i,
        i + enc_jval(JValV::StrArr(items)).len() <= t.len(),
        t.subrange(i, i + enc_jval(JValV::StrArr(items)).len()) == enc_jval(JValV::StrArr(items)),
    ensures
        sp_arr(t, i) == Some((items, i + enc_jval(JValV::StrArr(items)).len())),
    decreases items.len(),
{
    let region = enc_jval(JValV::StrArr(items));
    let parts = items.map_values(|s: Seq<u8>| enc_str(s));
    lemma_region_byte(t, i, region, 0);
    assert(t[i] == 0x5b);
    if items.len() == 0 {
        assert(region =~= seq![0x5bu8, 0x5du8]);
        lemma_region_byte(t, i, region, 1);
        assert(t[i + 1] == 0x5d);
        assert(skip_ws(t, i + 1) == i + 1);
    } else {
        lemma_join_decomp(parts);
        let head = items[0];
        let rest = items.drop_first();
        let rparts = rest.map_values(|s: Seq<u8>| enc_str(s));
        assert(parts.drop_first() =~= rparts);
        assert(parts[0] == enc_str(head));
        let eh = esc(head);
        let b = enc_arr_tail(rest);
        assert(region =~= (seq![0x5bu8, 0x22u8] + eh) + (seq![0x22u8] + b)) by {
            assert(join_comma(parts) == enc_str(head) + join_tail(rparts));
        }
        lemma_region_split(t, i, seq![0x5bu8, 0x22u8] + eh, seq![0x22u8] + b);
        assert((seq![0x5bu8, 0x22u8] + eh) + (seq![0x22u8] + b) =~= (seq![0x5bu8, 0x22u8]) + (eh
            + (seq![0x22u8] + b)));
        lemma_region_split(t, i, seq![0x5bu8, 0x22u8], eh + (seq![0x22u8] + b));
        lemma_region_byte(t, i, seq![0x5bu8, 0x22u8], 1);
        assert(t[i + 1] == 0x22);
        assert(skip_ws(t, i + 1) == i + 1);
        lemma_region_split(t, i + 2, eh, seq![0x22u8] + b);
        lemma_region_byte(t, i + 2 + eh.len(), seq![0x22u8] + b, 0);
        assert(t[i + 2 + eh.len()] == 0x22);
        lemma_str_inv(t, i + 2, head);
        let k = i + 2 + eh.len() + 1;
        assert(t.subrange(k, k + b.len()) == b) by {
            lemma_region_split(t, i + 2 + eh.len(), seq![0x22u8], b);
        }
        lemma_arr_tail_inv(t, k, rest);
        assert(seq![head] + rest =~= items);
        assert(k + b.len() == i + region.len());
    }
}

/// The encoded form of one `"key":"value"` pair.
pub open spec fn enc_strpair(p: (Seq<u8>, Seq<u8>)) -> Seq<u8> {
    enc_str(p.0) + seq![0x3au8] + enc_str(p.1)
}

/// Parsing a canonical pair yields it back.
proof fn lemma_pair_inv(t: Seq<u8>, i: int, p: (Seq<u8>, Seq<u8>))
    requires
        0 <= i,
        i + enc_strpair(p).len() <= t.len(),
        t.subrange(i, i + enc_strpair(p).len()) == enc_strpair(p),
    ensures
        sp_strpair(t, i) == Some((p, i + enc_strpair(p).len())),
{
    let region = enc_strpair(p);
    let ek = esc(p.0);
    let ev = esc(p.1);
    let mid = seq![0x22u8, 0x3au8, 0x22u8];
    assert(region =~= (seq![0x22u8] + ek) + (mid + ev + seq![0x22u8]));
    lemma_region_split(t, i, seq![0x22u8] + ek, mid + ev + seq![0x22u8]);
    assert((seq![0x22u8] + ek) + (mid + ev + seq![0x22u8]) =~= seq![0x22u8] + (ek + (mid + ev
        + seq![0x22u8])));
    lemma_region_split(t, i, seq![0x22u8], ek + (mid + ev + seq![0x22u8]));
    lemma_region_byte(t, i, seq![0x22u8], 0);
    assert(t[i] == 0x22);
    lemma_region_split(t, i + 1, ek, mid + ev + seq![0x22u8]);
    let km = i + 1 + ek.len();
    lemma_region_byte(t, km, mid + ev + seq![0x22u8], 0);
    lemma_region_byte(t, km, mid + ev + seq![0x22u8], 1);
    lemma_region_byte(t, km, mid + ev + seq![0x22u8], 2);
    assert(t[km] == 0x22 && t[km + 1] == 0x3a && t[km + 2] == 0x22);
    lemma_str_inv(t, i + 1, p.0);
    let k = km + 1;
    assert(sp_str_body(t, i + 1) == Some((p.0, k)));
    assert(skip_ws(t, k) == k);
    assert(skip_ws(t, k + 1) == k + 1);
    assert(t.subrange(km + 3, km + 3 + (ev + seq![0x22u8]).len()) == ev + seq![0x22u8]) by {
        assert(mid + ev + seq![0x22u8] =~= mid + (ev + seq![0x22u8]));
        lemma_region_split(t, km, mid, ev + seq![0x22u8]);
    }
    lemma_region_split(t, km + 3, ev, seq![0x22u8]);
    lemma_region_byte(t, km + 3 + ev.len(), seq![0x22u8], 0);
    lemma_str_inv(t, km + 3, p.1);
    assert(km + 3 + ev.len() + 1 == i + region.len());
}

/// The region a map tail parse consumes.
pub open spec fn enc_map_tail(pairs: Seq<(Seq<u8>, Seq<u8>)>) -> Seq<u8> {
    join_tail(pairs.map_values(|p: (Seq<u8>, Seq<u8>)| enc_str(p.0) + seq![0x3au8] + enc_str(p.1)))
        + seq![0x7du8]
}

/// Parsing a map tail region yields the remaining pairs.
proof fn lemma_map_tail_inv(t: Seq<u8>, i: int, pairs: Seq<(Seq<u8>, Seq<u8>)>)
    requires
        0 <= i,
        i + enc_map_tail(pairs).len() <= t.len(),
        t.subrange(i, i + enc_map_tail(pairs).len()) == enc_map_tail(pairs),
    ensures
        sp_map_tail(t, i) == Some((pairs, i + enc_map_tail(pairs).len())),
    decreases pairs.len(),
{
    let region = enc_map_tail(pairs);
    let parts = pairs.map_values(|p: (Seq<u8>, Seq<u8>)| enc_str(p.0) + seq![0x3au8] + enc_str(p.1));
    if pairs.len() == 0 {
        assert(region =~= seq![0x7du8]);
        lemma_region_byte(t, i, region, 0);
        assert(t[i] == 0x7d);
        assert(skip_ws(t, i) == i);
    } else {
        let head = pairs[0];
        let rest = pairs.drop_first();
        let rparts = rest.map_values(
            |p: (Seq<u8>, Seq<u8>)| enc_str(p.0) + seq![0x3au8] + enc_str(p.1),
        );
        assert(parts.drop_first() =~= rparts);
        assert(parts[0] == enc_strpair(head));
        let a = seq![0x2cu8] + enc_strpair(head);
        let b = enc_map_tail(rest);
        assert(region =~= a + b);
        lemma_region_split(t, i, a, b);
        lemma_region_byte(t, i, a, 0);
        assert(t[i] == 0x2c);
        assert(skip_ws(t, i) == i);
        assert(a + b =~= seq![0x2cu8] + (enc_strpair(head) + b));
        assert(t.subrange(i, i + 1 + (enc_strpair(head) + b).len()) == seq![0x2cu8] + (
        enc_strpair(head) + b));
        lemma_region_split(t, i, seq![0x2cu8], enc_strpair(head) + b);
        lemma_region_split(t, i + 1, enc_strpair(head), b);
        lemma_pair_inv(t, i + 1, head);
        assert(skip_ws(t, i + 1) == i + 1) by {
            lemma_region_byte(t, i + 1, enc_strpair(head), 0);
        }
        let k = i + 1 + enc_strpair(head).len();
        assert(t.subrange(k, k + b.len()) == b) by {
            lemma_region_split(t, i + 1, enc_strpair(head), b);
        }
        lemma_map_tail_inv(t, k, rest);
        assert(seq![head] + rest =~= pairs);
        assert(k + b.len() == i + region.len());
    }
}

/// Parsing a canonical string map yields the pairs back.
proof fn lemma_map_inv(t: Seq<u8>, i: int, pairs: Seq<(Seq<u8>, Seq<u8>)>)
    requires
        0 <= i,
        i + enc_jval(JValV::StrMap(pairs)).len() <= t.len(),
        t.subrange(i, i + enc_jval(JValV::StrMap(pairs)).len()) == enc_jval(JValV::StrMap(pairs)),
    ensures
        sp_strmap(t, i) == Some((pairs, i + enc_jval(JValV::StrMap(pairs)).len())),
{
    let region = enc_jval(JValV::StrMap(pairs));
    let parts = pairs.map_values(|p: (Seq<u8>, Seq<u8>)| enc_str(p.0) + seq![0x3au8] + enc_str(p.1));
    lemma_region_byte(t, i, region, 0);
    assert(t[i] == 0x7b);
    if pairs.len() == 0 {
        assert(region =~= seq![0x7bu8, 0x7du8]);
        lemma_region_byte(t, i, region, 1);
        assert(t[i + 1] == 0x7d);
        assert(skip_ws(t, i + 1) == i + 1);
    } else {
        lemma_join_decomp(parts);
        let head = pairs[0];
        let rest = pairs.drop_first();
        let rparts = rest.map_values(
            |p: (Seq<u8>, Seq<u8>)| enc_str(p.0) + seq![0x3au8] + enc_str(p.1),
        );
        assert(parts.drop_first() =~= rparts);
        assert(parts[0] == enc_strpair(head));
        let b = enc_map_tail(rest);
        assert(region =~= seq![0x7bu8] + (enc_strpair(head) + b)) by {
            assert(join_comma(parts) == enc_strpair(head) + join_tail(rparts));
        }
        lemma_region_split(t, i, seq![0x7bu8], enc_strpair(head) + b);
        lemma_region_split(t, i + 1, enc_strpair(head), b);
        lemma_pair_inv(t, i + 1, head);
        assert(skip_ws(t, i + 1) == i + 1) by {
            lemma_region_byte(t, i + 1, enc_strpair(head), 0);
        }
        lemma_region_byte(t, i + 1, enc_strpair(head), 0);
        assert(t[i + 1] == 0x22);
        let k = i + 1 + enc_strpair(head).len();
        lemma_map_tail_inv(t, k, rest);
        assert(seq![head] + rest =~= pairs);
        assert(k + b.len() == i + region.len());
    }
}

/// A canonical value encoding is nonempty and does not begin with
/// whitespace.
proof fn lemma_enc_jval_first(v: JValV)
    ensures
        enc_jval(v).len() >= 1,
        !is_ws(enc_jval(v)[0]),
{
    match v {
        JValV::Num(i) => {
            if i < 0 {
                lemma_dec_digits_are_digits((-i) as nat);
            } else {
                lemma_dec_digits_are_digits(i as nat);
                assert(is_digit(dec_digits(i as nat)[0]));
            }
        },
        _ => {},
    }
}

/// Parsing the canonical encoding of a canonical value yields it back.
proof fn lemma_jval_inv(t: Seq<u8>, i: int, v: JValV)
    requires
        0 <= i,
        canonical_jval(v),
        i + enc_jval(v).len() <= t.len(),
        t.subrange(i, i + enc_jval(v).len()) == enc_jval(v),
        i + enc_jval(v).len() == t.len() || !is_digit(t[i + enc_jval(v).len()]),
    ensures
        sp_jval(t, i) == Some((v, i + enc_jval(v).len())),
{
    let region = enc_jval(v);
    lemma_region_byte(t, i, region, 0);
    match v {
        JValV::Null => {
            assert(t.subrange(i, i + 4) =~= seq![0x6eu8, 0x75, 0x6c, 0x6c]);
            assert(match_at(t, i, seq![0x6eu8, 0x75, 0x6c, 0x6c]));
        },
        JValV::Bool(b) => {
            if b {
                assert(t.subrange(i, i + 4) =~= seq![0x74u8, 0x72, 0x75, 0x65]);
                assert(match_at(t, i, seq![0x74u8, 0x72, 0x75, 0x65]));
            } else {
                assert(t.subrange(i, i + 5) =~= seq![0x66u8, 0x61, 0x6c, 0x73, 0x65]);
                assert(match_at(t, i, seq![0x66u8, 0x61, 0x6c, 0x73, 0x65]));
            }
        },
        JValV::Num(n) => {
            if n < 0 {
                assert(t[i] == 0x2d);
            } else {
                lemma_dec_digits_are_digits(n as nat);
                assert(is_digit(region[0]));
            }
            lemma_num_inv(t, i, n);
        },
        JValV::Str(s) => {
            let es = esc(s);
            assert(region =~= (seq![0x22u8] + es) + seq![0x22u8]);
            lemma_region_split(t, i, seq![0x22u8] + es, seq![0x22u8]);
            assert((seq![0x22u8] + es) + seq![0x22u8] =~= seq![0x22u8] + (es + seq![0x22u8]));
            lemma_region_split(t, i, seq![0x22u8], es + seq![0x22u8]);
            lemma_region_split(t, i + 1, es, seq![0x22u8]);
            lemma_region_byte(t, i + 1 + es.len(), seq![0x22u8], 0);
            lemma_str_inv(t, i + 1, s);
        },
        JValV::StrArr(items) => {
            lemma_arr_inv(t, i, items);
        },
        JValV::StrMap(pairs) => {
            lemma_map_inv(t, i, pairs);
        },
    }
}

/// The encoded form of one object field.
pub open spec fn enc_field(f: JFieldV) -> Seq<u8> {
    enc_str(f.0) + seq![0x3au8] + enc_jval(f.1)
}

/// Parsing a canonical field yields it back.
proof fn lemma_field_inv(t: Seq<u8>, i: int, f: JFieldV)
    requires
        0 <= i,
        canonical_jval(f.1),
        i + enc_field(f).len() <= t.len(),
        t.subrange(i, i + enc_field(f).len()) == enc_field(f),
        i + enc_field(f).len() == t.len() || !is_digit(t[i + enc_field(f).len()]),
    ensures
        sp_field(t, i) == Some((f, i + enc_field(f).len())),
{
    let region = enc_field(f);
    let ek = esc(f.0);
    let ev = enc_jval(f.1);
    let mid = seq![0x22u8, 0x3au8];
    assert(region =~= (seq![0x22u8] + ek) + (mid + ev));
    lemma_region_split(t, i, seq![0x22u8] + ek, mid + ev);
    assert((seq![0x22u8] + ek) + (mid + ev) =~= seq![0x22u8] + (ek + (mid + ev)));
    lemma_region_split(t, i, seq![0x22u8], ek + (mid + ev));
    lemma_region_byte(t, i, seq![0x22u8], 0);
    assert(t[i] == 0x22);
    lemma_region_split(t, i + 1, ek, mid + ev);
    let km = i + 1 + ek.len();
    lemma_region_byte(t, km, mid + ev, 0);
    lemma_region_byte(t, km, mid + ev, 1);
    assert(t[km] == 0x22 && t[km + 1] == 0x3a);
    lemma_str_inv(t, i + 1, f.0);
    let k = km + 1;
    assert(sp_str_body(t, i + 1) == Some((f.0, k)));
    assert(skip_ws(t, k) == k);
    assert(t.subrange(km + 2, km + 2 + ev.len()) == ev) by {
        lemma_region_split(t, km, mid, ev);
    }
    lemma_enc_jval_first(f.1);
    assert(skip_ws(t, k + 1) == k + 1) by {
        lemma_region_byte(t, km + 2, ev, 0);
    }
    lemma_jval_inv(t, km + 2, f.1);
    assert(km + 2 + ev.len() == i + region.len());
}

/// The region an object tail parse consumes.
pub open spec fn enc_obj_tail(fields: Seq<JFieldV>) -> Seq<u8> {
    join_tail(fields.map_values(|f: JFieldV| enc_str(f.0) + seq![0x3au8] + enc_jval(f.1))) + seq![
        0x7du8,
    ]
}

/// Parsing an object tail region yields the remaining fields.
proof fn lemma_obj_tail_inv(t: Seq<u8>, i: int, fields: Seq<JFieldV>)
    requires
        0 <= i,
        canonical_fields(fields),
        i + enc_obj_tail(fields).len() <= t.len(),
        t.subrange(i, i + enc_obj_tail(fields).len()) == enc_obj_tail(fields),
    ensures
        sp_obj_tail(t, i) == Some((fields, i + enc_obj_tail(fields).len())),
    decreases fields.len(),
{
    let region = enc_obj_tail(fields);
    let parts = fields.map_values(|f: JFieldV| enc_str(f.0) + seq![0x3au8] + enc_jval(f.1));
    if fields.len() == 0 {
        assert(region =~= seq![0x7du8]);
        lemma_region_byte(t, i, region, 0);
        assert(t[i] == 0x7d);
        assert(skip_ws(t, i) == i);
    } else {
        let head = fields[0];
        let rest = fields.drop_first();
        let rparts = rest.map_values(|f: JFieldV| enc_str(f.0) + seq![0x3au8] + enc_jval(f.1));
        assert(parts.drop_first() =~= rparts);
        assert(parts[0] == enc_field(head));
        let b = enc_obj_tail(rest);
        assert(region =~= seq![0x2cu8] + (enc_field(head) + b));
        lemma_region_split(t, i, seq![0x2cu8], enc_field(head) + b);
        lemma_region_byte(t, i, seq![0x2cu8], 0);
        assert(t[i] == 0x2c);
        assert(skip_ws(t, i) == i);
        lemma_region_split(t, i + 1, enc_field(head), b);
        assert(skip_ws(t, i + 1) == i + 1) by {
            lemma_region_byte(t, i + 1, enc_field(head), 0);
        }
        let k = i + 1 + enc_field(head).len();
        // the byte after the field is a comma or the closing brace
        assert(k < t.len() && !is_digit(t[k])) by {
            if rest.len() == 0 {
                lemma_region_byte(t, k, b, 0);
                assert(b[0] == 0x7d);
            } else {
                assert(b == join_tail(rparts) + seq![0x7du8]);
                assert(join_tail(rparts)[0] == 0x2c);
                lemma_region_byte(t, k, b, 0);
            }
        }
        assert(canonical_jval(head.1));
        lemma_field_inv(t, i + 1, head);
        assert(canonical_fields(rest)) by {
            assert(forall|j: int| 0 <= j < rest.len() ==> rest[j] == fields[j + 1]);
        }
        lemma_obj_tail_inv(t, k, rest);
        assert(seq![head] + rest =~= fields);
        assert(k + b.len() == i + region.len());
    }
}

/// Parsing a canonical object encoding yields the fields back.
pub proof fn lemma_obj_inv(t: Seq<u8>, i: int, fields: Seq<JFieldV>)
    requires
        0 <= i,
        canonical_fields(fields),
        i + enc_obj(fields).len() <= t.len(),
        t.subrange(i, i + enc_obj(fields).len()) == enc_obj(fields),
        skip_ws(t, i) == i,
    ensures
        sp_obj(t, i) == Some((fields, i + enc_obj(fields).len())),
{
    let region = enc_obj(fields);
    let parts = fields.map_values(|f: JFieldV| enc_str(f.0) + seq![0x3au8] + enc_jval(f.1));
    lemma_region_byte(t, i, region, 0);
    assert(t[i] == 0x7b);
    if fields.len() == 0 {
        assert(region =~= seq![0x7bu8, 0x7du8]);
        lemma_region_byte(t, i, region, 1);
        assert(t[i + 1] == 0x7d);
        assert(skip_ws(t, i + 1) == i + 1);
    } else {
        lemma_join_decomp(parts);
        let head = fields[0];
        let rest = fields.drop_first();
        let rparts = rest.map_values(|f: JFieldV| enc_str(f.0) + seq![0x3au8] + enc_jval(f.1));
        assert(parts.drop_first() =~= rparts);
        assert(parts[0] == enc_field(head));
        let b = enc_obj_tail(rest);
        assert(region =~= seq![0x7bu8] + (enc_field(head) + b)) by {
            assert(join_comma(parts) == enc_field(head) + join_tail(rparts));
        }
        lemma_region_split(t, i, seq![0x7bu8], enc_field(head) + b);
        lemma_region_split(t, i + 1, enc_field(head), b);
        assert(skip_ws(t, i + 1) == i + 1) by {
            lemma_region_byte(t, i + 1, enc_field(head), 0);
        }
        lemma_region_byte(t, i + 1, enc_field(head), 0);
        assert(t[i + 1] == 0x22);
        let k = i + 1 + enc_field(head).len();
        assert(k < t.len() && !is_digit(t[k])) by {
            if rest.len() == 0 {
                lemma_region_byte(t, k, b, 0);
                assert(b[0] == 0x7d);
            } else {
                assert(b == join_tail(rparts) + seq![0x7du8]);
                assert(join_tail(rparts)[0] == 0x2c);
                lemma_region_byte(t, k, b, 0);
            }
        }
        assert(canonical_jval(head.1));
        lemma_field_inv(t, i + 1, head);
        assert(canonical_fields(rest)) by {
            assert(forall|j: int| 0 <= j < rest.len() ==> rest[j] == fields[j + 1]);
        }
        lemma_obj_tail_inv(t, k, rest);
        assert(seq![head] + rest =~= fields);
        assert(k + b.len() == i + region.len());
    }
}

/// Round trip: the canonical encoding of a frame parses back to exactly the
/// same field list, with or without the terminating newline.
/// The first byte of an object encoding is the opening brace.
proof fn lemma_enc_obj_first(fields: Seq<JFieldV>)
    ensures
        enc_obj(fields).len() >= 2,
        enc_obj(fields)[0] == 0x7b,
{
    let body = enc_obj(fields);
    let mid = join_comma(
        fields.map_values(|f: JFieldV| enc_str(f.0) + seq![0x3au8] + enc_jval(f.1)),
    );
    assert(body == seq![0x7bu8] + mid + seq![0x7du8]);
    assert(body[0] == (seq![0x7bu8] + mid)[0]);
}

/// Round trip, newline form: the canonical frame line parses back to
/// exactly the same field list.
pub proof fn lemma_codec_round_trip(fields: Seq<JFieldV>)
    requires
        canonical_fields(fields),
    ensures
        sp_doc(enc_line(fields)) == Some(fields),
{
    let body = enc_obj(fields);
    let l = body.len() as int;
    let t = enc_line(fields);
    lemma_enc_obj_first(fields);
    assert(t == body + seq![0x0au8]);
    assert(t.len() == l + 1);
    assert(t.subrange(0, l) =~= body) by {
        assert forall|k: int| 0 <= k < l implies t.subrange(0, l)[k] == body[k] by {
            assert(t[k] == (body + seq![0x0au8])[k]);
        }
    }
    assert(t[0] == body[0]);
    assert(!is_ws(t[0]));
    assert(skip_ws(t, 0) == 0);
    lemma_obj_inv(t, 0, fields);
    assert(t[l] == 0x0a);
    assert(is_ws(t[l]));
    assert(skip_ws(t, l + 1) == l + 1);
    assert(skip_ws(t, l) == l + 1);
    assert(sp_obj(t, 0) == Some((fields, l)));
    assert(sp_doc(t) == Some(fields));
}

/// Round trip, bare-object form: the canonical object with the newline
/// already stripped parses back to exactly the same field list.
pub proof fn lemma_codec_round_trip_stripped(fields: Seq<JFieldV>)
    requires
        canonical_fields(fields),
    ensures
        sp_doc(enc_obj(fields)) == Some(fields),
{
    let body = enc_obj(fields);
    let l = body.len() as int;
    lemma_enc_obj_first(fields);
    assert(body.subrange(0, l) =~= body);
    assert(skip_ws(body, 0) == 0);
    lemma_obj_inv(body, 0, fields);
    assert(skip_ws(body, l) == l);
}

// ---------------------------------------------------------------------------
// Framing: a canonical frame line holds exactly one newline, at its end
// ---------------------------------------------------------------------------

/// No newline byte anywhere in `s`.
pub open spec fn no_nl(s: Seq<u8>) -> bool {
    forall|k: int| 0 <= k < s.len() ==> #[trigger] s[k] != 0x0a
}

/// Newline-freedom is preserved by concatenation.
proof fn lemma_no_nl_concat(a: Seq<u8>, b: Seq<u8>)
    requires
        no_nl(a),
        no_nl(b),
    ensures
        no_nl(a + b),
{
    assert forall|k: int| 0 <= k < (a + b).len() implies #[trigger] (a + b)[k] != 0x0a by {
        if k < a.len() {
            assert((a + b)[k] == a[k]);
        } else {
            assert((a + b)[k] == b[k - a.len()]);
        }
    }
}

/// Escapes hold no newline byte.
proof fn lemma_esc_no_nl(s: Seq<u8>)
    ensures
        no_nl(esc(s)),
    decreases s.len(),
{
    if s.len() == 0 {
    } else {
        lemma_esc_no_nl(s.drop_first());
        assert(no_nl(esc_byte(s[0]))) by {
            let b = s[0];
            if b != 0x22 && b != 0x5c && b >= 0x20 {
                assert(esc_byte(b) == seq![b]);
                assert(esc_byte(b)[0] == b);
            }
        }
        lemma_no_nl_concat(esc_byte(s[0]), esc(s.drop_first()));
    }
}

/// Encoded strings hold no newline byte.
proof fn lemma_enc_str_no_nl(s: Seq<u8>)
    ensures
        no_nl(enc_str(s)),
{
    lemma_esc_no_nl(s);
    lemma_no_nl_concat(seq![0x22u8], esc(s));
    lemma_no_nl_concat(seq![0x22u8] + esc(s), seq![0x22u8]);
}

/// Encoded integers hold no newline byte.
proof fn lemma_enc_num_no_nl(i: int)
    ensures
        no_nl(enc_num(i)),
{
    if i < 0 {
        lemma_dec_digits_are_digits((-i) as nat);
        lemma_no_nl_concat(seq![0x2du8], dec_digits((-i) as nat));
    } else {
        lemma_dec_digits_are_digits(i as nat);
    }
}

/// A comma join of newline-free parts is newline-free.
proof fn lemma_join_no_nl(parts: Seq<Seq<u8>>)
    requires
        forall|k: int| 0 <= k < parts.len() ==> no_nl(#[trigger] parts[k]),
    ensures
        no_nl(join_comma(parts)),
    decreases parts.len(),
{
    if parts.len() == 0 {
    } else if parts.len() == 1 {
        assert(no_nl(parts[0]));
    } else {
        assert(forall|k: int| 0 <= k < parts.drop_first().len() ==> #[trigger] parts.drop_first()[k]
            == parts[k + 1]);
        lemma_join_no_nl(parts.drop_first());
        assert(no_nl(parts[0]));
        lemma_no_nl_concat(parts[0], seq![0x2cu8]);
        lemma_no_nl_concat(parts[0] + seq![0x2cu8], join_comma(parts.drop_first()));
        assert(parts[0] + seq![0x2cu8] + join_comma(parts.drop_first()) == (parts[0] + seq![
            0x2cu8,
        ]) + join_comma(parts.drop_first()));
    }
}

/// Encoded values hold no newline byte.
proof fn lemma_enc_jval_no_nl(v: JValV)
    ensures
        no_nl(enc_jval(v)),
{
    match v {
        JValV::Null => {
            assert forall|k: int| 0 <= k < enc_jval(v).len() implies #[trigger] enc_jval(v)[k]
                != 0x0a by {}
        },
        JValV::Bool(b) => {
            assert forall|k: int| 0 <= k < enc_jval(v).len() implies #[trigger] enc_jval(v)[k]
                != 0x0a by {}
        },
        JValV::Num(i) => {
            lemma_enc_num_no_nl(i);
        },
        JValV::Str(s) => {
            lemma_enc_str_no_nl(s);
        },
        JValV::StrArr(items) => {
            let parts = items.map_values(|s: Seq<u8>| enc_str(s));
            assert forall|k: int| 0 <= k < parts.len() implies no_nl(#[trigger] parts[k]) by {
                lemma_enc_str_no_nl(items[k]);
            }
            lemma_join_no_nl(parts);
            lemma_no_nl_concat(seq![0x5bu8], join_comma(parts));
            lemma_no_nl_concat(seq![0x5bu8] + join_comma(parts), seq![0x5du8]);
        },
        JValV::StrMap(pairs) => {
            let parts = pairs.map_values(
                |p: (Seq<u8>, Seq<u8>)| enc_str(p.0) + seq![0x3au8] + enc_str(p.1),
            );
            assert forall|k: int| 0 <= k < parts.len() implies no_nl(#[trigger] parts[k]) by {
                lemma_enc_str_no_nl(pairs[k].0);
                lemma_enc_str_no_nl(pairs[k].1);
                lemma_no_nl_concat(enc_str(pairs[k].0), seq![0x3au8]);
                lemma_no_nl_concat(enc_str(pairs[k].0) + seq![0x3au8], enc_str(pairs[k].1));
            }
            lemma_join_no_nl(parts);
            lemma_no_nl_concat(seq![0x7bu8], join_comma(parts));
            lemma_no_nl_concat(seq![0x7bu8] + join_comma(parts), seq![0x7du8]);
        },
    }
}

/// The object part of a frame line holds no newline byte.
pub proof fn lemma_enc_obj_no_nl(fields: Seq<JFieldV>)
    ensures
        no_nl(enc_obj(fields)),
{
    let parts = fields.map_values(|f: JFieldV| enc_str(f.0) + seq![0x3au8] + enc_jval(f.1));
    assert forall|k: int| 0 <= k < parts.len() implies no_nl(#[trigger] parts[k]) by {
        lemma_enc_str_no_nl(fields[k].0);
        lemma_enc_jval_no_nl(fields[k].1);
        lemma_no_nl_concat(enc_str(fields[k].0), seq![0x3au8]);
        lemma_no_nl_concat(enc_str(fields[k].0) + seq![0x3au8], enc_jval(fields[k].1));
    }
    lemma_join_no_nl(parts);
    lemma_no_nl_concat(seq![0x7bu8], join_comma(parts));
    lemma_no_nl_concat(seq![0x7bu8] + join_comma(parts), seq![0x7du8]);
}

/// Framing: every canonical frame line is terminated by exactly one
/// newline, which is its last byte.
pub proof fn lemma_enc_line_framing(fields: Seq<JFieldV>)
    ensures
        enc_line(fields).len() >= 3,
        enc_line(fields)[enc_line(fields).len() - 1] == 0x0a,
        forall|k: int| 0 <= k < enc_line(fields).len() - 1 ==> #[trigger] enc_line(fields)[k]
            != 0x0a,
{
    let body = enc_obj(fields);
    let t = enc_line(fields);
    lemma_enc_obj_first(fields);
    lemma_enc_obj_no_nl(fields);
    assert(t == body + seq![0x0au8]);
    assert(t[t.len() - 1] == 0x0a);
    assert forall|k: int| 0 <= k < t.len() - 1 implies #[trigger] t[k] != 0x0a by {
        assert(t[k] == body[k]);
    }
}

/// Encode one frame: the canonical JSON object for `fields`, terminated by
/// a single `\n`.
pub fn encode_line(fields: &Vec<(Vec<u8>, JVal)>) -> (r: Vec<u8>)
    ensures
        r@ == enc_line(fields_of(fields@)),
{
    let ghost parts = fields_of(fields@).map_values(
        |f: JFieldV| enc_str(f.0) + seq![0x3au8] + enc_jval(f.1),
    );
    let mut out: Vec<u8> = Vec::new();
    out.push(0x7b);
    let mut i: usize = 0;
    while i < fields.len()
        invariant
            0 <= i <= fields@.len(),
            parts == fields_of(fields@).map_values(
                |f: JFieldV| enc_str(f.0) + seq![0x3au8] + enc_jval(f.1),
            ),
            out@ == seq![0x7bu8] + join_comma(parts.take(i as int)),
        decreases fields@.len() - i,
    {
        if i > 0 {
            out.push(0x2c);
        }
        write_jstr(&mut out, fields[i].0.as_slice());
        out.push(0x3a);
        write_jval(&mut out, &fields[i].1);
        proof {
            if i > 0 {
                lemma_join_push(parts.take(i as int), parts[i as int]);
                assert(parts.take(i + 1) =~= parts.take(i as int).push(parts[i as int]));
                assert(out@ =~= seq![0x7bu8] + join_comma(parts.take(i + 1)));
            } else {
                assert(parts.take(1) =~= seq![parts[0]]);
                assert(join_comma(seq![parts[0]]) == parts[0]);
                assert(out@ =~= seq![0x7bu8] + join_comma(parts.take(1)));
            }
        }
        i = i + 1;
    }
    out.push(0x7d);
    out.push(0x0a);
    proof {
        assert(parts.take(fields@.len() as int) =~= parts);
        assert(out@ =~= enc_line(fields_of(fields@)));
    }
    out
}

} // verus!
