//! Lossless geometry codec.
//!
//! Geometries travel to and from the spatial store as hex-encoded
//! extended well-known binary: a little-endian byte layout tagged with
//! spatial reference 4326, rendered as uppercase hex digits.  Coordinates
//! are carried as the 64-bit patterns of their binary64 values, so
//! encoding and decoding are byte exact and the round trip is proved.
//!
//! Layouts (all integers little endian, then hexed):
//! - point: `01` `01000020` `E6100000` lon(8) lat(8)
//! - multi-line: `01` `05000020` `E6100000` line-count(4) then per line
//!   `01` `02000000` point-count(4) and lon/lat pairs.

use vstd::prelude::*;
use vstd::bytes::{
    spec_u32_to_le_bytes, spec_u32_from_le_bytes, spec_u64_to_le_bytes, spec_u64_from_le_bytes,
    lemma_auto_spec_u32_to_from_le_bytes, lemma_auto_spec_u64_to_from_le_bytes, u32_from_le_bytes,
    u32_to_le_bytes, u64_from_le_bytes, u64_to_le_bytes,
};
use vstd::slice::{slice_subrange, slice_to_vec};
use crate::textutil::{push_all, str_bytes};

verus! {

// ---------------------------------------------------------------- hex digits
/// Is `b` the ASCII code of an uppercase hex digit?
pub open spec fn is_hex_u(b: u8) -> bool {
    (0x30 <= b && b <= 0x39) || (0x41 <= b && b <= 0x46)
}

/// ASCII code of the hex digit for `n` (recommends `n < 16`), uppercase.
pub open spec fn hex_digit(n: u8) -> u8
    recommends
        n < 16,
{
    if n < 10 {
        (0x30 + n) as u8
    } else {
        (0x37 + n) as u8
    }
}

/// Value of an uppercase hex digit byte.
pub open spec fn hex_val(b: u8) -> u8
    recommends
        is_hex_u(b),
{
    if b <= 0x39 {
        (b - 0x30) as u8
    } else {
        (b - 0x37) as u8
    }
}

/// The two hex digit bytes of one byte, high digit first.
pub open spec fn byte_hex(b: u8) -> Seq<u8> {
    seq![hex_digit(b / 16), hex_digit(b % 16)]
}

/// Hex rendering of a byte sequence.
pub open spec fn bytes_hex(s: Seq<u8>) -> Seq<u8>
    decreases s.len(),
{
    if s.len() == 0 {
        Seq::empty()
    } else {
        byte_hex(s[0]) + bytes_hex(s.drop_first())
    }
}

/// Inverse of `bytes_hex`, reading from `pos` to the end; `None` on odd
/// length or any byte that is not an uppercase hex digit.
pub open spec fn spec_unhex_from(h: Seq<u8>, pos: int) -> Option<Seq<u8>>
    decreases h.len() - pos,
{
    if pos < 0 || pos > h.len() {
        None
    } else if h.len() - pos == 0 {
        Some(Seq::empty())
    } else if h.len() - pos == 1 {
        None
    } else if is_hex_u(h[pos]) && is_hex_u(h[pos + 1]) {
        match spec_unhex_from(h, pos + 2) {
            Some(s) => Some(seq![(hex_val(h[pos]) * 16 + hex_val(h[pos + 1])) as u8] + s),
            None => None,
        }
    } else {
        None
    }
}

/// Inverse of `bytes_hex` over a whole sequence.
pub open spec fn spec_unhex(h: Seq<u8>) -> Option<Seq<u8>> {
    spec_unhex_from(h, 0)
}

pub proof fn lemma_hex_digit(n: u8)
    requires
        n < 16,
    ensures
        is_hex_u(hex_digit(n)),
        hex_val(hex_digit(n)) == n,
{
}

pub proof fn lemma_hex_digit_inv(b: u8)
    requires
        is_hex_u(b),
    ensures
        hex_val(b) < 16,
        hex_digit(hex_val(b)) == b,
{
}

/// Shape of a hex rendering: twice as long, hex digits throughout.
pub proof fn lemma_bytes_hex_shape(s: Seq<u8>)
    ensures
        bytes_hex(s).len() == 2 * s.len(),
        forall|i: int|
            0 <= i < s.len() ==> bytes_hex(s)[2 * i] == hex_digit(s[i] / 16) && bytes_hex(s)[2 * i
                + 1] == hex_digit(s[i] % 16),
    decreases s.len(),
{
    if s.len() > 0 {
        lemma_bytes_hex_shape(s.drop_first());
        assert forall|i: int| 0 <= i < s.len() implies bytes_hex(s)[2 * i] == hex_digit(s[i] / 16)
            && bytes_hex(s)[2 * i + 1] == hex_digit(s[i] % 16) by {
            if i > 0 {
                assert(s.drop_first()[i - 1] == s[i]);
                assert(bytes_hex(s)[2 * i] == bytes_hex(s.drop_first())[2 * (i - 1)]);
                assert(bytes_hex(s)[2 * i + 1] == bytes_hex(s.drop_first())[2 * (i - 1) + 1]);
            }
        }
    }
}

/// Hexing followed by unhexing is the identity, from any starting
/// position whose suffix is the rendering.
pub proof fn lemma_unhex_of_hex(h: Seq<u8>, pos: int, s: Seq<u8>)
    requires
        0 <= pos <= h.len(),
        h.len() - pos == 2 * s.len(),
        forall|i: int|
            0 <= i < s.len() ==> h[pos + 2 * i] == hex_digit(s[i] / 16) && h[pos + 2 * i + 1]
                == hex_digit(s[i] % 16),
    ensures
        spec_unhex_from(h, pos) == Some(s),
    decreases s.len(),
{
    if s.len() == 0 {
        assert(spec_unhex_from(h, pos) == Some(Seq::<u8>::empty()));
        assert(s =~= Seq::<u8>::empty());
    } else {
        assert(h[pos] == hex_digit(s[0] / 16) && h[pos + 1] == hex_digit(s[0] % 16)) by {
            assert(h[pos + 2 * 0] == hex_digit(s[0] / 16));
        }
        lemma_hex_digit(s[0] / 16);
        lemma_hex_digit(s[0] % 16);
        assert forall|i: int| 0 <= i < s.drop_first().len() implies h[(pos + 2) + 2 * i]
            == hex_digit(s.drop_first()[i] / 16) && h[(pos + 2) + 2 * i + 1] == hex_digit(
            s.drop_first()[i] % 16,
        ) by {
            assert(s.drop_first()[i] == s[i + 1]);
            assert(h[pos + 2 * (i + 1)] == hex_digit(s[i + 1] / 16));
            assert(h[pos + 2 * (i + 1) + 1] == hex_digit(s[i + 1] % 16));
        }
        lemma_unhex_of_hex(h, pos + 2, s.drop_first());
        assert(hex_val(h[pos]) * 16 + hex_val(h[pos + 1]) == s[0]);
        assert(seq![s[0]] + s.drop_first() =~= s);
    }
}

/// Whole-sequence round trip for the hex layer.
pub proof fn lemma_unhex_hex(s: Seq<u8>)
    ensures
        spec_unhex(bytes_hex(s)) == Some(s),
{
    lemma_bytes_hex_shape(s);
    lemma_unhex_of_hex(bytes_hex(s), 0, s);
}

/// Hex a byte vector.
pub fn hex_vec(raw: &Vec<u8>) -> (r: Vec<u8>)
    ensures
        r@ == bytes_hex(raw@),
{
    proof {
        lemma_bytes_hex_shape(raw@);
    }
    let mut r: Vec<u8> = Vec::new();
    let mut i: usize = 0;
    while i < raw.len()
        invariant
            i <= raw@.len(),
            r@.len() == 2 * i,
            r@ == bytes_hex(raw@).subrange(0, 2 * i as int),
            bytes_hex(raw@).len() == 2 * raw@.len(),
            forall|j: int|
                0 <= j < raw@.len() ==> bytes_hex(raw@)[2 * j] == hex_digit(raw@[j] / 16)
                    && bytes_hex(raw@)[2 * j + 1] == hex_digit(raw@[j] % 16),
        decreases raw@.len() - i,
    {
        let b = raw[i];
        let hi = b / 16;
        let lo = b % 16;
        r.push(if hi < 10 { 0x30 + hi } else { 0x37 + hi });
        r.push(if lo < 10 { 0x30 + lo } else { 0x37 + lo });
        assert(r@ =~= bytes_hex(raw@).subrange(0, 2 * (i + 1)));
        i = i + 1;
    }
    assert(r@ =~= bytes_hex(raw@));
    r
}

/// Unhex a byte vector: the executable inverse of `hex_vec`.
pub fn unhex_vec(h: &Vec<u8>) -> (r: Option<Vec<u8>>)
    ensures
        (r is Some) == (spec_unhex(h@) is Some),
        r matches Some(v) ==> spec_unhex(h@) == Some(v@),
{
    if h.len() % 2 != 0 {
        proof {
            lemma_unhex_odd(h@, 0);
        }
        return None;
    }
    let mut out: Vec<u8> = Vec::new();
    let mut i: usize = 0;
    while i < h.len()
        invariant
            i <= h@.len(),
            i % 2 == 0,
            h@.len() % 2 == 0,
            out@.len() * 2 == i,
            spec_unhex(h@) == match spec_unhex_from(h@, i as int) {
                Some(s) => Some(out@ + s),
                None => None::<Seq<u8>>,
            },
        decreases h@.len() - i,
    {
        let c0 = h[i];
        let c1 = h[i + 1];
        let v0 = hex_val_exec(c0);
        let v1 = hex_val_exec(c1);
        match (v0, v1) {
            (Some(a), Some(b)) => {
                out.push(a * 16 + b);
                proof {
                    let s_tail = spec_unhex_from(h@, i + 2);
                    if s_tail is Some {
                        assert(out@ =~= out@.drop_last() + seq![(hex_val(h@[i as int]) * 16
                            + hex_val(h@[i as int + 1])) as u8]);
                        assert(out@.drop_last() + (seq![(hex_val(h@[i as int]) * 16 + hex_val(
                            h@[i as int + 1],
                        )) as u8] + s_tail.unwrap()) =~= out@ + s_tail.unwrap());
                    }
                }
                i = i + 2;
            },
            _ => {
                return None;
            },
        }
    }
    assert(spec_unhex_from(h@, h@.len() as int) == Some(Seq::<u8>::empty()));
    assert(out@ + Seq::<u8>::empty() =~= out@);
    Some(out)
}

proof fn lemma_unhex_odd(h: Seq<u8>, pos: int)
    requires
        0 <= pos <= h.len(),
        (h.len() - pos) % 2 == 1,
    ensures
        spec_unhex_from(h, pos) is None,
    decreases h.len() - pos,
{
    if h.len() - pos > 1 {
        lemma_unhex_odd(h, pos + 2);
    }
}

/// Value of one hex digit byte, uppercase only.
fn hex_val_exec(b: u8) -> (r: Option<u8>)
    ensures
        r matches Some(v) ==> is_hex_u(b) && v == hex_val(b),
        r is None ==> !is_hex_u(b),
{
    if 0x30 <= b && b <= 0x39 {
        Some(b - 0x30)
    } else if 0x41 <= b && b <= 0x46 {
        Some(b - 0x37)
    } else {
        None
    }
}

// ------------------------------------------------------------- raw layouts
/// Raw bytes of an extended well-known-binary point, reference 4326.
pub open spec fn ewkb_point_bytes(lon: u64, lat: u64) -> Seq<u8> {
    seq![1u8] + spec_u32_to_le_bytes(0x20000001u32) + spec_u32_to_le_bytes(4326u32)
        + spec_u64_to_le_bytes(lon) + spec_u64_to_le_bytes(lat)
}

/// Raw bytes of the lon/lat pairs of one line.
pub open spec fn coords_bytes(pts: Seq<(u64, u64)>) -> Seq<u8>
    decreases pts.len(),
{
    if pts.len() == 0 {
        Seq::empty()
    } else {
        spec_u64_to_le_bytes(pts[0].0) + spec_u64_to_le_bytes(pts[0].1) + coords_bytes(
            pts.drop_first(),
        )
    }
}

/// Raw bytes of one inner line-string (no spatial reference of its own).
pub open spec fn line_bytes(pts: Seq<(u64, u64)>) -> Seq<u8>
    recommends
        pts.len() < 0x1_0000_0000,
{
    seq![1u8] + spec_u32_to_le_bytes(2u32) + spec_u32_to_le_bytes(pts.len() as u32) + coords_bytes(
        pts,
    )
}

/// Raw bytes of a sequence of inner line-strings.
pub open spec fn lines_bytes(ls: Seq<Seq<(u64, u64)>>) -> Seq<u8>
    decreases ls.len(),
{
    if ls.len() == 0 {
        Seq::empty()
    } else {
        line_bytes(ls[0]) + lines_bytes(ls.drop_first())
    }
}

/// Raw bytes of an extended well-known-binary multi-line, reference 4326.
pub open spec fn ewkb_multiline_bytes(ls: Seq<Seq<(u64, u64)>>) -> Seq<u8>
    recommends
        ls.len() < 0x1_0000_0000,
{
    seq![1u8] + spec_u32_to_le_bytes(0x20000005u32) + spec_u32_to_le_bytes(4326u32)
        + spec_u32_to_le_bytes(ls.len() as u32) + lines_bytes(ls)
}

// ------------------------------------------------------------- raw parsers
/// Parse `n` lon/lat pairs from `raw` starting at `pos`; yields the pairs
/// and the position after them.
pub open spec fn parse_coords(raw: Seq<u8>, pos: int, n: nat) -> Option<(Seq<(u64, u64)>, int)>
    decreases n,
{
    if n == 0 {
        Some((Seq::empty(), pos))
    } else if pos < 0 || pos + 16 > raw.len() {
        None
    } else {
        let lon = spec_u64_from_le_bytes(raw.subrange(pos, pos + 8));
        let lat = spec_u64_from_le_bytes(raw.subrange(pos + 8, pos + 16));
        match parse_coords(raw, pos + 16, (n - 1) as nat) {
            Some((pts, end)) => Some((seq![(lon, lat)] + pts, end)),
            None => None,
        }
    }
}

/// Parse one inner line-string at `pos`.
pub open spec fn parse_line(raw: Seq<u8>, pos: int) -> Option<(Seq<(u64, u64)>, int)> {
    if pos < 0 || pos + 9 > raw.len() {
        None
    } else if raw[pos] != 1u8 || spec_u32_from_le_bytes(raw.subrange(pos + 1, pos + 5)) != 2u32 {
        None
    } else {
        let n = spec_u32_from_le_bytes(raw.subrange(pos + 5, pos + 9));
        parse_coords(raw, pos + 9, n as nat)
    }
}

/// Parse `n` inner line-strings starting at `pos`.
pub open spec fn parse_lines(raw: Seq<u8>, pos: int, n: nat) -> Option<(Seq<Seq<(u64, u64)>>, int)>
    decreases n,
{
    if n == 0 {
        Some((Seq::empty(), pos))
    } else {
        match parse_line(raw, pos) {
            Some((pts, mid)) => match parse_lines(raw, mid, (n - 1) as nat) {
                Some((ls, end)) => Some((seq![pts] + ls, end)),
                None => None,
            },
            None => None,
        }
    }
}

/// Parse a whole raw point; inverse of `ewkb_point_bytes`.
pub open spec fn parse_point_raw(raw: Seq<u8>) -> Option<(u64, u64)> {
    if raw.len() != 25 {
        None
    } else if raw[0] != 1u8 || spec_u32_from_le_bytes(raw.subrange(1, 5)) != 0x20000001u32
        || spec_u32_from_le_bytes(raw.subrange(5, 9)) != 4326u32 {
        None
    } else {
        Some(
            (
                spec_u64_from_le_bytes(raw.subrange(9, 17)),
                spec_u64_from_le_bytes(raw.subrange(17, 25)),
            ),
        )
    }
}

/// Parse a whole raw multi-line; inverse of `ewkb_multiline_bytes`.
pub open spec fn parse_multiline_raw(raw: Seq<u8>) -> Option<Seq<Seq<(u64, u64)>>> {
    if raw.len() < 13 {
        None
    } else if raw[0] != 1u8 || spec_u32_from_le_bytes(raw.subrange(1, 5)) != 0x20000005u32
        || spec_u32_from_le_bytes(raw.subrange(5, 9)) != 4326u32 {
        None
    } else {
        let n = spec_u32_from_le_bytes(raw.subrange(9, 13));
        match parse_lines(raw, 13, n as nat) {
            Some((ls, end)) => if end == raw.len() {
                Some(ls)
            } else {
                None
            },
            None => None,
        }
    }
}

/// Hex-level decoding of a point.
pub open spec fn spec_decode_point(h: Seq<u8>) -> Option<(u64, u64)> {
    match spec_unhex(h) {
        Some(raw) => parse_point_raw(raw),
        None => None,
    }
}

/// Hex-level decoding of a multi-line.
pub open spec fn spec_decode_multiline(h: Seq<u8>) -> Option<Seq<Seq<(u64, u64)>>> {
    match spec_unhex(h) {
        Some(raw) => parse_multiline_raw(raw),
        None => None,
    }
}

// --------------------------------------------------------- round-trip laws
pub proof fn lemma_coords_bytes_len(pts: Seq<(u64, u64)>)
    ensures
        coords_bytes(pts).len() == 16 * pts.len(),
    decreases pts.len(),
{
    lemma_auto_spec_u64_to_from_le_bytes();
    if pts.len() > 0 {
        lemma_coords_bytes_len(pts.drop_first());
    }
}

/// A window into `raw` that equals `whole` passes its sub-windows through.
proof fn lemma_subrange_of_eq(raw: Seq<u8>, pos: int, whole: Seq<u8>, a: int, b: int)
    requires
        0 <= pos,
        pos + whole.len() <= raw.len(),
        raw.subrange(pos, pos + whole.len()) == whole,
        0 <= a <= b <= whole.len(),
    ensures
        raw.subrange(pos + a, pos + b) == whole.subrange(a, b),
{
    assert(raw.subrange(pos + a, pos + b) =~= raw.subrange(pos, pos + whole.len()).subrange(a, b));
}

pub proof fn lemma_parse_coords_of(raw: Seq<u8>, pos: int, pts: Seq<(u64, u64)>)
    requires
        0 <= pos,
        pos + 16 * pts.len() <= raw.len(),
        raw.subrange(pos, pos + 16 * pts.len()) == coords_bytes(pts),
    ensures
        parse_coords(raw, pos, pts.len()) == Some((pts, pos + 16 * pts.len())),
    decreases pts.len(),
{
    lemma_auto_spec_u64_to_from_le_bytes();
    lemma_coords_bytes_len(pts);
    if pts.len() > 0 {
        lemma_coords_bytes_len(pts.drop_first());
        let whole = coords_bytes(pts);
        assert(whole == spec_u64_to_le_bytes(pts[0].0) + spec_u64_to_le_bytes(pts[0].1)
            + coords_bytes(pts.drop_first()));
        lemma_subrange_of_eq(raw, pos, whole, 0, 8);
        lemma_subrange_of_eq(raw, pos, whole, 8, 16);
        lemma_subrange_of_eq(raw, pos, whole, 16, whole.len() as int);
        assert(whole.subrange(0, 8) =~= spec_u64_to_le_bytes(pts[0].0));
        assert(whole.subrange(8, 16) =~= spec_u64_to_le_bytes(pts[0].1));
        assert(whole.subrange(16, whole.len() as int) =~= coords_bytes(pts.drop_first()));
        assert(raw.subrange(pos, pos + 8) == raw.subrange(pos + 0, pos + 8));
        lemma_parse_coords_of(raw, pos + 16, pts.drop_first());
        assert(seq![(pts[0].0, pts[0].1)] + pts.drop_first() =~= pts);
    }
}

pub proof fn lemma_parse_line_of(raw: Seq<u8>, pos: int, pts: Seq<(u64, u64)>)
    requires
        0 <= pos,
        pts.len() < 0x1_0000_0000,
        pos + 9 + 16 * pts.len() <= raw.len(),
        raw.subrange(pos, pos + 9 + 16 * pts.len()) == line_bytes(pts),
    ensures
        parse_line(raw, pos) == Some((pts, pos + 9 + 16 * pts.len())),
{
    lemma_auto_spec_u32_to_from_le_bytes();
    lemma_coords_bytes_len(pts);
    let whole = line_bytes(pts);
    assert(whole == seq![1u8] + spec_u32_to_le_bytes(2u32) + spec_u32_to_le_bytes(pts.len() as u32)
        + coords_bytes(pts));
    lemma_subrange_of_eq(raw, pos, whole, 0, 1);
    lemma_subrange_of_eq(raw, pos, whole, 1, 5);
    lemma_subrange_of_eq(raw, pos, whole, 5, 9);
    lemma_subrange_of_eq(raw, pos, whole, 9, whole.len() as int);
    assert(raw[pos] == raw.subrange(pos + 0, pos + 1)[0]);
    assert(whole.subrange(0, 1)[0] == whole[0]);
    assert(whole[0] == 1u8);
    assert(whole.subrange(1, 5) =~= spec_u32_to_le_bytes(2u32));
    assert(whole.subrange(5, 9) =~= spec_u32_to_le_bytes(pts.len() as u32));
    assert(raw.subrange(pos + 1, pos + 5) == whole.subrange(1, 5));
    assert(raw.subrange(pos + 5, pos + 9) == whole.subrange(5, 9));
    assert(spec_u32_from_le_bytes(raw.subrange(pos + 5, pos + 9)) as nat == pts.len());
    assert(whole.subrange(9, whole.len() as int) =~= coords_bytes(pts));
    lemma_parse_coords_of(raw, pos + 9, pts);
}

pub proof fn lemma_parse_lines_of(raw: Seq<u8>, pos: int, ls: Seq<Seq<(u64, u64)>>)
    requires
        0 <= pos,
        forall|i: int| 0 <= i < ls.len() ==> #[trigger] ls[i].len() < 0x1_0000_0000,
        pos + lines_bytes(ls).len() <= raw.len(),
        raw.subrange(pos, pos + lines_bytes(ls).len()) == lines_bytes(ls),
    ensures
        parse_lines(raw, pos, ls.len()) == Some((ls, pos + lines_bytes(ls).len())),
    decreases ls.len(),
{
    lemma_auto_spec_u32_to_from_le_bytes();
    if ls.len() > 0 {
        lemma_coords_bytes_len(ls[0]);
        let linelen: int = 9 + 16 * ls[0].len() as int;
        assert(line_bytes(ls[0]).len() == linelen);
        let whole = lines_bytes(ls);
        assert(whole == line_bytes(ls[0]) + lines_bytes(ls.drop_first()));
        lemma_subrange_of_eq(raw, pos, whole, 0, linelen);
        lemma_subrange_of_eq(raw, pos, whole, linelen, whole.len() as int);
        assert(whole.subrange(0, linelen) =~= line_bytes(ls[0]));
        assert(whole.subrange(linelen, whole.len() as int) =~= lines_bytes(ls.drop_first()));
        assert(raw.subrange(pos, pos + linelen) == raw.subrange(pos + 0, pos + linelen));
        lemma_parse_line_of(raw, pos, ls[0]);
        lemma_parse_lines_of(raw, pos + linelen, ls.drop_first());
        assert(seq![ls[0]] + ls.drop_first() =~= ls);
    }
}

/// Decoding an encoded point yields the point back (geometry round trip).
pub proof fn lemma_point_round_trip(lon: u64, lat: u64)
    ensures
        spec_decode_point(bytes_hex(ewkb_point_bytes(lon, lat))) == Some((lon, lat)),
{
    lemma_auto_spec_u32_to_from_le_bytes();
    lemma_auto_spec_u64_to_from_le_bytes();
    let raw = ewkb_point_bytes(lon, lat);
    lemma_unhex_hex(raw);
    assert(raw.subrange(1, 5) =~= spec_u32_to_le_bytes(0x20000001u32));
    assert(raw.subrange(5, 9) =~= spec_u32_to_le_bytes(4326u32));
    assert(raw.subrange(9, 17) =~= spec_u64_to_le_bytes(lon));
    assert(raw.subrange(17, 25) =~= spec_u64_to_le_bytes(lat));
}

/// Decoding an encoded multi-line yields every line back, in order;
/// the empty multi-line round-trips as itself (geometry round trip).
pub proof fn lemma_multiline_round_trip(ls: Seq<Seq<(u64, u64)>>)
    requires
        ls.len() < 0x1_0000_0000,
        forall|i: int| 0 <= i < ls.len() ==> #[trigger] ls[i].len() < 0x1_0000_0000,
    ensures
        spec_decode_multiline(bytes_hex(ewkb_multiline_bytes(ls))) == Some(ls),
{
    lemma_auto_spec_u32_to_from_le_bytes();
    let raw = ewkb_multiline_bytes(ls);
    lemma_unhex_hex(raw);
    assert(raw.subrange(1, 5) =~= spec_u32_to_le_bytes(0x20000005u32));
    assert(raw.subrange(5, 9) =~= spec_u32_to_le_bytes(4326u32));
    assert(raw.subrange(9, 13) =~= spec_u32_to_le_bytes(ls.len() as u32));
    assert(raw.subrange(13, 13 + lines_bytes(ls).len() as int) =~= lines_bytes(ls));
    lemma_parse_lines_of(raw, 13, ls);
}

// ------------------------------------------------------------ exec encode
/// View of a vector of lines as a sequence of point sequences.
pub open spec fn lines_view(v: Seq<Vec<(u64, u64)>>) -> Seq<Seq<(u64, u64)>> {
    Seq::new(v.len(), |i: int| v[i]@)
}

proof fn lemma_coords_snoc(pts: Seq<(u64, u64)>, p: (u64, u64))
    ensures
        coords_bytes(pts.push(p)) == coords_bytes(pts) + spec_u64_to_le_bytes(p.0)
            + spec_u64_to_le_bytes(p.1),
    decreases pts.len(),
{
    lemma_auto_spec_u64_to_from_le_bytes();
    if pts.len() == 0 {
        assert(pts.push(p)[0] == p);
        assert(pts.push(p).drop_first() =~= Seq::<(u64, u64)>::empty());
        assert(coords_bytes(pts.push(p)) == spec_u64_to_le_bytes(p.0) + spec_u64_to_le_bytes(p.1)
            + coords_bytes(Seq::<(u64, u64)>::empty()));
        assert(coords_bytes(Seq::<(u64, u64)>::empty()) =~= Seq::<u8>::empty());
        assert(coords_bytes(pts) =~= Seq::<u8>::empty());
        assert(coords_bytes(pts.push(p)) =~= coords_bytes(pts) + spec_u64_to_le_bytes(p.0)
            + spec_u64_to_le_bytes(p.1));
    } else {
        lemma_coords_snoc(pts.drop_first(), p);
        assert(pts.push(p).drop_first() =~= pts.drop_first().push(p));
        assert(pts.push(p)[0] == pts[0]);
        assert(coords_bytes(pts.push(p)) =~= coords_bytes(pts) + spec_u64_to_le_bytes(p.0)
            + spec_u64_to_le_bytes(p.1));
    }
}

proof fn lemma_lines_snoc(ls: Seq<Seq<(u64, u64)>>, l: Seq<(u64, u64)>)
    ensures
        lines_bytes(ls.push(l)) == lines_bytes(ls) + line_bytes(l),
    decreases ls.len(),
{
    lemma_auto_spec_u32_to_from_le_bytes();
    lemma_auto_spec_u64_to_from_le_bytes();
    lemma_coords_bytes_len(l);
    if ls.len() == 0 {
        assert(ls.push(l)[0] == l);
        assert(ls.push(l).drop_first() =~= Seq::<Seq<(u64, u64)>>::empty());
        assert(lines_bytes(ls.push(l)) == line_bytes(l) + lines_bytes(
            Seq::<Seq<(u64, u64)>>::empty(),
        ));
        assert(lines_bytes(Seq::<Seq<(u64, u64)>>::empty()) =~= Seq::<u8>::empty());
        assert(lines_bytes(ls) =~= Seq::<u8>::empty());
        assert(lines_bytes(ls.push(l)) =~= lines_bytes(ls) + line_bytes(l));
    } else {
        lemma_lines_snoc(ls.drop_first(), l);
        assert(ls.push(l).drop_first() =~= ls.drop_first().push(l));
        assert(ls.push(l)[0] == ls[0]);
        assert(lines_bytes(ls.push(l)) =~= lines_bytes(ls) + line_bytes(l));
    }
}

/// Hex encoding of one point, reference 4326.
pub fn encode_point_hex(lon: u64, lat: u64) -> (r: Vec<u8>)
    ensures
        r@ == bytes_hex(ewkb_point_bytes(lon, lat)),
{
    let mut raw: Vec<u8> = Vec::new();
    raw.push(1u8);
    let t = u32_to_le_bytes(0x20000001u32);
    push_all(&mut raw, &t);
    let s = u32_to_le_bytes(4326u32);
    push_all(&mut raw, &s);
    let a = u64_to_le_bytes(lon);
    push_all(&mut raw, &a);
    let b = u64_to_le_bytes(lat);
    push_all(&mut raw, &b);
    assert(raw@ =~= ewkb_point_bytes(lon, lat));
    hex_vec(&raw)
}

/// Hex encoding of a multi-line, reference 4326.
#[verifier::loop_isolation(false)]
pub fn encode_multiline_hex(lines: &Vec<Vec<(u64, u64)>>) -> (r: Vec<u8>)
    requires
        lines@.len() < 0x1_0000_0000,
        forall|i: int| 0 <= i < lines@.len() ==> #[trigger] lines@[i]@.len() < 0x1_0000_0000,
    ensures
        r@ == bytes_hex(ewkb_multiline_bytes(lines_view(lines@))),
{
    let mut raw: Vec<u8> = Vec::new();
    raw.push(1u8);
    let t = u32_to_le_bytes(0x20000005u32);
    push_all(&mut raw, &t);
    let s = u32_to_le_bytes(4326u32);
    push_all(&mut raw, &s);
    let n = u32_to_le_bytes(lines.len() as u32);
    push_all(&mut raw, &n);
    let ghost header: Seq<u8> = raw@;
    proof {
        assert(lines_view(lines@).len() == lines@.len());
        assert(header =~= seq![1u8] + spec_u32_to_le_bytes(0x20000005u32) + spec_u32_to_le_bytes(
            4326u32,
        ) + spec_u32_to_le_bytes(lines@.len() as u32));
    }
    let mut i: usize = 0;
    while i < lines.len()
        invariant
            i <= lines@.len(),
            raw@ == header + lines_bytes(lines_view(lines@).subrange(0, i as int)),
        decreases lines@.len() - i,
    {
        let line = &lines[i];
        raw.push(1u8);
        let lt = u32_to_le_bytes(2u32);
        push_all(&mut raw, &lt);
        let lm = u32_to_le_bytes(line.len() as u32);
        push_all(&mut raw, &lm);
        let ghost line_prefix: Seq<u8> = raw@;
        proof {
            assert(line_prefix =~= header + lines_bytes(lines_view(lines@).subrange(0, i as int))
                + (seq![1u8] + spec_u32_to_le_bytes(2u32) + spec_u32_to_le_bytes(
                line@.len() as u32,
            )));
        }
        let mut j: usize = 0;
        while j < line.len()
            invariant
                j <= line@.len(),
                raw@ == line_prefix + coords_bytes(line@.subrange(0, j as int)),
            decreases line@.len() - j,
        {
            let (lon, lat) = line[j];
            let ca = u64_to_le_bytes(lon);
            push_all(&mut raw, &ca);
            let cb = u64_to_le_bytes(lat);
            push_all(&mut raw, &cb);
            proof {
                lemma_coords_snoc(line@.subrange(0, j as int), line@[j as int]);
                assert(line@.subrange(0, j as int).push(line@[j as int]) =~= line@.subrange(
                    0,
                    j + 1,
                ));
                assert(raw@ =~= line_prefix + coords_bytes(line@.subrange(0, j + 1)));
            }
            j = j + 1;
        }
        proof {
            assert(line@.subrange(0, line@.len() as int) =~= line@);
            lemma_lines_snoc(lines_view(lines@).subrange(0, i as int), line@);
            assert(lines_view(lines@).subrange(0, i as int).push(line@) =~= lines_view(
                lines@,
            ).subrange(0, i + 1));
            assert(raw@ =~= header + lines_bytes(lines_view(lines@).subrange(0, i + 1)));
        }
        i = i + 1;
    }
    proof {
        assert(lines_view(lines@).subrange(0, lines@.len() as int) =~= lines_view(lines@));
        assert(raw@ =~= ewkb_multiline_bytes(lines_view(lines@)));
    }
    hex_vec(&raw)
}

// ------------------------------------------------------------ exec decode
fn parse_point_exec(raw: &Vec<u8>) -> (r: Option<(u64, u64)>)
    ensures
        r == parse_point_raw(raw@),
{
    if raw.len() != 25 {
        return None;
    }
    if raw[0] != 1u8 {
        return None;
    }
    let t = u32_from_le_bytes(slice_subrange(raw.as_slice(), 1, 5));
    if t != 0x20000001u32 {
        return None;
    }
    let s = u32_from_le_bytes(slice_subrange(raw.as_slice(), 5, 9));
    if s != 4326u32 {
        return None;
    }
    let lon = u64_from_le_bytes(slice_subrange(raw.as_slice(), 9, 17));
    let lat = u64_from_le_bytes(slice_subrange(raw.as_slice(), 17, 25));
    Some((lon, lat))
}

/// Decode a hex point; `None` exactly when the input is not a canonical
/// encoding.
pub fn decode_point_hex(h: &Vec<u8>) -> (r: Option<(u64, u64)>)
    ensures
        r == spec_decode_point(h@),
{
    match unhex_vec(h) {
        Some(raw) => parse_point_exec(&raw),
        None => None,
    }
}

#[verifier::loop_isolation(false)]
fn parse_multiline_exec(raw: &Vec<u8>) -> (r: Option<Vec<Vec<(u64, u64)>>>)
    ensures
        (r is Some) == (parse_multiline_raw(raw@) is Some),
        r matches Some(v) ==> parse_multiline_raw(raw@) == Some(lines_view(v@)),
{
    if raw.len() < 13 {
        return None;
    }
    if raw[0] != 1u8 {
        return None;
    }
    let t = u32_from_le_bytes(slice_subrange(raw.as_slice(), 1, 5));
    if t != 0x20000005u32 {
        return None;
    }
    let s = u32_from_le_bytes(slice_subrange(raw.as_slice(), 5, 9));
    if s != 4326u32 {
        return None;
    }
    let n = u32_from_le_bytes(slice_subrange(raw.as_slice(), 9, 13));
    let mut pos: usize = 13;
    let mut acc: Vec<Vec<(u64, u64)>> = Vec::new();
    let mut i: u32 = 0;
    while i < n
        invariant
            13 <= pos <= raw@.len(),
            i <= n,
            acc@.len() == i,
            parse_lines(raw@, 13, n as nat) == (match parse_lines(
                raw@,
                pos as int,
                (n - i) as nat,
            ) {
                Some((ls, end)) => Some((lines_view(acc@) + ls, end)),
                None => None,
            }),
        decreases n - i,
    {
        let line_start = pos;
        if raw.len() - line_start < 9 {
            return None;
        }
        if raw[line_start] != 1u8 {
            return None;
        }
        let lt = u32_from_le_bytes(slice_subrange(raw.as_slice(), line_start + 1, line_start + 5));
        if lt != 2u32 {
            return None;
        }
        let m = u32_from_le_bytes(slice_subrange(raw.as_slice(), line_start + 5, line_start + 9));
        let mut cpos: usize = line_start + 9;
        let mut pts: Vec<(u64, u64)> = Vec::new();
        let mut j: u32 = 0;
        while j < m
            invariant
                line_start + 9 <= cpos <= raw@.len(),
                j <= m,
                pts@.len() == j,
                parse_coords(raw@, line_start + 9 as int, m as nat) == (match parse_coords(
                    raw@,
                    cpos as int,
                    (m - j) as nat,
                ) {
                    Some((ps, end)) => Some((pts@ + ps, end)),
                    None => None,
                }),
            decreases m - j,
        {
            if raw.len() - cpos < 16 {
                return None;
            }
            let lon = u64_from_le_bytes(slice_subrange(raw.as_slice(), cpos, cpos + 8));
            let lat = u64_from_le_bytes(slice_subrange(raw.as_slice(), cpos + 8, cpos + 16));
            pts.push((lon, lat));
            proof {
                assert(pts@ =~= pts@.drop_last().push((lon, lat)));
                let rest = parse_coords(raw@, cpos + 16 as int, (m - j - 1) as nat);
                if rest is Some {
                    assert(pts@.drop_last() + (seq![(lon, lat)] + rest.unwrap().0) =~= pts@
                        + rest.unwrap().0);
                }
            }
            cpos = cpos + 16;
            j = j + 1;
        }
        proof {
            assert(pts@ + Seq::<(u64, u64)>::empty() =~= pts@);
            assert(parse_coords(raw@, line_start + 9 as int, m as nat) == Some((
                pts@,
                cpos as int,
            )));
            assert(parse_line(raw@, line_start as int) == Some((pts@, cpos as int)));
        }
        let ghost prev_acc = acc@;
        acc.push(pts);
        proof {
            assert(lines_view(acc@) =~= lines_view(prev_acc).push(acc@[prev_acc.len() as int]@));
            let rest = parse_lines(raw@, cpos as int, (n - i - 1) as nat);
            if rest is Some {
                assert(lines_view(prev_acc).push(acc@.last()@) + rest.unwrap().0 =~= lines_view(
                    prev_acc,
                ) + (seq![acc@.last()@] + rest.unwrap().0));
            }
        }
        pos = cpos;
        i = i + 1;
    }
    proof {
        assert(lines_view(acc@) + Seq::<Seq<(u64, u64)>>::empty() =~= lines_view(acc@));
        assert(parse_lines(raw@, 13, n as nat) == Some((lines_view(acc@), pos as int)));
    }
    if pos != raw.len() {
        return None;
    }
    Some(acc)
}

/// Decode a hex multi-line; `None` exactly when the input is not a
/// canonical encoding.
pub fn decode_multiline_hex(h: &Vec<u8>) -> (r: Option<Vec<Vec<(u64, u64)>>>)
    ensures
        (r is Some) == (spec_decode_multiline(h@) is Some),
        r matches Some(v) ==> spec_decode_multiline(h@) == Some(lines_view(v@)),
{
    match unhex_vec(h) {
        Some(raw) => parse_multiline_exec(&raw),
        None => None,
    }
}

/// Decode a hex point given as a string.
pub fn decode_point_str(h: &str) -> (r: Option<(u64, u64)>)
    ensures
        r == spec_decode_point(str_bytes(h@)),
{
    let bytes = slice_to_vec(h.as_bytes());
    decode_point_hex(&bytes)
}

/// Decode a hex multi-line given as a string.
pub fn decode_multiline_str(h: &str) -> (r: Option<Vec<Vec<(u64, u64)>>>)
    ensures
        (r is Some) == (spec_decode_multiline(str_bytes(h@)) is Some),
        r matches Some(v) ==> spec_decode_multiline(str_bytes(h@)) == Some(lines_view(v@)),
{
    let bytes = slice_to_vec(h.as_bytes());
    decode_multiline_hex(&bytes)
}

} // verus!
