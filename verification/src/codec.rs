//! Executable codec for the three message kinds.
//!
//! Each encoder turns a well-formed message into exactly the byte
//! sequence that its spec-level encoding function describes, and each
//! decoder computes exactly what the spec-level parser describes: the
//! decoders accept the encoders' image and nothing else, so decoding
//! never guesses, defaults or truncates.

use vstd::prelude::*;
use vstd::slice::{slice_index_get, slice_subrange, slice_to_vec};
use vstd::utf8::{encode_utf8, valid_utf8};

use crate::msg::{clock_wf, move_wf, opt_str_view, start_wf, Ack, ClockTime, GameState, Move,
    PromotionPiece, Start};
use crate::wire::{enc_bool, enc_clock, enc_coord, enc_game, enc_opt_clock, enc_opt_game,
    enc_opt_promo, enc_opt_str, enc_promo, enc_str, enc_strhead, enc_uint, parse_bool, parse_clock,
    parse_coord, parse_game, parse_opt_clock, parse_opt_game, parse_opt_promo, parse_opt_str,
    parse_promo, parse_str, parse_strhead, parse_uint, spec_decode_ack, spec_decode_move,
    spec_decode_start, spec_encode_ack, spec_encode_move, spec_encode_start, starts_with,
    lemma_starts_with_index};

verus! {

broadcast use vstd::slice::group_slice_axioms;

/// The message kind a codec or protocol operation was working on,
/// reported inside its errors.
#[derive(Debug, Clone, Copy, PartialEq, Eq, Structural)]
pub enum MsgKind {
    Start,
    Move,
    Ack,
}

/// Decoding failed: the bytes are not the encoding of any well-formed
/// message of the expected kind — truncated, mistyped, out-of-range, or
/// followed by trailing bytes.
#[derive(Debug, Clone, Copy, PartialEq, Eq, Structural)]
pub struct DecodeError {
    pub expected: MsgKind,
}

/// Encoding failed: the in-memory value is not well formed, so the wire
/// format cannot represent it.
#[derive(Debug, Clone, Copy, PartialEq, Eq, Structural)]
pub struct EncodeError {
    pub kind: MsgKind,
}

/// Relies on `String::from_utf8`: it succeeds exactly on valid UTF-8 and
/// returns the string whose UTF-8 bytes are the input.
#[verifier::external_body]
fn bytes_to_string(bytes: Vec<u8>) -> (r: Option<String>)
    ensures
        r is Some <==> valid_utf8(bytes@),
        r matches Some(s) ==> encode_utf8(s@) == bytes@,
{
    match String::from_utf8(bytes) {
        Ok(s) => Some(s),
        Err(_) => None,
    }
}

/// Appends the shortest-form encoding of `n` to `out`.
fn push_uint(out: &mut Vec<u8>, n: u64)
    ensures
        final(out)@ == old(out)@ + enc_uint(n),
{
    if n <= 0x7f {
        out.push((n & 0xff) as u8);
    } else if n <= 0xff {
        out.push(0xcc);
        out.push((n & 0xff) as u8);
    } else if n <= 0xffff {
        out.push(0xcd);
        out.push(((n >> 8) & 0xff) as u8);
        out.push((n & 0xff) as u8);
    } else if n <= 0xffff_ffff {
        out.push(0xce);
        out.push(((n >> 24) & 0xff) as u8);
        out.push(((n >> 16) & 0xff) as u8);
        out.push(((n >> 8) & 0xff) as u8);
        out.push((n & 0xff) as u8);
    } else {
        out.push(0xcf);
        out.push(((n >> 56) & 0xff) as u8);
        out.push(((n >> 48) & 0xff) as u8);
        out.push(((n >> 40) & 0xff) as u8);
        out.push(((n >> 32) & 0xff) as u8);
        out.push(((n >> 24) & 0xff) as u8);
        out.push(((n >> 16) & 0xff) as u8);
        out.push(((n >> 8) & 0xff) as u8);
        out.push((n & 0xff) as u8);
    }
    proof {
        assert(out@ =~= old(out)@ + enc_uint(n));
    }
}

/// Appends the encoding of a boolean to `out`.
fn push_bool(out: &mut Vec<u8>, v: bool)
    ensures
        final(out)@ == old(out)@ + enc_bool(v),
{
    if v {
        out.push(0xc3);
    } else {
        out.push(0xc2);
    }
    proof {
        assert(out@ =~= old(out)@ + enc_bool(v));
    }
}

/// Appends the shortest-form encoding of a string length to `out`.
fn push_strhead(out: &mut Vec<u8>, l: u64)
    requires
        l <= 0xffff_ffff,
    ensures
        final(out)@ == old(out)@ + enc_strhead(l),
{
    if l <= 31 {
        out.push((0xa0 | (l & 0x1f)) as u8);
    } else if l <= 0xff {
        out.push(0xd9);
        out.push((l & 0xff) as u8);
    } else if l <= 0xffff {
        out.push(0xda);
        out.push(((l >> 8) & 0xff) as u8);
        out.push((l & 0xff) as u8);
    } else {
        out.push(0xdb);
        out.push(((l >> 24) & 0xff) as u8);
        out.push(((l >> 16) & 0xff) as u8);
        out.push(((l >> 8) & 0xff) as u8);
        out.push((l & 0xff) as u8);
    }
    proof {
        assert(out@ =~= old(out)@ + enc_strhead(l));
    }
}

/// Appends the encoding of a string to `out`.
fn push_str(out: &mut Vec<u8>, s: &str)
    requires
        encode_utf8(s@).len() < 0x1_0000_0000,
    ensures
        final(out)@ == old(out)@ + enc_str(s@),
{
    let bs = s.as_bytes();
    push_strhead(out, bs.len() as u64);
    out.extend_from_slice(bs);
    proof {
        assert(out@ =~= old(out)@ + enc_str(s@));
    }
}

/// Appends the encoding of an optional string to `out`.
fn push_opt_str(out: &mut Vec<u8>, o: &Option<String>)
    requires
        opt_str_view(*o) matches Some(n) ==> encode_utf8(n).len() < 0x1_0000_0000,
    ensures
        final(out)@ == old(out)@ + enc_opt_str(opt_str_view(*o)),
{
    match o {
        None => {
            out.push(0xc0);
            proof {
                assert(out@ =~= old(out)@ + enc_opt_str(opt_str_view(*o)));
            }
        },
        Some(s) => {
            push_str(out, s.as_str());
        },
    }
}

/// Appends the encoding of a clock amount to `out`.
fn push_clock(out: &mut Vec<u8>, c: ClockTime)
    ensures
        final(out)@ == old(out)@ + enc_clock(c),
{
    out.push(0x92);
    push_uint(out, c.secs);
    push_uint(out, c.nanos as u64);
    proof {
        assert(out@ =~= old(out)@ + enc_clock(c));
    }
}

/// Appends the encoding of an optional clock amount to `out`.
fn push_opt_clock(out: &mut Vec<u8>, o: Option<ClockTime>)
    ensures
        final(out)@ == old(out)@ + enc_opt_clock(o),
{
    match o {
        None => {
            out.push(0xc0);
        },
        Some(c) => {
            push_clock(out, c);
        },
    }
    proof {
        assert(out@ =~= old(out)@ + enc_opt_clock(o));
    }
}

/// Appends the encoding of a board square to `out`.
fn push_coord(out: &mut Vec<u8>, c: (u8, u8))
    ensures
        final(out)@ == old(out)@ + enc_coord(c),
{
    out.push(0x92);
    push_uint(out, c.0 as u64);
    push_uint(out, c.1 as u64);
    proof {
        assert(out@ =~= old(out)@ + enc_coord(c));
    }
}

/// Appends the variant name of a promotion piece to `out`.
fn push_promo(out: &mut Vec<u8>, p: PromotionPiece)
    ensures
        final(out)@ == old(out)@ + enc_promo(p),
{
    match p {
        PromotionPiece::Queen => {
            out.push(0xa5);
            out.push(0x51);
            out.push(0x75);
            out.push(0x65);
            out.push(0x65);
            out.push(0x6e);
        },
        PromotionPiece::Bishop => {
            out.push(0xa6);
            out.push(0x42);
            out.push(0x69);
            out.push(0x73);
            out.push(0x68);
            out.push(0x6f);
            out.push(0x70);
        },
        PromotionPiece::Knight => {
            out.push(0xa6);
            out.push(0x4b);
            out.push(0x6e);
            out.push(0x69);
            out.push(0x67);
            out.push(0x68);
            out.push(0x74);
        },
        PromotionPiece::Rook => {
            out.push(0xa4);
            out.push(0x52);
            out.push(0x6f);
            out.push(0x6f);
            out.push(0x6b);
        },
    }
    proof {
        assert(out@ =~= old(out)@ + enc_promo(p));
    }
}

/// Appends the encoding of an optional promotion piece to `out`.
fn push_opt_promo(out: &mut Vec<u8>, o: Option<PromotionPiece>)
    ensures
        final(out)@ == old(out)@ + enc_opt_promo(o),
{
    match o {
        None => {
            out.push(0xc0);
        },
        Some(p) => {
            push_promo(out, p);
        },
    }
    proof {
        assert(out@ =~= old(out)@ + enc_opt_promo(o));
    }
}

/// Appends the variant name of a game state to `out`.
fn push_game(out: &mut Vec<u8>, g: GameState)
    ensures
        final(out)@ == old(out)@ + enc_game(g),
{
    match g {
        GameState::InProgress => {
            out.push(0xaa);
            out.push(0x49);
            out.push(0x6e);
            out.push(0x50);
            out.push(0x72);
            out.push(0x6f);
            out.push(0x67);
            out.push(0x72);
            out.push(0x65);
            out.push(0x73);
            out.push(0x73);
        },
        GameState::CheckMate => {
            out.push(0xa9);
            out.push(0x43);
            out.push(0x68);
            out.push(0x65);
            out.push(0x63);
            out.push(0x6b);
            out.push(0x4d);
            out.push(0x61);
            out.push(0x74);
            out.push(0x65);
        },
        GameState::Draw => {
            out.push(0xa4);
            out.push(0x44);
            out.push(0x72);
            out.push(0x61);
            out.push(0x77);
        },
    }
    proof {
        assert(out@ =~= old(out)@ + enc_game(g));
    }
}

/// Appends the encoding of an optional game state to `out`.
fn push_opt_game(out: &mut Vec<u8>, o: Option<GameState>)
    ensures
        final(out)@ == old(out)@ + enc_opt_game(o),
{
    match o {
        None => {
            out.push(0xc0);
        },
        Some(g) => {
            push_game(out, g);
        },
    }
    proof {
        assert(out@ =~= old(out)@ + enc_opt_game(o));
    }
}

/// Encodes a `Start`. Succeeds exactly on well-formed values, yielding
/// their canonical encoding; a string too long for the wire's length
/// field, an over-long nanosecond remainder, or an increment without a
/// clock allotment is reported as an `EncodeError`.
pub fn encode_start(s: &Start) -> (r: Result<Vec<u8>, EncodeError>)
    ensures
        r matches Ok(bytes) ==> start_wf(s@) && bytes@ == spec_encode_start(s@),
        r is Err ==> !start_wf(s@) && r == Err::<Vec<u8>, EncodeError>(
            EncodeError { kind: MsgKind::Start },
        ),
{
    match &s.name {
        Some(n) => {
            if n.as_str().as_bytes().len() > 0xffff_ffff {
                return Err(EncodeError { kind: MsgKind::Start });
            }
        },
        None => {},
    }
    match &s.fen {
        Some(f) => {
            if f.as_str().as_bytes().len() > 0xffff_ffff {
                return Err(EncodeError { kind: MsgKind::Start });
            }
        },
        None => {},
    }
    match s.time {
        Some(t) => {
            if t.nanos >= 1_000_000_000 {
                return Err(EncodeError { kind: MsgKind::Start });
            }
        },
        None => {},
    }
    match s.inc {
        Some(i) => {
            if i.nanos >= 1_000_000_000 {
                return Err(EncodeError { kind: MsgKind::Start });
            }
            if s.time.is_none() {
                return Err(EncodeError { kind: MsgKind::Start });
            }
        },
        None => {},
    }
    let mut out: Vec<u8> = Vec::new();
    out.push(0x95);
    push_bool(&mut out, s.is_white);
    push_opt_str(&mut out, &s.name);
    push_opt_str(&mut out, &s.fen);
    push_opt_clock(&mut out, s.time);
    push_opt_clock(&mut out, s.inc);
    proof {
        assert(out@ =~= spec_encode_start(s@));
    }
    Ok(out)
}

/// Encodes a `Move`. Succeeds exactly on well-formed values — all four
/// square coordinates on the board — yielding their canonical encoding.
pub fn encode_move(m: &Move) -> (r: Result<Vec<u8>, EncodeError>)
    ensures
        r matches Ok(bytes) ==> move_wf(*m) && bytes@ == spec_encode_move(*m),
        r is Err ==> !move_wf(*m) && r == Err::<Vec<u8>, EncodeError>(
            EncodeError { kind: MsgKind::Move },
        ),
{
    if m.from.0 > 7 || m.from.1 > 7 || m.to.0 > 7 || m.to.1 > 7 {
        return Err(EncodeError { kind: MsgKind::Move });
    }
    let mut out: Vec<u8> = Vec::new();
    out.push(0x95);
    push_coord(&mut out, m.from);
    push_coord(&mut out, m.to);
    push_opt_promo(&mut out, m.promotion);
    push_bool(&mut out, m.forfeit);
    push_bool(&mut out, m.offer_draw);
    proof {
        assert(out@ =~= spec_encode_move(*m));
    }
    Ok(out)
}

/// Encodes an `Ack`. Every `Ack` value is representable, so this always
/// succeeds, yielding the canonical encoding.
pub fn encode_ack(a: &Ack) -> (r: Result<Vec<u8>, EncodeError>)
    ensures
        r matches Ok(bytes) && bytes@ == spec_encode_ack(*a),
{
    let mut out: Vec<u8> = Vec::new();
    out.push(0x92);
    push_bool(&mut out, a.ok);
    push_opt_game(&mut out, a.end_state);
    proof {
        assert(out@ =~= spec_encode_ack(*a));
    }
    Ok(out)
}

/// True exactly when the bytes of `pat` occur in `b` at `pos`.
fn bytes_match(b: &[u8], pos: usize, pat: &[u8]) -> (r: bool)
    requires
        pos <= b@.len(),
    ensures
        r == starts_with(b@, pos as int, pat@),
        b@.len() <= usize::MAX,
{
    let m = pat.len();
    if b.len() - pos < m {
        proof {
            if starts_with(b@, pos as int, pat@) {
                assert(false);
            }
        }
        return false;
    }
    let mut i: usize = 0;
    while i < m
        invariant
            pos + m <= b@.len(),
            b@.len() <= usize::MAX,
            m == pat@.len(),
            i <= m,
            forall|j: int| 0 <= j < i ==> b@[pos + j] == pat@[j],
        decreases m - i,
    {
        if *slice_index_get(b, pos + i) != *slice_index_get(pat, i) {
            proof {
                if starts_with(b@, pos as int, pat@) {
                    lemma_starts_with_index(b@, pos as int, pat@, i as int);
                    assert(false);
                }
            }
            return false;
        }
        i = i + 1;
    }
    proof {
        assert(b@.subrange(pos as int, pos + pat@.len()) =~= pat@);
    }
    true
}

/// Reads a shortest-form unsigned integer at `pos`, as the spec parser
/// describes.
fn read_uint(b: &[u8], pos: usize) -> (r: Option<(u64, usize)>)
    requires
        pos <= b@.len(),
    ensures
        r matches Some((v, end)) ==> parse_uint(b@, pos as int) == Some((v, end as int)) && pos
            < end <= b@.len(),
        r is None ==> parse_uint(b@, pos as int) is None,
{
    let n = b.len();
    if pos >= n {
        return None;
    }
    let t = *slice_index_get(b, pos);
    if t <= 0x7f {
        Some((t as u64, pos + 1))
    } else if t == 0xcc {
        if n - pos >= 2 {
            let v = *slice_index_get(b, pos + 1);
            if v > 0x7f {
                Some((v as u64, pos + 2))
            } else {
                None
            }
        } else {
            None
        }
    } else if t == 0xcd {
        if n - pos >= 3 {
            let v = ((*slice_index_get(b, pos + 1) as u64) << 8) | (*slice_index_get(
                b,
                pos + 2,
            ) as u64);
            if v > 0xff {
                Some((v, pos + 3))
            } else {
                None
            }
        } else {
            None
        }
    } else if t == 0xce {
        if n - pos >= 5 {
            let v = ((*slice_index_get(b, pos + 1) as u64) << 24) | ((*slice_index_get(
                b,
                pos + 2,
            ) as u64) << 16) | ((*slice_index_get(b, pos + 3) as u64) << 8) | (*slice_index_get(
                b,
                pos + 4,
            ) as u64);
            if v > 0xffff {
                Some((v, pos + 5))
            } else {
                None
            }
        } else {
            None
        }
    } else if t == 0xcf {
        if n - pos >= 9 {
            let v = ((*slice_index_get(b, pos + 1) as u64) << 56) | ((*slice_index_get(
                b,
                pos + 2,
            ) as u64) << 48) | ((*slice_index_get(b, pos + 3) as u64) << 40) | ((*slice_index_get(
                b,
                pos + 4,
            ) as u64) << 32) | ((*slice_index_get(b, pos + 5) as u64) << 24) | ((*slice_index_get(
                b,
                pos + 6,
            ) as u64) << 16) | ((*slice_index_get(b, pos + 7) as u64) << 8) | (*slice_index_get(
                b,
                pos + 8,
            ) as u64);
            if v > 0xffff_ffff {
                Some((v, pos + 9))
            } else {
                None
            }
        } else {
            None
        }
    } else {
        None
    }
}

/// Reads a boolean tag byte at `pos`, as the spec parser describes.
fn read_bool(b: &[u8], pos: usize) -> (r: Option<(bool, usize)>)
    requires
        pos <= b@.len(),
    ensures
        r matches Some((v, end)) ==> parse_bool(b@, pos as int) == Some((v, end as int)) && pos
            < end <= b@.len(),
        r is None ==> parse_bool(b@, pos as int) is None,
{
    if pos >= b.len() {
        return None;
    }
    let t = *slice_index_get(b, pos);
    if t == 0xc2 {
        Some((false, pos + 1))
    } else if t == 0xc3 {
        Some((true, pos + 1))
    } else {
        None
    }
}

/// Reads a shortest-form string length at `pos`, as the spec parser
/// describes.
fn read_strhead(b: &[u8], pos: usize) -> (r: Option<(u64, usize)>)
    requires
        pos <= b@.len(),
    ensures
        r matches Some((l, end)) ==> parse_strhead(b@, pos as int) == Some((l, end as int)) && pos
            < end <= b@.len(),
        r is None ==> parse_strhead(b@, pos as int) is None,
{
    let n = b.len();
    if pos >= n {
        return None;
    }
    let t = *slice_index_get(b, pos);
    if 0xa0 <= t && t <= 0xbf {
        Some(((t & 0x1f) as u64, pos + 1))
    } else if t == 0xd9 {
        if n - pos >= 2 {
            let l = *slice_index_get(b, pos + 1);
            if l >= 32 {
                Some((l as u64, pos + 2))
            } else {
                None
            }
        } else {
            None
        }
    } else if t == 0xda {
        if n - pos >= 3 {
            let l = ((*slice_index_get(b, pos + 1) as u64) << 8) | (*slice_index_get(
                b,
                pos + 2,
            ) as u64);
            if l > 0xff {
                Some((l, pos + 3))
            } else {
                None
            }
        } else {
            None
        }
    } else if t == 0xdb {
        if n - pos >= 5 {
            let l = ((*slice_index_get(b, pos + 1) as u64) << 24) | ((*slice_index_get(
                b,
                pos + 2,
            ) as u64) << 16) | ((*slice_index_get(b, pos + 3) as u64) << 8) | (*slice_index_get(
                b,
                pos + 4,
            ) as u64);
            if l > 0xffff {
                Some((l, pos + 5))
            } else {
                None
            }
        } else {
            None
        }
    } else {
        None
    }
}

/// Reads a string at `pos`, as the spec parser describes: a length, that
/// many bytes, and a UTF-8 validity check.
fn read_str(b: &[u8], pos: usize) -> (r: Option<(String, usize)>)
    requires
        pos <= b@.len(),
    ensures
        r matches Some((s, end)) ==> parse_str(b@, pos as int) == Some((s@, end as int)) && pos
            < end <= b@.len(),
        r is None ==> parse_str(b@, pos as int) is None,
{
    match read_strhead(b, pos) {
        None => None,
        Some((l, dstart)) => {
            if l <= (b.len() - dstart) as u64 {
                let lu = l as usize;
                let data = slice_subrange(b, dstart, dstart + lu);
                let v = slice_to_vec(data);
                match bytes_to_string(v) {
                    Some(s) => {
                        proof {
                            vstd::utf8::encode_utf8_decode_utf8(s@);
                        }
                        Some((s, dstart + lu))
                    },
                    None => None,
                }
            } else {
                None
            }
        },
    }
}

/// Reads an optional string at `pos`: nil means absent.
fn read_opt_str(b: &[u8], pos: usize) -> (r: Option<(Option<String>, usize)>)
    requires
        pos <= b@.len(),
    ensures
        r matches Some((o, end)) ==> parse_opt_str(b@, pos as int) == Some(
            (opt_str_view(o), end as int),
        ) && pos < end <= b@.len(),
        r is None ==> parse_opt_str(b@, pos as int) is None,
{
    if pos < b.len() && *slice_index_get(b, pos) == 0xc0 {
        Some((None, pos + 1))
    } else {
        match read_str(b, pos) {
            Some((s, end)) => Some((Some(s), end)),
            None => None,
        }
    }
}

/// Reads a clock amount at `pos`, as the spec parser describes.
fn read_clock(b: &[u8], pos: usize) -> (r: Option<(ClockTime, usize)>)
    requires
        pos <= b@.len(),
    ensures
        r matches Some((c, end)) ==> parse_clock(b@, pos as int) == Some((c, end as int)) && pos
            < end <= b@.len() && clock_wf(c),
        r is None ==> parse_clock(b@, pos as int) is None,
{
    if pos >= b.len() || *slice_index_get(b, pos) != 0x92 {
        return None;
    }
    match read_uint(b, pos + 1) {
        None => None,
        Some((secs, p1)) => match read_uint(b, p1) {
            None => None,
            Some((nanos, p2)) => {
                if nanos < 1_000_000_000 {
                    Some((ClockTime { secs, nanos: nanos as u32 }, p2))
                } else {
                    None
                }
            },
        },
    }
}

/// Reads an optional clock amount at `pos`.
fn read_opt_clock(b: &[u8], pos: usize) -> (r: Option<(Option<ClockTime>, usize)>)
    requires
        pos <= b@.len(),
    ensures
        r matches Some((o, end)) ==> parse_opt_clock(b@, pos as int) == Some((o, end as int))
            && pos < end <= b@.len() && (o matches Some(c) ==> clock_wf(c)),
        r is None ==> parse_opt_clock(b@, pos as int) is None,
{
    if pos < b.len() && *slice_index_get(b, pos) == 0xc0 {
        Some((None, pos + 1))
    } else {
        match read_clock(b, pos) {
            Some((c, end)) => Some((Some(c), end)),
            None => None,
        }
    }
}

/// Reads a board square at `pos`, as the spec parser describes.
fn read_coord(b: &[u8], pos: usize) -> (r: Option<((u8, u8), usize)>)
    requires
        pos <= b@.len(),
    ensures
        r matches Some((c, end)) ==> parse_coord(b@, pos as int) == Some((c, end as int)) && pos
            < end <= b@.len(),
        r is None ==> parse_coord(b@, pos as int) is None,
{
    if pos >= b.len() || *slice_index_get(b, pos) != 0x92 {
        return None;
    }
    match read_uint(b, pos + 1) {
        None => None,
        Some((f, p1)) => match read_uint(b, p1) {
            None => None,
            Some((rk, p2)) => {
                if f <= 7 && rk <= 7 {
                    Some(((f as u8, rk as u8), p2))
                } else {
                    None
                }
            },
        },
    }
}

/// Reads a promotion piece at `pos`: one of the four variant names.
fn read_promo(b: &[u8], pos: usize) -> (r: Option<(PromotionPiece, usize)>)
    requires
        pos <= b@.len(),
    ensures
        r matches Some((p, end)) ==> parse_promo(b@, pos as int) == Some((p, end as int)) && pos
            < end <= b@.len(),
        r is None ==> parse_promo(b@, pos as int) is None,
{
    let queen: Vec<u8> = vec![0xa5, 0x51, 0x75, 0x65, 0x65, 0x6e];
    proof {
        assert(queen@ =~= enc_promo(PromotionPiece::Queen));
    }
    if bytes_match(b, pos, queen.as_slice()) {
        proof {
            assert(queen@.len() == 6);
        }
        return Some((PromotionPiece::Queen, pos + 6));
    }
    let bishop: Vec<u8> = vec![0xa6, 0x42, 0x69, 0x73, 0x68, 0x6f, 0x70];
    proof {
        assert(bishop@ =~= enc_promo(PromotionPiece::Bishop));
    }
    if bytes_match(b, pos, bishop.as_slice()) {
        proof {
            assert(bishop@.len() == 7);
        }
        return Some((PromotionPiece::Bishop, pos + 7));
    }
    let knight: Vec<u8> = vec![0xa6, 0x4b, 0x6e, 0x69, 0x67, 0x68, 0x74];
    proof {
        assert(knight@ =~= enc_promo(PromotionPiece::Knight));
    }
    if bytes_match(b, pos, knight.as_slice()) {
        proof {
            assert(knight@.len() == 7);
        }
        return Some((PromotionPiece::Knight, pos + 7));
    }
    let rook: Vec<u8> = vec![0xa4, 0x52, 0x6f, 0x6f, 0x6b];
    proof {
        assert(rook@ =~= enc_promo(PromotionPiece::Rook));
    }
    if bytes_match(b, pos, rook.as_slice()) {
        proof {
            assert(rook@.len() == 5);
        }
        return Some((PromotionPiece::Rook, pos + 5));
    }
    None
}

/// Reads an optional promotion piece at `pos`.
fn read_opt_promo(b: &[u8], pos: usize) -> (r: Option<(Option<PromotionPiece>, usize)>)
    requires
        pos <= b@.len(),
    ensures
        r matches Some((o, end)) ==> parse_opt_promo(b@, pos as int) == Some((o, end as int))
            && pos < end <= b@.len(),
        r is None ==> parse_opt_promo(b@, pos as int) is None,
{
    if pos < b.len() && *slice_index_get(b, pos) == 0xc0 {
        Some((None, pos + 1))
    } else {
        match read_promo(b, pos) {
            Some((p, end)) => Some((Some(p), end)),
            None => None,
        }
    }
}

/// Reads a game state at `pos`: one of the three variant names.
fn read_game(b: &[u8], pos: usize) -> (r: Option<(GameState, usize)>)
    requires
        pos <= b@.len(),
    ensures
        r matches Some((g, end)) ==> parse_game(b@, pos as int) == Some((g, end as int)) && pos
            < end <= b@.len(),
        r is None ==> parse_game(b@, pos as int) is None,
{
    let in_progress: Vec<u8> = vec![
        0xaa,
        0x49,
        0x6e,
        0x50,
        0x72,
        0x6f,
        0x67,
        0x72,
        0x65,
        0x73,
        0x73,
    ];
    proof {
        assert(in_progress@ =~= enc_game(GameState::InProgress));
    }
    if bytes_match(b, pos, in_progress.as_slice()) {
        proof {
            assert(in_progress@.len() == 11);
        }
        return Some((GameState::InProgress, pos + 11));
    }
    let check_mate: Vec<u8> = vec![0xa9, 0x43, 0x68, 0x65, 0x63, 0x6b, 0x4d, 0x61, 0x74, 0x65];
    proof {
        assert(check_mate@ =~= enc_game(GameState::CheckMate));
    }
    if bytes_match(b, pos, check_mate.as_slice()) {
        proof {
            assert(check_mate@.len() == 10);
        }
        return Some((GameState::CheckMate, pos + 10));
    }
    let draw: Vec<u8> = vec![0xa4, 0x44, 0x72, 0x61, 0x77];
    proof {
        assert(draw@ =~= enc_game(GameState::Draw));
    }
    if bytes_match(b, pos, draw.as_slice()) {
        proof {
            assert(draw@.len() == 5);
        }
        return Some((GameState::Draw, pos + 5));
    }
    None
}

/// Reads an optional game state at `pos`.
fn read_opt_game(b: &[u8], pos: usize) -> (r: Option<(Option<GameState>, usize)>)
    requires
        pos <= b@.len(),
    ensures
        r matches Some((o, end)) ==> parse_opt_game(b@, pos as int) == Some((o, end as int)) && pos
            < end <= b@.len(),
        r is None ==> parse_opt_game(b@, pos as int) is None,
{
    if pos < b.len() && *slice_index_get(b, pos) == 0xc0 {
        Some((None, pos + 1))
    } else {
        match read_game(b, pos) {
            Some((g, end)) => Some((Some(g), end)),
            None => None,
        }
    }
}

/// Decodes a whole buffer as a `Start`, exactly as the spec-level
/// decoder describes: the only accepted inputs are the canonical
/// encodings of well-formed values, and the decoded value re-encodes to
/// the input bytes.
pub fn decode_start(b: &[u8]) -> (r: Result<Start, DecodeError>)
    ensures
        r matches Ok(v) ==> spec_decode_start(b@) == Some(v@),
        r is Err ==> spec_decode_start(b@) is None && r == Err::<Start, DecodeError>(
            DecodeError { expected: MsgKind::Start },
        ),
{
    let n = b.len();
    if n < 1 || *slice_index_get(b, 0) != 0x95 {
        return Err(DecodeError { expected: MsgKind::Start });
    }
    let (is_white, p1) = match read_bool(b, 1) {
        Some(x) => x,
        None => {
            return Err(DecodeError { expected: MsgKind::Start });
        },
    };
    let (name, p2) = match read_opt_str(b, p1) {
        Some(x) => x,
        None => {
            return Err(DecodeError { expected: MsgKind::Start });
        },
    };
    let (fen, p3) = match read_opt_str(b, p2) {
        Some(x) => x,
        None => {
            return Err(DecodeError { expected: MsgKind::Start });
        },
    };
    let (time, p4) = match read_opt_clock(b, p3) {
        Some(x) => x,
        None => {
            return Err(DecodeError { expected: MsgKind::Start });
        },
    };
    let (inc, p5) = match read_opt_clock(b, p4) {
        Some(x) => x,
        None => {
            return Err(DecodeError { expected: MsgKind::Start });
        },
    };
    if p5 != n {
        return Err(DecodeError { expected: MsgKind::Start });
    }
    if inc.is_some() && time.is_none() {
        return Err(DecodeError { expected: MsgKind::Start });
    }
    let s = Start { is_white, name, fen, time, inc };
    Ok(s)
}

/// Decodes a whole buffer as a `Move`, exactly as the spec-level decoder
/// describes.
pub fn decode_move(b: &[u8]) -> (r: Result<Move, DecodeError>)
    ensures
        r matches Ok(v) ==> spec_decode_move(b@) == Some(v),
        r is Err ==> spec_decode_move(b@) is None && r == Err::<Move, DecodeError>(
            DecodeError { expected: MsgKind::Move },
        ),
{
    let n = b.len();
    if n < 1 || *slice_index_get(b, 0) != 0x95 {
        return Err(DecodeError { expected: MsgKind::Move });
    }
    let (from, p1) = match read_coord(b, 1) {
        Some(x) => x,
        None => {
            return Err(DecodeError { expected: MsgKind::Move });
        },
    };
    let (to, p2) = match read_coord(b, p1) {
        Some(x) => x,
        None => {
            return Err(DecodeError { expected: MsgKind::Move });
        },
    };
    let (promotion, p3) = match read_opt_promo(b, p2) {
        Some(x) => x,
        None => {
            return Err(DecodeError { expected: MsgKind::Move });
        },
    };
    let (forfeit, p4) = match read_bool(b, p3) {
        Some(x) => x,
        None => {
            return Err(DecodeError { expected: MsgKind::Move });
        },
    };
    let (offer_draw, p5) = match read_bool(b, p4) {
        Some(x) => x,
        None => {
            return Err(DecodeError { expected: MsgKind::Move });
        },
    };
    if p5 != n {
        return Err(DecodeError { expected: MsgKind::Move });
    }
    Ok(Move { from, to, promotion, forfeit, offer_draw })
}

/// Decodes a whole buffer as an `Ack`, exactly as the spec-level decoder
/// describes.
pub fn decode_ack(b: &[u8]) -> (r: Result<Ack, DecodeError>)
    ensures
        r matches Ok(v) ==> spec_decode_ack(b@) == Some(v),
        r is Err ==> spec_decode_ack(b@) is None && r == Err::<Ack, DecodeError>(
            DecodeError { expected: MsgKind::Ack },
        ),
{
    let n = b.len();
    if n < 1 || *slice_index_get(b, 0) != 0x92 {
        return Err(DecodeError { expected: MsgKind::Ack });
    }
    let (ok, p1) = match read_bool(b, 1) {
        Some(x) => x,
        None => {
            return Err(DecodeError { expected: MsgKind::Ack });
        },
    };
    let (end_state, p2) = match read_opt_game(b, p1) {
        Some(x) => x,
        None => {
            return Err(DecodeError { expected: MsgKind::Ack });
        },
    };
    if p2 != n {
        return Err(DecodeError { expected: MsgKind::Ack });
    }
    Ok(Ack { ok, end_state })
}

} // verus!
