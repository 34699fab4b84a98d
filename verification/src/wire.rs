//! The wire format, as mathematics: one spec-level encoding function and
//! one spec-level parser per wire element, and the lemmas that tie them
//! together.
//!
//! The format is self-describing and canonical. Every element starts with
//! a tag byte: booleans are `0xc2`/`0xc3`, an absent optional is the nil
//! byte `0xc0`, fixed-size records are fix-arrays (`0x90 | n`), unsigned
//! integers use the shortest of positive-fixint/8/16/32/64-bit forms
//! (`0xcc`/`0xcd`/`0xce`/`0xcf`, big-endian), strings carry their UTF-8
//! byte length in the shortest of fixstr/8/16/32-bit forms
//! (`0xa0 | n`/`0xd9`/`0xda`/`0xdb`) and enumeration variants are their
//! name as a string. The parsers accept exactly the encoders' image: a
//! non-shortest integer or length form, an unknown variant name, or an
//! out-of-range field is not the encoding of any value and is refused.

use vstd::prelude::*;
use vstd::utf8::{decode_utf8, encode_utf8, valid_utf8};

use crate::msg::{clock_wf, move_wf, start_wf, Ack, ClockTime, GameState, Move, PromotionPiece,
    StartV};

verus! {

/// True when `pat` occurs in `b` starting at index `pos`.
pub open spec fn starts_with(b: Seq<u8>, pos: int, pat: Seq<u8>) -> bool {
    &&& 0 <= pos
    &&& pos + pat.len() <= b.len()
    &&& b.subrange(pos, pos + pat.len()) == pat
}

/// Shortest-form encoding of an unsigned integer.
pub open spec fn enc_uint(n: u64) -> Seq<u8> {
    if n <= 0x7f {
        seq![(n & 0xff) as u8]
    } else if n <= 0xff {
        seq![0xccu8, (n & 0xff) as u8]
    } else if n <= 0xffff {
        seq![0xcdu8, ((n >> 8) & 0xff) as u8, (n & 0xff) as u8]
    } else if n <= 0xffff_ffff {
        seq![
            0xceu8,
            ((n >> 24) & 0xff) as u8,
            ((n >> 16) & 0xff) as u8,
            ((n >> 8) & 0xff) as u8,
            (n & 0xff) as u8,
        ]
    } else {
        seq![
            0xcfu8,
            ((n >> 56) & 0xff) as u8,
            ((n >> 48) & 0xff) as u8,
            ((n >> 40) & 0xff) as u8,
            ((n >> 32) & 0xff) as u8,
            ((n >> 24) & 0xff) as u8,
            ((n >> 16) & 0xff) as u8,
            ((n >> 8) & 0xff) as u8,
            (n & 0xff) as u8,
        ]
    }
}

/// Parses a shortest-form unsigned integer at `pos`; yields the value and
/// the position just past it. A wider-than-necessary form is refused.
pub open spec fn parse_uint(b: Seq<u8>, pos: int) -> Option<(u64, int)> {
    if pos < 0 || pos >= b.len() {
        None
    } else {
        let t = b[pos];
        if t <= 0x7f {
            Some((t as u64, pos + 1))
        } else if t == 0xcc {
            if pos + 2 <= b.len() && b[pos + 1] > 0x7f {
                Some((b[pos + 1] as u64, pos + 2))
            } else {
                None
            }
        } else if t == 0xcd {
            if pos + 3 <= b.len() {
                let v = ((b[pos + 1] as u64) << 8) | (b[pos + 2] as u64);
                if v > 0xff {
                    Some((v, pos + 3))
                } else {
                    None
                }
            } else {
                None
            }
        } else if t == 0xce {
            if pos + 5 <= b.len() {
                let v = ((b[pos + 1] as u64) << 24) | ((b[pos + 2] as u64) << 16) | ((b[pos
                    + 3] as u64) << 8) | (b[pos + 4] as u64);
                if v > 0xffff {
                    Some((v, pos + 5))
                } else {
                    None
                }
            } else {
                None
            }
        } else if t == 0xcf {
            if pos + 9 <= b.len() {
                let v = ((b[pos + 1] as u64) << 56) | ((b[pos + 2] as u64) << 48) | ((b[pos
                    + 3] as u64) << 40) | ((b[pos + 4] as u64) << 32) | ((b[pos + 5] as u64) << 24)
                    | ((b[pos + 6] as u64) << 16) | ((b[pos + 7] as u64) << 8) | (b[pos + 8] as u64);
                if v > 0xffff_ffff {
                    Some((v, pos + 9))
                } else {
                    None
                }
            } else {
                None
            }
        } else {
            None
        }
    }
}

/// Encoding of a boolean: one tag byte.
pub open spec fn enc_bool(v: bool) -> Seq<u8> {
    if v {
        seq![0xc3u8]
    } else {
        seq![0xc2u8]
    }
}

/// Parses a boolean tag byte at `pos`.
pub open spec fn parse_bool(b: Seq<u8>, pos: int) -> Option<(bool, int)> {
    if 0 <= pos && pos < b.len() {
        if b[pos] == 0xc2 {
            Some((false, pos + 1))
        } else if b[pos] == 0xc3 {
            Some((true, pos + 1))
        } else {
            None
        }
    } else {
        None
    }
}

/// The bytes of a pattern that occurs at `pos` can be read off one by
/// one: byte `i` of the pattern stands at `pos + i` of the buffer.
pub proof fn lemma_starts_with_index(b: Seq<u8>, pos: int, pat: Seq<u8>, i: int)
    requires
        starts_with(b, pos, pat),
        0 <= i < pat.len(),
    ensures
        b[pos + i] == pat[i],
{
    assert(b.subrange(pos, pos + pat.len())[i] == b[pos + i]);
}

/// Every byte of a pattern that occurs at `pos` can be read off the
/// buffer; stated with a trigger on the buffer index, so a parser's byte
/// lookups find it.
pub proof fn lemma_starts_with_all(b: Seq<u8>, pos: int, pat: Seq<u8>)
    requires
        starts_with(b, pos, pat),
    ensures
        forall|j: int| pos <= j < pos + pat.len() ==> b[j] == pat[j - pos],
{
    assert forall|j: int| pos <= j < pos + pat.len() implies b[j] == pat[j - pos] by {
        lemma_starts_with_index(b, pos, pat, j - pos);
    }
}

/// Parsing the encoding of an unsigned integer yields that integer back
/// and consumes exactly the encoding, wherever it sits in a buffer.
pub proof fn lemma_parse_uint_enc(b: Seq<u8>, pos: int, n: u64)
    requires
        starts_with(b, pos, enc_uint(n)),
    ensures
        parse_uint(b, pos) == Some((n, pos + enc_uint(n).len())),
{
    let e = enc_uint(n);
    lemma_starts_with_all(b, pos, e);
    assert(b[pos] == e[0]);
    if e.len() > 1 {
        assert(b[pos + 1] == e[1]);
    }
    if e.len() > 2 {
        assert(b[pos + 2] == e[2]);
    }
    if e.len() > 4 {
        assert(b[pos + 3] == e[3]);
        assert(b[pos + 4] == e[4]);
    }
    if e.len() > 8 {
        assert(b[pos + 5] == e[5]);
        assert(b[pos + 6] == e[6]);
        assert(b[pos + 7] == e[7]);
        assert(b[pos + 8] == e[8]);
    }
    if n <= 0x7f {
        assert(((n & 0xff) as u8) <= 0x7f && ((n & 0xff) as u8) as u64 == n) by (bit_vector)
            requires
                n <= 0x7f,
        ;
    } else if n <= 0xff {
        assert(((n & 0xff) as u8) > 0x7f && ((n & 0xff) as u8) as u64 == n) by (bit_vector)
            requires
                0x7f < n <= 0xff,
        ;
    } else if n <= 0xffff {
        assert(((((((n >> 8) & 0xff) as u8) as u64) << 8) | (((n & 0xff) as u8) as u64)) == n)
            by (bit_vector)
            requires
                0xff < n <= 0xffff,
        ;
    } else if n <= 0xffff_ffff {
        assert(((((((n >> 24) & 0xff) as u8) as u64) << 24) | (((((n >> 16) & 0xff) as u8) as u64)
            << 16) | (((((n >> 8) & 0xff) as u8) as u64) << 8) | (((n & 0xff) as u8) as u64)) == n)
            by (bit_vector)
            requires
                0xffff < n <= 0xffff_ffff,
        ;
    } else {
        assert(((((((n >> 56) & 0xff) as u8) as u64) << 56) | (((((n >> 48) & 0xff) as u8) as u64)
            << 48) | (((((n >> 40) & 0xff) as u8) as u64) << 40) | (((((n >> 32) & 0xff) as u8)
            as u64) << 32) | (((((n >> 24) & 0xff) as u8) as u64) << 24) | (((((n >> 16)
            & 0xff) as u8) as u64) << 16) | (((((n >> 8) & 0xff) as u8) as u64) << 8) | (((n
            & 0xff) as u8) as u64)) == n) by (bit_vector)
            requires
                0xffff_ffff < n,
        ;
    }
}

/// Parsing the encoding of a boolean yields that boolean back.
pub proof fn lemma_parse_bool_enc(b: Seq<u8>, pos: int, v: bool)
    requires
        starts_with(b, pos, enc_bool(v)),
    ensures
        parse_bool(b, pos) == Some((v, pos + 1)),
{
    assert(b.subrange(pos, pos + 1)[0] == b[pos]);
}

/// A pattern made of two pieces occurs at `pos` exactly when the first
/// piece occurs at `pos` and the second just past it.
pub proof fn lemma_starts_with_concat(b: Seq<u8>, pos: int, x: Seq<u8>, y: Seq<u8>)
    requires
        starts_with(b, pos, x + y),
    ensures
        starts_with(b, pos, x),
        starts_with(b, pos + x.len(), y),
{
    lemma_starts_with_all(b, pos, x + y);
    assert(b.subrange(pos, pos + x.len()) =~= x);
    assert(b.subrange(pos + x.len(), pos + x.len() + y.len()) =~= y);
}

/// Shortest-form encoding of a string's UTF-8 byte length.
pub open spec fn enc_strhead(l: u64) -> Seq<u8> {
    if l <= 31 {
        seq![((0xa0 | (l & 0x1f)) as u8)]
    } else if l <= 0xff {
        seq![0xd9u8, (l & 0xff) as u8]
    } else if l <= 0xffff {
        seq![0xdau8, ((l >> 8) & 0xff) as u8, (l & 0xff) as u8]
    } else {
        seq![
            0xdbu8,
            ((l >> 24) & 0xff) as u8,
            ((l >> 16) & 0xff) as u8,
            ((l >> 8) & 0xff) as u8,
            (l & 0xff) as u8,
        ]
    }
}

/// Parses a shortest-form string length at `pos`.
pub open spec fn parse_strhead(b: Seq<u8>, pos: int) -> Option<(u64, int)> {
    if pos < 0 || pos >= b.len() {
        None
    } else {
        let t = b[pos];
        if 0xa0 <= t && t <= 0xbf {
            Some(((t & 0x1f) as u64, pos + 1))
        } else if t == 0xd9 {
            if pos + 2 <= b.len() && b[pos + 1] >= 32 {
                Some((b[pos + 1] as u64, pos + 2))
            } else {
                None
            }
        } else if t == 0xda {
            if pos + 3 <= b.len() {
                let l = ((b[pos + 1] as u64) << 8) | (b[pos + 2] as u64);
                if l > 0xff {
                    Some((l, pos + 3))
                } else {
                    None
                }
            } else {
                None
            }
        } else if t == 0xdb {
            if pos + 5 <= b.len() {
                let l = ((b[pos + 1] as u64) << 24) | ((b[pos + 2] as u64) << 16) | ((b[pos
                    + 3] as u64) << 8) | (b[pos + 4] as u64);
                if l > 0xffff {
                    Some((l, pos + 5))
                } else {
                    None
                }
            } else {
                None
            }
        } else {
            None
        }
    }
}

/// Encoding of a string: its UTF-8 byte length, then its UTF-8 bytes.
pub open spec fn enc_str(s: Seq<char>) -> Seq<u8> {
    enc_strhead(encode_utf8(s).len() as u64) + encode_utf8(s)
}

/// Parses a string at `pos`: a length, then that many bytes, which must
/// be valid UTF-8.
pub open spec fn parse_str(b: Seq<u8>, pos: int) -> Option<(Seq<char>, int)> {
    match parse_strhead(b, pos) {
        Some((l, dstart)) => {
            if dstart + l <= b.len() {
                let data = b.subrange(dstart, dstart + l as int);
                if valid_utf8(data) {
                    Some((decode_utf8(data), dstart + l as int))
                } else {
                    None
                }
            } else {
                None
            }
        },
        None => None,
    }
}

/// Parsing the encoding of a string length yields that length back.
pub proof fn lemma_parse_strhead_enc(b: Seq<u8>, pos: int, l: u64)
    requires
        l <= 0xffff_ffff,
        starts_with(b, pos, enc_strhead(l)),
    ensures
        parse_strhead(b, pos) == Some((l, pos + enc_strhead(l).len())),
{
    let e = enc_strhead(l);
    lemma_starts_with_all(b, pos, e);
    assert(b[pos] == e[0]);
    if e.len() > 1 {
        assert(b[pos + 1] == e[1]);
    }
    if e.len() > 2 {
        assert(b[pos + 2] == e[2]);
    }
    if e.len() > 4 {
        assert(b[pos + 3] == e[3]);
        assert(b[pos + 4] == e[4]);
    }
    if l <= 31 {
        assert(0xa0 <= ((0xa0 | (l & 0x1f)) as u8) && ((0xa0 | (l & 0x1f)) as u8) <= 0xbf && ((((
        0xa0 | (l & 0x1f)) as u8) & 0x1f) as u64) == l) by (bit_vector)
            requires
                l <= 31,
        ;
    } else if l <= 0xff {
        assert(((l & 0xff) as u8) >= 32 && ((l & 0xff) as u8) as u64 == l) by (bit_vector)
            requires
                31 < l <= 0xff,
        ;
    } else if l <= 0xffff {
        assert(((((((l >> 8) & 0xff) as u8) as u64) << 8) | (((l & 0xff) as u8) as u64)) == l)
            by (bit_vector)
            requires
                0xff < l <= 0xffff,
        ;
    } else {
        assert(((((((l >> 24) & 0xff) as u8) as u64) << 24) | (((((l >> 16) & 0xff) as u8) as u64)
            << 16) | (((((l >> 8) & 0xff) as u8) as u64) << 8) | (((l & 0xff) as u8) as u64)) == l)
            by (bit_vector)
            requires
                0xffff < l <= 0xffff_ffff,
        ;
    }
}

/// Parsing the encoding of a string yields that string back.
pub proof fn lemma_parse_str_enc(b: Seq<u8>, pos: int, s: Seq<char>)
    requires
        encode_utf8(s).len() < 0x1_0000_0000,
        starts_with(b, pos, enc_str(s)),
    ensures
        parse_str(b, pos) == Some((s, pos + enc_str(s).len())),
{
    let u = encode_utf8(s);
    let l = u.len() as u64;
    let h = enc_strhead(l);
    lemma_starts_with_concat(b, pos, h, u);
    lemma_parse_strhead_enc(b, pos, l);
    let dstart = pos + h.len();
    assert(b.subrange(dstart, dstart + l as int) == u);
    vstd::utf8::encode_utf8_valid_utf8(s);
    vstd::utf8::encode_utf8_decode_utf8(s);
}

/// Encoding of a clock amount: a two-element array of seconds and
/// nanoseconds.
pub open spec fn enc_clock(c: ClockTime) -> Seq<u8> {
    seq![0x92u8] + enc_uint(c.secs) + enc_uint(c.nanos as u64)
}

/// Parses a clock amount at `pos`. The nanosecond field must stay below
/// one second, as every well-formed value keeps it.
pub open spec fn parse_clock(b: Seq<u8>, pos: int) -> Option<(ClockTime, int)> {
    if 0 <= pos && pos < b.len() && b[pos] == 0x92 {
        match parse_uint(b, pos + 1) {
            Some((secs, p1)) => match parse_uint(b, p1) {
                Some((nanos, p2)) => if nanos < 1_000_000_000 {
                    Some((ClockTime { secs, nanos: nanos as u32 }, p2))
                } else {
                    None
                },
                None => None,
            },
            None => None,
        }
    } else {
        None
    }
}

/// Encoding of a board square: a two-element array of file and rank.
pub open spec fn enc_coord(c: (u8, u8)) -> Seq<u8> {
    seq![0x92u8] + enc_uint(c.0 as u64) + enc_uint(c.1 as u64)
}

/// Parses a board square at `pos`. Both coordinates must lie on the
/// board, that is in `[0, 7]`.
pub open spec fn parse_coord(b: Seq<u8>, pos: int) -> Option<((u8, u8), int)> {
    if 0 <= pos && pos < b.len() && b[pos] == 0x92 {
        match parse_uint(b, pos + 1) {
            Some((f, p1)) => match parse_uint(b, p1) {
                Some((r, p2)) => if f <= 7 && r <= 7 {
                    Some(((f as u8, r as u8), p2))
                } else {
                    None
                },
                None => None,
            },
            None => None,
        }
    } else {
        None
    }
}

/// Encoding of a promotion piece: its variant name as a string.
pub open spec fn enc_promo(p: PromotionPiece) -> Seq<u8> {
    match p {
        PromotionPiece::Queen => seq![0xa5u8, 0x51, 0x75, 0x65, 0x65, 0x6e],
        PromotionPiece::Bishop => seq![0xa6u8, 0x42, 0x69, 0x73, 0x68, 0x6f, 0x70],
        PromotionPiece::Knight => seq![0xa6u8, 0x4b, 0x6e, 0x69, 0x67, 0x68, 0x74],
        PromotionPiece::Rook => seq![0xa4u8, 0x52, 0x6f, 0x6f, 0x6b],
    }
}

/// Parses a promotion piece at `pos`: one of the four variant names; any
/// other string is outside the known variant set and refused.
pub open spec fn parse_promo(b: Seq<u8>, pos: int) -> Option<(PromotionPiece, int)> {
    if starts_with(b, pos, enc_promo(PromotionPiece::Queen)) {
        Some((PromotionPiece::Queen, pos + 6))
    } else if starts_with(b, pos, enc_promo(PromotionPiece::Bishop)) {
        Some((PromotionPiece::Bishop, pos + 7))
    } else if starts_with(b, pos, enc_promo(PromotionPiece::Knight)) {
        Some((PromotionPiece::Knight, pos + 7))
    } else if starts_with(b, pos, enc_promo(PromotionPiece::Rook)) {
        Some((PromotionPiece::Rook, pos + 5))
    } else {
        None
    }
}

/// Encoding of a game state: its variant name as a string.
pub open spec fn enc_game(g: GameState) -> Seq<u8> {
    match g {
        GameState::InProgress => seq![
            0xaau8,
            0x49,
            0x6e,
            0x50,
            0x72,
            0x6f,
            0x67,
            0x72,
            0x65,
            0x73,
            0x73,
        ],
        GameState::CheckMate => seq![0xa9u8, 0x43, 0x68, 0x65, 0x63, 0x6b, 0x4d, 0x61, 0x74, 0x65],
        GameState::Draw => seq![0xa4u8, 0x44, 0x72, 0x61, 0x77],
    }
}

/// Parses a game state at `pos`: one of the three variant names.
pub open spec fn parse_game(b: Seq<u8>, pos: int) -> Option<(GameState, int)> {
    if starts_with(b, pos, enc_game(GameState::InProgress)) {
        Some((GameState::InProgress, pos + 11))
    } else if starts_with(b, pos, enc_game(GameState::CheckMate)) {
        Some((GameState::CheckMate, pos + 10))
    } else if starts_with(b, pos, enc_game(GameState::Draw)) {
        Some((GameState::Draw, pos + 5))
    } else {
        None
    }
}

/// Encoding of an optional string: nil when absent.
pub open spec fn enc_opt_str(o: Option<Seq<char>>) -> Seq<u8> {
    match o {
        None => seq![0xc0u8],
        Some(s) => enc_str(s),
    }
}

/// Parses an optional string at `pos`: nil means absent.
pub open spec fn parse_opt_str(b: Seq<u8>, pos: int) -> Option<(Option<Seq<char>>, int)> {
    if 0 <= pos && pos < b.len() && b[pos] == 0xc0 {
        Some((None, pos + 1))
    } else {
        match parse_str(b, pos) {
            Some((s, end)) => Some((Some(s), end)),
            None => None,
        }
    }
}

/// Encoding of an optional clock amount: nil when absent.
pub open spec fn enc_opt_clock(o: Option<ClockTime>) -> Seq<u8> {
    match o {
        None => seq![0xc0u8],
        Some(c) => enc_clock(c),
    }
}

/// Parses an optional clock amount at `pos`.
pub open spec fn parse_opt_clock(b: Seq<u8>, pos: int) -> Option<(Option<ClockTime>, int)> {
    if 0 <= pos && pos < b.len() && b[pos] == 0xc0 {
        Some((None, pos + 1))
    } else {
        match parse_clock(b, pos) {
            Some((c, end)) => Some((Some(c), end)),
            None => None,
        }
    }
}

/// Encoding of an optional promotion piece: nil when absent.
pub open spec fn enc_opt_promo(o: Option<PromotionPiece>) -> Seq<u8> {
    match o {
        None => seq![0xc0u8],
        Some(p) => enc_promo(p),
    }
}

/// Parses an optional promotion piece at `pos`.
pub open spec fn parse_opt_promo(b: Seq<u8>, pos: int) -> Option<(Option<PromotionPiece>, int)> {
    if 0 <= pos && pos < b.len() && b[pos] == 0xc0 {
        Some((None, pos + 1))
    } else {
        match parse_promo(b, pos) {
            Some((p, end)) => Some((Some(p), end)),
            None => None,
        }
    }
}

/// Encoding of an optional game state: nil when absent.
pub open spec fn enc_opt_game(o: Option<GameState>) -> Seq<u8> {
    match o {
        None => seq![0xc0u8],
        Some(g) => enc_game(g),
    }
}

/// Parses an optional game state at `pos`.
pub open spec fn parse_opt_game(b: Seq<u8>, pos: int) -> Option<(Option<GameState>, int)> {
    if 0 <= pos && pos < b.len() && b[pos] == 0xc0 {
        Some((None, pos + 1))
    } else {
        match parse_game(b, pos) {
            Some((g, end)) => Some((Some(g), end)),
            None => None,
        }
    }
}

/// Parsing the encoding of a clock amount yields that amount back.
pub proof fn lemma_parse_clock_enc(b: Seq<u8>, pos: int, c: ClockTime)
    requires
        clock_wf(c),
        starts_with(b, pos, enc_clock(c)),
    ensures
        parse_clock(b, pos) == Some((c, pos + enc_clock(c).len())),
{
    let e1 = enc_uint(c.secs);
    let e2 = enc_uint(c.nanos as u64);
    lemma_starts_with_concat(b, pos, seq![0x92u8] + e1, e2);
    lemma_starts_with_concat(b, pos, seq![0x92u8], e1);
    lemma_starts_with_index(b, pos, seq![0x92u8], 0);
    lemma_parse_uint_enc(b, pos + 1, c.secs);
    lemma_parse_uint_enc(b, pos + 1 + e1.len(), c.nanos as u64);
}

/// Parsing the encoding of an on-board square yields that square back.
pub proof fn lemma_parse_coord_enc(b: Seq<u8>, pos: int, c: (u8, u8))
    requires
        c.0 <= 7,
        c.1 <= 7,
        starts_with(b, pos, enc_coord(c)),
    ensures
        parse_coord(b, pos) == Some((c, pos + enc_coord(c).len())),
{
    let e1 = enc_uint(c.0 as u64);
    let e2 = enc_uint(c.1 as u64);
    lemma_starts_with_concat(b, pos, seq![0x92u8] + e1, e2);
    lemma_starts_with_concat(b, pos, seq![0x92u8], e1);
    lemma_starts_with_index(b, pos, seq![0x92u8], 0);
    lemma_parse_uint_enc(b, pos + 1, c.0 as u64);
    lemma_parse_uint_enc(b, pos + 1 + e1.len(), c.1 as u64);
}

/// Parsing the encoding of a promotion piece yields that piece back.
pub proof fn lemma_parse_promo_enc(b: Seq<u8>, pos: int, p: PromotionPiece)
    requires
        starts_with(b, pos, enc_promo(p)),
    ensures
        parse_promo(b, pos) == Some((p, pos + enc_promo(p).len())),
{
    lemma_starts_with_index(b, pos, enc_promo(p), 0);
    if starts_with(b, pos, enc_promo(PromotionPiece::Queen)) {
        lemma_starts_with_index(b, pos, enc_promo(PromotionPiece::Queen), 0);
    }
    if starts_with(b, pos, enc_promo(PromotionPiece::Bishop)) {
        lemma_starts_with_index(b, pos, enc_promo(PromotionPiece::Bishop), 0);
        lemma_starts_with_index(b, pos, enc_promo(PromotionPiece::Bishop), 1);
    }
    if starts_with(b, pos, enc_promo(PromotionPiece::Knight)) {
        lemma_starts_with_index(b, pos, enc_promo(PromotionPiece::Knight), 0);
        lemma_starts_with_index(b, pos, enc_promo(PromotionPiece::Knight), 1);
    }
    lemma_starts_with_index(b, pos, enc_promo(p), 1);
}

/// Parsing the encoding of a game state yields that state back.
pub proof fn lemma_parse_game_enc(b: Seq<u8>, pos: int, g: GameState)
    requires
        starts_with(b, pos, enc_game(g)),
    ensures
        parse_game(b, pos) == Some((g, pos + enc_game(g).len())),
{
    lemma_starts_with_index(b, pos, enc_game(g), 0);
    if starts_with(b, pos, enc_game(GameState::InProgress)) {
        lemma_starts_with_index(b, pos, enc_game(GameState::InProgress), 0);
    }
    if starts_with(b, pos, enc_game(GameState::CheckMate)) {
        lemma_starts_with_index(b, pos, enc_game(GameState::CheckMate), 0);
    }
    if starts_with(b, pos, enc_game(GameState::Draw)) {
        lemma_starts_with_index(b, pos, enc_game(GameState::Draw), 0);
    }
}

/// Parsing the encoding of an optional string yields it back.
pub proof fn lemma_parse_opt_str_enc(b: Seq<u8>, pos: int, o: Option<Seq<char>>)
    requires
        o matches Some(s) ==> encode_utf8(s).len() < 0x1_0000_0000,
        starts_with(b, pos, enc_opt_str(o)),
    ensures
        parse_opt_str(b, pos) == Some((o, pos + enc_opt_str(o).len())),
{
    match o {
        None => {
            lemma_starts_with_index(b, pos, enc_opt_str(o), 0);
        },
        Some(s) => {
            let l = encode_utf8(s).len() as u64;
            lemma_starts_with_index(b, pos, enc_str(s), 0);
            assert(enc_str(s)[0] == enc_strhead(l)[0]);
            if l <= 31 {
                assert(((0xa0 | (l & 0x1f)) as u8) != 0xc0) by (bit_vector);
            }
            lemma_parse_str_enc(b, pos, s);
        },
    }
}

/// Parsing the encoding of an optional clock amount yields it back.
pub proof fn lemma_parse_opt_clock_enc(b: Seq<u8>, pos: int, o: Option<ClockTime>)
    requires
        o matches Some(c) ==> clock_wf(c),
        starts_with(b, pos, enc_opt_clock(o)),
    ensures
        parse_opt_clock(b, pos) == Some((o, pos + enc_opt_clock(o).len())),
{
    match o {
        None => {
            lemma_starts_with_index(b, pos, enc_opt_clock(o), 0);
        },
        Some(c) => {
            lemma_starts_with_index(b, pos, enc_clock(c), 0);
            lemma_parse_clock_enc(b, pos, c);
        },
    }
}

/// Parsing the encoding of an optional promotion piece yields it back.
pub proof fn lemma_parse_opt_promo_enc(b: Seq<u8>, pos: int, o: Option<PromotionPiece>)
    requires
        starts_with(b, pos, enc_opt_promo(o)),
    ensures
        parse_opt_promo(b, pos) == Some((o, pos + enc_opt_promo(o).len())),
{
    match o {
        None => {
            lemma_starts_with_index(b, pos, enc_opt_promo(o), 0);
        },
        Some(p) => {
            lemma_starts_with_index(b, pos, enc_promo(p), 0);
            lemma_parse_promo_enc(b, pos, p);
        },
    }
}

/// Encoding of a `Start`: a five-element array of color flag, name,
/// starting position, clock allotment and increment.
pub open spec fn spec_encode_start(v: StartV) -> Seq<u8> {
    seq![0x95u8] + enc_bool(v.is_white) + enc_opt_str(v.name) + enc_opt_str(v.fen) + enc_opt_clock(
        v.time,
    ) + enc_opt_clock(v.inc)
}

/// Decoding of a whole buffer as a `Start`. Trailing bytes, an increment
/// without a clock allotment, and any byte sequence that is not the
/// encoding of a well-formed value are refused.
pub open spec fn spec_decode_start(b: Seq<u8>) -> Option<StartV> {
    if b.len() >= 1 && b[0] == 0x95 {
        match parse_bool(b, 1) {
            Some((is_white, p1)) => match parse_opt_str(b, p1) {
                Some((name, p2)) => match parse_opt_str(b, p2) {
                    Some((fen, p3)) => match parse_opt_clock(b, p3) {
                        Some((time, p4)) => match parse_opt_clock(b, p4) {
                            Some((inc, p5)) => if p5 == b.len() && (inc is Some ==> time
                                is Some) {
                                Some(StartV { is_white, name, fen, time, inc })
                            } else {
                                None
                            },
                            None => None,
                        },
                        None => None,
                    },
                    None => None,
                },
                None => None,
            },
            None => None,
        }
    } else {
        None
    }
}

/// Encoding of a `Move`: a five-element array of the two squares, the
/// promotion piece, and the forfeit and draw-offer flags.
pub open spec fn spec_encode_move(m: Move) -> Seq<u8> {
    seq![0x95u8] + enc_coord(m.from) + enc_coord(m.to) + enc_opt_promo(m.promotion) + enc_bool(
        m.forfeit,
    ) + enc_bool(m.offer_draw)
}

/// Decoding of a whole buffer as a `Move`. Off-board squares, unknown
/// promotion names and trailing bytes are refused.
pub open spec fn spec_decode_move(b: Seq<u8>) -> Option<Move> {
    if b.len() >= 1 && b[0] == 0x95 {
        match parse_coord(b, 1) {
            Some((from, p1)) => match parse_coord(b, p1) {
                Some((to, p2)) => match parse_opt_promo(b, p2) {
                    Some((promotion, p3)) => match parse_bool(b, p3) {
                        Some((forfeit, p4)) => match parse_bool(b, p4) {
                            Some((offer_draw, p5)) => if p5 == b.len() {
                                Some(Move { from, to, promotion, forfeit, offer_draw })
                            } else {
                                None
                            },
                            None => None,
                        },
                        None => None,
                    },
                    None => None,
                },
                None => None,
            },
            None => None,
        }
    } else {
        None
    }
}

/// Encoding of an `Ack`: a two-element array of the success flag and the
/// optional terminal state.
pub open spec fn spec_encode_ack(a: Ack) -> Seq<u8> {
    seq![0x92u8] + enc_bool(a.ok) + enc_opt_game(a.end_state)
}

/// Decoding of a whole buffer as an `Ack`. Unknown state names and
/// trailing bytes are refused.
pub open spec fn spec_decode_ack(b: Seq<u8>) -> Option<Ack> {
    if b.len() >= 1 && b[0] == 0x92 {
        match parse_bool(b, 1) {
            Some((ok, p1)) => match parse_opt_game(b, p1) {
                Some((end_state, p2)) => if p2 == b.len() {
                    Some(Ack { ok, end_state })
                } else {
                    None
                },
                None => None,
            },
            None => None,
        }
    } else {
        None
    }
}

/// Parsing the encoding of an optional game state yields it back.
pub proof fn lemma_parse_opt_game_enc(b: Seq<u8>, pos: int, o: Option<GameState>)
    requires
        starts_with(b, pos, enc_opt_game(o)),
    ensures
        parse_opt_game(b, pos) == Some((o, pos + enc_opt_game(o).len())),
{
    match o {
        None => {
            lemma_starts_with_index(b, pos, enc_opt_game(o), 0);
        },
        Some(g) => {
            lemma_starts_with_index(b, pos, enc_game(g), 0);
            lemma_parse_game_enc(b, pos, g);
        },
    }
}

/// Round-trip for `Start`: decoding the encoding of any well-formed
/// value yields exactly that value.
pub proof fn lemma_start_round_trip(v: StartV)
    requires
        start_wf(v),
    ensures
        spec_decode_start(spec_encode_start(v)) == Some(v),
{
    let a1 = enc_bool(v.is_white);
    let a2 = enc_opt_str(v.name);
    let a3 = enc_opt_str(v.fen);
    let a4 = enc_opt_clock(v.time);
    let a5 = enc_opt_clock(v.inc);
    let b = spec_encode_start(v);
    assert(b.subrange(0, b.len() as int) =~= b);
    assert(starts_with(b, 0, b));
    lemma_starts_with_concat(b, 0, seq![0x95u8] + a1 + a2 + a3 + a4, a5);
    lemma_starts_with_concat(b, 0, seq![0x95u8] + a1 + a2 + a3, a4);
    lemma_starts_with_concat(b, 0, seq![0x95u8] + a1 + a2, a3);
    lemma_starts_with_concat(b, 0, seq![0x95u8] + a1, a2);
    lemma_starts_with_concat(b, 0, seq![0x95u8], a1);
    lemma_starts_with_index(b, 0, seq![0x95u8], 0);
    lemma_parse_bool_enc(b, 1, v.is_white);
    lemma_parse_opt_str_enc(b, (1 + a1.len()) as int, v.name);
    lemma_parse_opt_str_enc(b, (1 + a1.len() + a2.len()) as int, v.fen);
    lemma_parse_opt_clock_enc(b, (1 + a1.len() + a2.len() + a3.len()) as int, v.time);
    lemma_parse_opt_clock_enc(b, (1 + a1.len() + a2.len() + a3.len() + a4.len()) as int, v.inc);
    assert(spec_decode_start(b) matches Some(w) && w =~= v);
}

/// Round-trip for `Move`: decoding the encoding of any well-formed value
/// yields exactly that value.
pub proof fn lemma_move_round_trip(m: Move)
    requires
        move_wf(m),
    ensures
        spec_decode_move(spec_encode_move(m)) == Some(m),
{
    let a1 = enc_coord(m.from);
    let a2 = enc_coord(m.to);
    let a3 = enc_opt_promo(m.promotion);
    let a4 = enc_bool(m.forfeit);
    let a5 = enc_bool(m.offer_draw);
    let b = spec_encode_move(m);
    assert(b.subrange(0, b.len() as int) =~= b);
    assert(starts_with(b, 0, b));
    lemma_starts_with_concat(b, 0, seq![0x95u8] + a1 + a2 + a3 + a4, a5);
    lemma_starts_with_concat(b, 0, seq![0x95u8] + a1 + a2 + a3, a4);
    lemma_starts_with_concat(b, 0, seq![0x95u8] + a1 + a2, a3);
    lemma_starts_with_concat(b, 0, seq![0x95u8] + a1, a2);
    lemma_starts_with_concat(b, 0, seq![0x95u8], a1);
    lemma_starts_with_index(b, 0, seq![0x95u8], 0);
    lemma_parse_coord_enc(b, 1, m.from);
    lemma_parse_coord_enc(b, (1 + a1.len()) as int, m.to);
    lemma_parse_opt_promo_enc(b, (1 + a1.len() + a2.len()) as int, m.promotion);
    lemma_parse_bool_enc(b, (1 + a1.len() + a2.len() + a3.len()) as int, m.forfeit);
    lemma_parse_bool_enc(b, (1 + a1.len() + a2.len() + a3.len() + a4.len()) as int, m.offer_draw);
    assert(spec_decode_move(b) matches Some(w) && w =~= m);
}

/// True when `t` is an initial segment of `b`.
pub open spec fn is_prefix_of(t: Seq<u8>, b: Seq<u8>) -> bool {
    t.len() <= b.len() && t == b.take(t.len() as int)
}

/// A prefix agrees with the full buffer on every index it has.
pub proof fn lemma_prefix_bytes(t: Seq<u8>, b: Seq<u8>)
    requires
        is_prefix_of(t, b),
    ensures
        forall|i: int| 0 <= i < t.len() ==> t[i] == b[i],
{
    assert forall|i: int| 0 <= i < t.len() implies t[i] == b[i] by {
        assert(b.take(t.len() as int)[i] == b[i]);
    }
}

/// A parse that succeeds on a prefix succeeds identically on the full
/// buffer: the parser reads no byte beyond what it consumes.
pub proof fn lemma_parse_uint_prefix(t: Seq<u8>, b: Seq<u8>, pos: int)
    requires
        is_prefix_of(t, b),
        parse_uint(t, pos) is Some,
    ensures
        parse_uint(b, pos) == parse_uint(t, pos),
{
    lemma_prefix_bytes(t, b);
}

/// As [`lemma_parse_uint_prefix`], for booleans.
pub proof fn lemma_parse_bool_prefix(t: Seq<u8>, b: Seq<u8>, pos: int)
    requires
        is_prefix_of(t, b),
        parse_bool(t, pos) is Some,
    ensures
        parse_bool(b, pos) == parse_bool(t, pos),
{
    lemma_prefix_bytes(t, b);
}

/// As [`lemma_parse_uint_prefix`], for string lengths.
pub proof fn lemma_parse_strhead_prefix(t: Seq<u8>, b: Seq<u8>, pos: int)
    requires
        is_prefix_of(t, b),
        parse_strhead(t, pos) is Some,
    ensures
        parse_strhead(b, pos) == parse_strhead(t, pos),
{
    lemma_prefix_bytes(t, b);
}

/// As [`lemma_parse_uint_prefix`], for strings.
pub proof fn lemma_parse_str_prefix(t: Seq<u8>, b: Seq<u8>, pos: int)
    requires
        is_prefix_of(t, b),
        parse_str(t, pos) is Some,
    ensures
        parse_str(b, pos) == parse_str(t, pos),
{
    lemma_prefix_bytes(t, b);
    lemma_parse_strhead_prefix(t, b, pos);
    let (l, d) = parse_strhead(t, pos).unwrap();
    assert(t.subrange(d, d + l as int) =~= b.subrange(d, d + l as int));
}

/// As [`lemma_parse_uint_prefix`], for optional strings.
pub proof fn lemma_parse_opt_str_prefix(t: Seq<u8>, b: Seq<u8>, pos: int)
    requires
        is_prefix_of(t, b),
        parse_opt_str(t, pos) is Some,
    ensures
        parse_opt_str(b, pos) == parse_opt_str(t, pos),
{
    lemma_prefix_bytes(t, b);
    if 0 <= pos && pos < t.len() && t[pos] == 0xc0 {
    } else {
        lemma_parse_str_prefix(t, b, pos);
    }
}

/// As [`lemma_parse_uint_prefix`], for clock amounts.
pub proof fn lemma_parse_clock_prefix(t: Seq<u8>, b: Seq<u8>, pos: int)
    requires
        is_prefix_of(t, b),
        parse_clock(t, pos) is Some,
    ensures
        parse_clock(b, pos) == parse_clock(t, pos),
{
    lemma_prefix_bytes(t, b);
    lemma_parse_uint_prefix(t, b, pos + 1);
    let (_, p1) = parse_uint(t, pos + 1).unwrap();
    lemma_parse_uint_prefix(t, b, p1);
}

/// As [`lemma_parse_uint_prefix`], for optional clock amounts.
pub proof fn lemma_parse_opt_clock_prefix(t: Seq<u8>, b: Seq<u8>, pos: int)
    requires
        is_prefix_of(t, b),
        parse_opt_clock(t, pos) is Some,
    ensures
        parse_opt_clock(b, pos) == parse_opt_clock(t, pos),
{
    lemma_prefix_bytes(t, b);
    if 0 <= pos && pos < t.len() && t[pos] == 0xc0 {
    } else {
        lemma_parse_clock_prefix(t, b, pos);
    }
}

/// As [`lemma_parse_uint_prefix`], for board squares.
pub proof fn lemma_parse_coord_prefix(t: Seq<u8>, b: Seq<u8>, pos: int)
    requires
        is_prefix_of(t, b),
        parse_coord(t, pos) is Some,
    ensures
        parse_coord(b, pos) == parse_coord(t, pos),
{
    lemma_prefix_bytes(t, b);
    lemma_parse_uint_prefix(t, b, pos + 1);
    let (_, p1) = parse_uint(t, pos + 1).unwrap();
    lemma_parse_uint_prefix(t, b, p1);
}

/// As [`lemma_parse_uint_prefix`], for promotion pieces.
pub proof fn lemma_parse_promo_prefix(t: Seq<u8>, b: Seq<u8>, pos: int)
    requires
        is_prefix_of(t, b),
        parse_promo(t, pos) is Some,
    ensures
        parse_promo(b, pos) == parse_promo(t, pos),
{
    lemma_prefix_bytes(t, b);
    let (p, end) = parse_promo(t, pos).unwrap();
    assert(starts_with(t, pos, enc_promo(p)));
    lemma_starts_with_all(t, pos, enc_promo(p));
    assert(starts_with(b, pos, enc_promo(p))) by {
        assert(b.subrange(pos, pos + enc_promo(p).len()) =~= enc_promo(p));
    }
    lemma_parse_promo_enc(b, pos, p);
}

/// As [`lemma_parse_uint_prefix`], for optional promotion pieces.
pub proof fn lemma_parse_opt_promo_prefix(t: Seq<u8>, b: Seq<u8>, pos: int)
    requires
        is_prefix_of(t, b),
        parse_opt_promo(t, pos) is Some,
    ensures
        parse_opt_promo(b, pos) == parse_opt_promo(t, pos),
{
    lemma_prefix_bytes(t, b);
    if 0 <= pos && pos < t.len() && t[pos] == 0xc0 {
    } else {
        lemma_parse_promo_prefix(t, b, pos);
    }
}

/// As [`lemma_parse_uint_prefix`], for game states.
pub proof fn lemma_parse_game_prefix(t: Seq<u8>, b: Seq<u8>, pos: int)
    requires
        is_prefix_of(t, b),
        parse_game(t, pos) is Some,
    ensures
        parse_game(b, pos) == parse_game(t, pos),
{
    lemma_prefix_bytes(t, b);
    let (g, end) = parse_game(t, pos).unwrap();
    assert(starts_with(t, pos, enc_game(g)));
    lemma_starts_with_all(t, pos, enc_game(g));
    assert(starts_with(b, pos, enc_game(g))) by {
        assert(b.subrange(pos, pos + enc_game(g).len()) =~= enc_game(g));
    }
    lemma_parse_game_enc(b, pos, g);
}

/// As [`lemma_parse_uint_prefix`], for optional game states.
pub proof fn lemma_parse_opt_game_prefix(t: Seq<u8>, b: Seq<u8>, pos: int)
    requires
        is_prefix_of(t, b),
        parse_opt_game(t, pos) is Some,
    ensures
        parse_opt_game(b, pos) == parse_opt_game(t, pos),
{
    lemma_prefix_bytes(t, b);
    if 0 <= pos && pos < t.len() && t[pos] == 0xc0 {
    } else {
        lemma_parse_game_prefix(t, b, pos);
    }
}

/// Rejection of truncated buffers: no strict prefix of the encoding of a
/// well-formed `Start` decodes — the parsers read only the bytes they
/// consume, so a parse that succeeded on the prefix would succeed with
/// the same end position on the whole buffer, where decoding consumes
/// every byte.
pub proof fn lemma_start_truncation_rejected(v: StartV, k: int)
    requires
        start_wf(v),
        0 <= k < spec_encode_start(v).len(),
    ensures
        spec_decode_start(spec_encode_start(v).take(k)) is None,
{
    let b = spec_encode_start(v);
    let t = b.take(k);
    lemma_prefix_bytes(t, b);
    if spec_decode_start(t) is Some {
        lemma_parse_bool_prefix(t, b, 1);
        let (_, p1) = parse_bool(t, 1).unwrap();
        lemma_parse_opt_str_prefix(t, b, p1);
        let (_, p2) = parse_opt_str(t, p1).unwrap();
        lemma_parse_opt_str_prefix(t, b, p2);
        let (_, p3) = parse_opt_str(t, p2).unwrap();
        lemma_parse_opt_clock_prefix(t, b, p3);
        let (_, p4) = parse_opt_clock(t, p3).unwrap();
        lemma_parse_opt_clock_prefix(t, b, p4);
        let a1 = enc_bool(v.is_white);
        let a2 = enc_opt_str(v.name);
        let a3 = enc_opt_str(v.fen);
        let a4 = enc_opt_clock(v.time);
        let a5 = enc_opt_clock(v.inc);
        assert(b.subrange(0, b.len() as int) =~= b);
        assert(starts_with(b, 0, b));
        lemma_starts_with_concat(b, 0, seq![0x95u8] + a1 + a2 + a3 + a4, a5);
        lemma_starts_with_concat(b, 0, seq![0x95u8] + a1 + a2 + a3, a4);
        lemma_starts_with_concat(b, 0, seq![0x95u8] + a1 + a2, a3);
        lemma_starts_with_concat(b, 0, seq![0x95u8] + a1, a2);
        lemma_starts_with_concat(b, 0, seq![0x95u8], a1);
        lemma_parse_bool_enc(b, 1, v.is_white);
        lemma_parse_opt_str_enc(b, (1 + a1.len()) as int, v.name);
        lemma_parse_opt_str_enc(b, (1 + a1.len() + a2.len()) as int, v.fen);
        lemma_parse_opt_clock_enc(b, (1 + a1.len() + a2.len() + a3.len()) as int, v.time);
        lemma_parse_opt_clock_enc(b, (1 + a1.len() + a2.len() + a3.len() + a4.len()) as int, v.inc);
        assert(false);
    }
}

/// Rejection of truncated buffers, for `Move`: as
/// [`lemma_start_truncation_rejected`].
pub proof fn lemma_move_truncation_rejected(m: Move, k: int)
    requires
        move_wf(m),
        0 <= k < spec_encode_move(m).len(),
    ensures
        spec_decode_move(spec_encode_move(m).take(k)) is None,
{
    let b = spec_encode_move(m);
    let t = b.take(k);
    lemma_prefix_bytes(t, b);
    if spec_decode_move(t) is Some {
        lemma_parse_coord_prefix(t, b, 1);
        let (_, p1) = parse_coord(t, 1).unwrap();
        lemma_parse_coord_prefix(t, b, p1);
        let (_, p2) = parse_coord(t, p1).unwrap();
        lemma_parse_opt_promo_prefix(t, b, p2);
        let (_, p3) = parse_opt_promo(t, p2).unwrap();
        lemma_parse_bool_prefix(t, b, p3);
        let (_, p4) = parse_bool(t, p3).unwrap();
        lemma_parse_bool_prefix(t, b, p4);
        let a1 = enc_coord(m.from);
        let a2 = enc_coord(m.to);
        let a3 = enc_opt_promo(m.promotion);
        let a4 = enc_bool(m.forfeit);
        let a5 = enc_bool(m.offer_draw);
        assert(b.subrange(0, b.len() as int) =~= b);
        assert(starts_with(b, 0, b));
        lemma_starts_with_concat(b, 0, seq![0x95u8] + a1 + a2 + a3 + a4, a5);
        lemma_starts_with_concat(b, 0, seq![0x95u8] + a1 + a2 + a3, a4);
        lemma_starts_with_concat(b, 0, seq![0x95u8] + a1 + a2, a3);
        lemma_starts_with_concat(b, 0, seq![0x95u8] + a1, a2);
        lemma_starts_with_concat(b, 0, seq![0x95u8], a1);
        lemma_parse_coord_enc(b, 1, m.from);
        lemma_parse_coord_enc(b, (1 + a1.len()) as int, m.to);
        lemma_parse_opt_promo_enc(b, (1 + a1.len() + a2.len()) as int, m.promotion);
        lemma_parse_bool_enc(b, (1 + a1.len() + a2.len() + a3.len()) as int, m.forfeit);
        lemma_parse_bool_enc(b, (1 + a1.len() + a2.len() + a3.len() + a4.len()) as int, m.offer_draw);
        assert(false);
    }
}

/// Rejection of truncated buffers, for `Ack`: as
/// [`lemma_start_truncation_rejected`].
pub proof fn lemma_ack_truncation_rejected(a: Ack, k: int)
    requires
        0 <= k < spec_encode_ack(a).len(),
    ensures
        spec_decode_ack(spec_encode_ack(a).take(k)) is None,
{
    let b = spec_encode_ack(a);
    let t = b.take(k);
    lemma_prefix_bytes(t, b);
    if spec_decode_ack(t) is Some {
        lemma_parse_bool_prefix(t, b, 1);
        let (_, p1) = parse_bool(t, 1).unwrap();
        lemma_parse_opt_game_prefix(t, b, p1);
        let a1 = enc_bool(a.ok);
        let a2 = enc_opt_game(a.end_state);
        assert(b.subrange(0, b.len() as int) =~= b);
        assert(starts_with(b, 0, b));
        lemma_starts_with_concat(b, 0, seq![0x92u8] + a1, a2);
        lemma_starts_with_concat(b, 0, seq![0x92u8], a1);
        lemma_parse_bool_enc(b, 1, a.ok);
        lemma_parse_opt_game_enc(b, (1 + a1.len()) as int, a.end_state);
        assert(false);
    }
}

/// Rejection of mistyped buffers: the encoding of a message of one kind
/// is never accepted by a decoder of another kind. An `Ack` differs from
/// the other two in its leading array size; `Start` and `Move` share it,
/// but their first fields — a boolean and an array — cannot be confused.
pub proof fn lemma_wrong_kind_rejected(v: StartV, m: Move, a: Ack)
    ensures
        spec_decode_move(spec_encode_start(v)) is None,
        spec_decode_ack(spec_encode_start(v)) is None,
        spec_decode_start(spec_encode_move(m)) is None,
        spec_decode_ack(spec_encode_move(m)) is None,
        spec_decode_start(spec_encode_ack(a)) is None,
        spec_decode_move(spec_encode_ack(a)) is None,
{
    let bs = spec_encode_start(v);
    assert(bs[0] == 0x95 && bs[1] == enc_bool(v.is_white)[0]);
    assert(parse_coord(bs, 1) is None);
    let bm = spec_encode_move(m);
    assert(bm[0] == 0x95 && bm[1] == enc_coord(m.from)[0]);
    assert(bm[1] == 0x92);
    assert(parse_bool(bm, 1) is None);
    let ba = spec_encode_ack(a);
    assert(ba[0] == 0x92);
}

/// Round-trip for `Ack`: decoding the encoding of any value yields
/// exactly that value.
pub proof fn lemma_ack_round_trip(a: Ack)
    ensures
        spec_decode_ack(spec_encode_ack(a)) == Some(a),
{
    let a1 = enc_bool(a.ok);
    let a2 = enc_opt_game(a.end_state);
    let b = spec_encode_ack(a);
    assert(b.subrange(0, b.len() as int) =~= b);
    assert(starts_with(b, 0, b));
    lemma_starts_with_concat(b, 0, seq![0x92u8] + a1, a2);
    lemma_starts_with_concat(b, 0, seq![0x92u8], a1);
    lemma_starts_with_index(b, 0, seq![0x92u8], 0);
    lemma_parse_bool_enc(b, 1, a.ok);
    lemma_parse_opt_game_enc(b, (1 + a1.len()) as int, a.end_state);
    assert(spec_decode_ack(b) matches Some(w) && w =~= a);
}

} // verus!
