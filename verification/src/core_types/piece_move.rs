//! HyperMove — a 32-bit encoded move for the 12x12 board.
//!
//! Bit layout:
//! - bits  0-7:  source square (0-143)
//! - bits  8-15: destination square (0-143)
//! - bits 16-19: flags
//! - bits 20-23: promotion piece type (its discriminant)
//!
//! Flag encoding:
//! - 0x0: quiet move
//! - 0x1: double pawn push
//! - 0x2: king-side castle
//! - 0x3: queen-side castle
//! - 0x4: capture
//! - 0x5: en passant capture
//! - 0x8: promotion (quiet)
//! - 0xC: promotion + capture

use vstd::prelude::*;

use super::piece_type::{pt_char_lower, pt_from_index, pt_index, PieceType};
use super::sq::{sq_notation, sq_rank, SQ};
use crate::text::{dec_digits, extend_chars, string_from};

verus! {

const SRC_MASK: u32 = 0x0000_00FF;

const DST_MASK: u32 = 0x0000_FF00;

const PROMO_MASK: u32 = 0x00F0_0000;

/// Quiet move.
pub const FLAG_QUIET: u32 = 0x0;

/// Double pawn push.
pub const FLAG_DOUBLE_PAWN: u32 = 0x1;

/// King-side castle.
pub const FLAG_KING_CASTLE: u32 = 0x2;

/// Queen-side castle.
pub const FLAG_QUEEN_CASTLE: u32 = 0x3;

/// Capture.
pub const FLAG_CAPTURE: u32 = 0x4;

/// En passant capture.
pub const FLAG_EP: u32 = 0x5;

/// Promotion without capture.
pub const FLAG_PROMO: u32 = 0x8;

/// Promotion with capture.
pub const FLAG_PROMO_CAPTURE: u32 = 0xC;

/// A 32-bit encoded move for HyperChess.
#[derive(Copy, Clone, PartialEq, Eq, Structural, Hash, Debug)]
pub struct HyperMove {
    data: u32,
}

/// The word of a move with the given parts.
pub open spec fn encode_move(flags: u32, src: u8, dst: u8, promo: u32) -> u32 {
    (src as u32) | ((dst as u32) << 8u32) | (flags << 16u32) | (promo << 20u32)
}

/// The text of a move: source and destination squares, then the lowercase
/// promotion letter when the move promotes.
pub open spec fn move_text(m: HyperMove) -> Seq<char> {
    sq_notation(m.src_index()) + sq_notation(m.dst_index()) + if m.promo_flag() {
        seq![pt_char_lower(pt_from_index(m.promo_index() as int))]
    } else {
        Seq::<char>::empty()
    }
}

/// The text of a move with an optional identity prefix (`<identity>:`).
pub open spec fn move_text_with_identity(m: HyperMove, identity: Option<char>) -> Seq<char> {
    match identity {
        Some(id) => seq![id, ':'] + move_text(m),
        None => move_text(m),
    }
}

/// `k` is where the part after the last `':'` of `s` starts (0 when `s` has
/// no colon).
pub open spec fn identity_cut(s: Seq<char>, k: int) -> bool {
    &&& 0 <= k <= s.len()
    &&& (k == 0 || s[k - 1] == ':')
    &&& forall|j: int| k <= j < s.len() ==> s[j] != ':'
}

/// Where the part after the last `':'` of `s` starts (0 without a colon).
pub open spec fn colon_cut(s: Seq<char>) -> int
    decreases s.len(),
{
    if s.len() == 0 {
        0
    } else if s.last() == ':' {
        s.len() as int
    } else {
        colon_cut(s.drop_last())
    }
}

/// The plain UCI part of an HPGN-I move: what follows its last `':'`.
pub open spec fn uci_part(s: Seq<char>) -> Seq<char> {
    s.subrange(colon_cut(s), s.len() as int)
}

/// The cut after the last colon is unique.
pub proof fn lemma_identity_cut_unique(s: Seq<char>, k: int)
    requires
        identity_cut(s, k),
    ensures
        k == colon_cut(s),
    decreases s.len(),
{
    if s.len() > 0 && s.last() != ':' {
        if k == s.len() {
            assert(s[k - 1] == ':');
        }
        lemma_identity_cut_unique(s.drop_last(), k);
    }
}

/// A text without a colon has nothing to cut.
proof fn lemma_no_colon_cut(s: Seq<char>)
    requires
        forall|i: int| 0 <= i < s.len() ==> s[i] != ':',
    ensures
        colon_cut(s) == 0,
    decreases s.len(),
{
    if s.len() > 0 {
        let t = s.drop_last();
        assert forall|i: int| 0 <= i < t.len() implies t[i] != ':' by {
            assert(t[i] == s[i]);
        }
        lemma_no_colon_cut(t);
    }
}

/// After a prefix ending in a colon, a colon-free text is what is kept.
proof fn lemma_colon_cut_suffix(p: Seq<char>, t: Seq<char>)
    requires
        p.len() > 0,
        p.last() == ':',
        forall|i: int| 0 <= i < t.len() ==> t[i] != ':',
    ensures
        colon_cut(p + t) == p.len(),
    decreases t.len(),
{
    if t.len() == 0 {
        assert(p + t =~= p);
    } else {
        let u = t.drop_last();
        assert forall|i: int| 0 <= i < u.len() implies u[i] != ':' by {
            assert(u[i] == t[i]);
        }
        lemma_colon_cut_suffix(p, u);
        assert((p + t).drop_last() =~= p + u);
        assert((p + t).last() == t.last());
    }
}

/// Decimal digits are not colons.
proof fn lemma_dec_digits_no_colon(n: nat)
    ensures
        forall|i: int| 0 <= i < dec_digits(n).len() ==> dec_digits(n)[i] != ':',
    decreases n,
{
    if n >= 10 {
        lemma_dec_digits_no_colon(n / 10);
        let d = dec_digits(n / 10);
        assert forall|i: int| 0 <= i < dec_digits(n).len() implies dec_digits(n)[i] != ':' by {
            if i < d.len() {
                assert(dec_digits(n)[i] == d[i]);
            }
        }
    }
}

/// The text of a move holds no colon.
pub proof fn lemma_move_text_no_colon(m: HyperMove)
    ensures
        forall|i: int| 0 <= i < move_text(m).len() ==> move_text(m)[i] != ':',
{
    let a = sq_notation(m.src_index());
    let b = sq_notation(m.dst_index());
    assert forall|i: int| 0 <= i < a.len() implies a[i] != ':' by {
        if 0 <= m.src_index() < 144 {
            lemma_dec_digits_no_colon((sq_rank(m.src_index()) + 1) as nat);
            if i > 0 {
                assert(a[i] == dec_digits((sq_rank(m.src_index()) + 1) as nat)[i - 1]);
            }
        }
    }
    assert forall|i: int| 0 <= i < b.len() implies b[i] != ':' by {
        if 0 <= m.dst_index() < 144 {
            lemma_dec_digits_no_colon((sq_rank(m.dst_index()) + 1) as nat);
            if i > 0 {
                assert(b[i] == dec_digits((sq_rank(m.dst_index()) + 1) as nat)[i - 1]);
            }
        }
    }
    let t = move_text(m);
    assert forall|i: int| 0 <= i < t.len() implies t[i] != ':' by {
        if i < a.len() {
            assert(t[i] == a[i]);
        } else if i < a.len() + b.len() {
            assert(t[i] == b[i - a.len()]);
        }
    }
}

/// Stripping the identity prefix of a move's HPGN-I text gives back its
/// plain UCI text, with or without an identity.
pub proof fn lemma_strip_identity_round_trip(m: HyperMove, identity: Option<char>)
    ensures
        uci_part(move_text_with_identity(m, identity)) == move_text(m),
{
    lemma_move_text_no_colon(m);
    let t = move_text(m);
    match identity {
        Some(id) => {
            let p = seq![id, ':'];
            lemma_colon_cut_suffix(p, t);
            assert((p + t).subrange(2, (p + t).len() as int) =~= t);
        },
        None => {
            lemma_no_colon_cut(t);
            assert(t.subrange(0, t.len() as int) =~= t);
        },
    }
}

/// Bit facts about move words.
pub proof fn lemma_encode(flags: u32, src: u8, dst: u8, promo: u32)
    requires
        flags < 16,
        promo < 16,
    ensures
        encode_move(flags, src, dst, promo) & 0xffu32 == src as u32,
        (encode_move(flags, src, dst, promo) >> 8u32) & 0xffu32 == dst as u32,
        (encode_move(flags, src, dst, promo) >> 16u32) & 0xfu32 == flags,
        (encode_move(flags, src, dst, promo) >> 20u32) & 0xfu32 == promo,
{
    let w = encode_move(flags, src, dst, promo);
    let s = src as u32;
    let d = dst as u32;
    assert(s < 256 && d < 256);
    assert(w & 0xffu32 == s && (w >> 8u32) & 0xffu32 == d && (w >> 16u32) & 0xfu32 == flags && (w
        >> 20u32) & 0xfu32 == promo) by (bit_vector)
        requires
            w == s | (d << 8u32) | (flags << 16u32) | (promo << 20u32),
            s < 256,
            d < 256,
            flags < 16,
            promo < 16,
    ;
}

impl HyperMove {
    /// The raw word of the move.
    pub closed spec fn bits(self) -> u32 {
        self.data
    }

    /// Moves are equal exactly when their words are.
    pub proof fn lemma_bits_injective(a: HyperMove, b: HyperMove)
        ensures
            (a.bits() == b.bits()) == (a == b),
    {
    }

    /// The source square index.
    pub open spec fn src_index(self) -> int {
        (self.bits() & 0xffu32) as int
    }

    /// The destination square index.
    pub open spec fn dst_index(self) -> int {
        ((self.bits() >> 8u32) & 0xffu32) as int
    }

    /// The 4-bit flag.
    pub open spec fn flag_bits(self) -> u32 {
        (self.bits() >> 16u32) & 0xfu32
    }

    /// The 4-bit promotion field.
    pub open spec fn promo_index(self) -> u32 {
        (self.bits() >> 20u32) & 0xfu32
    }

    /// Whether the promotion bit of the flag is set.
    pub open spec fn promo_flag(self) -> bool {
        self.flag_bits() >= 8
    }

    /// Whether the capture bit of the flag is set.
    pub open spec fn capture_flag(self) -> bool {
        self.flag_bits() & 4u32 != 0
    }

    /// Creates a move from raw bits.
    pub fn new(data: u32) -> (r: HyperMove)
        ensures
            r.bits() == data,
    {
        HyperMove { data }
    }

    /// Null move (src == dst == 0).
    pub fn null() -> (r: HyperMove)
        ensures
            r.bits() == 0,
    {
        HyperMove { data: 0 }
    }

    /// Returns true if this is a null move.
    pub fn is_null(self) -> (r: bool)
        ensures
            r == (self.bits() == 0),
    {
        self.data == 0
    }

    /// Creates a move from components.
    pub fn make(flags: u32, src: SQ, dst: SQ) -> (r: HyperMove)
        ensures
            r.bits() == (src.0 as u32) | ((dst.0 as u32) << 8u32) | (flags << 16u32),
            flags < 16 ==> r.bits() == encode_move(flags, src.0, dst.0, 0),
            flags < 16 ==> r.src_index() == src.0 && r.dst_index() == dst.0 && r.flag_bits()
                == flags && r.promo_index() == 0,
    {
        let r = HyperMove { data: (src.0 as u32) | ((dst.0 as u32) << 8) | (flags << 16) };
        proof {
            if flags < 16 {
                let s = src.0 as u32;
                let d = dst.0 as u32;
                assert(s | (d << 8u32) | (flags << 16u32) == s | (d << 8u32) | (flags << 16u32) | (
                0u32 << 20u32)) by (bit_vector);
                lemma_encode(flags, src.0, dst.0, 0);
            }
        }
        r
    }

    /// Creates a quiet move.
    pub fn make_quiet(src: SQ, dst: SQ) -> (r: HyperMove)
        ensures
            r.bits() == encode_move(FLAG_QUIET, src.0, dst.0, 0),
            r.src_index() == src.0 && r.dst_index() == dst.0,
            r.flag_bits() == FLAG_QUIET && r.promo_index() == 0,
    {
        HyperMove::make(FLAG_QUIET, src, dst)
    }

    /// Creates a capture move.
    pub fn make_capture(src: SQ, dst: SQ) -> (r: HyperMove)
        ensures
            r.bits() == encode_move(FLAG_CAPTURE, src.0, dst.0, 0),
            r.src_index() == src.0 && r.dst_index() == dst.0,
            r.flag_bits() == FLAG_CAPTURE && r.promo_index() == 0,
    {
        HyperMove::make(FLAG_CAPTURE, src, dst)
    }

    /// Creates a double pawn push.
    pub fn make_pawn_push(src: SQ, dst: SQ) -> (r: HyperMove)
        ensures
            r.bits() == encode_move(FLAG_DOUBLE_PAWN, src.0, dst.0, 0),
            r.src_index() == src.0 && r.dst_index() == dst.0,
            r.flag_bits() == FLAG_DOUBLE_PAWN && r.promo_index() == 0,
    {
        HyperMove::make(FLAG_DOUBLE_PAWN, src, dst)
    }

    /// Creates an en passant capture.
    pub fn make_ep_capture(src: SQ, dst: SQ) -> (r: HyperMove)
        ensures
            r.bits() == encode_move(FLAG_EP, src.0, dst.0, 0),
            r.src_index() == src.0 && r.dst_index() == dst.0,
            r.flag_bits() == FLAG_EP && r.promo_index() == 0,
    {
        HyperMove::make(FLAG_EP, src, dst)
    }

    /// Creates a king-side castle.
    pub fn make_king_castle(src: SQ, dst: SQ) -> (r: HyperMove)
        ensures
            r.bits() == encode_move(FLAG_KING_CASTLE, src.0, dst.0, 0),
            r.src_index() == src.0 && r.dst_index() == dst.0,
            r.flag_bits() == FLAG_KING_CASTLE && r.promo_index() == 0,
    {
        HyperMove::make(FLAG_KING_CASTLE, src, dst)
    }

    /// Creates a queen-side castle.
    pub fn make_queen_castle(src: SQ, dst: SQ) -> (r: HyperMove)
        ensures
            r.bits() == encode_move(FLAG_QUEEN_CASTLE, src.0, dst.0, 0),
            r.src_index() == src.0 && r.dst_index() == dst.0,
            r.flag_bits() == FLAG_QUEEN_CASTLE && r.promo_index() == 0,
    {
        HyperMove::make(FLAG_QUEEN_CASTLE, src, dst)
    }

    /// Creates a promotion move.
    pub fn make_promotion(src: SQ, dst: SQ, promo: PieceType, capture: bool) -> (r: HyperMove)
        ensures
            r.bits() == encode_move(
                if capture {
                    FLAG_PROMO_CAPTURE
                } else {
                    FLAG_PROMO
                },
                src.0,
                dst.0,
                pt_index(promo) as u32,
            ),
            r.src_index() == src.0 && r.dst_index() == dst.0,
            r.flag_bits() == (if capture {
                FLAG_PROMO_CAPTURE
            } else {
                FLAG_PROMO
            }),
            r.promo_index() == pt_index(promo),
    {
        let flags = if capture {
            FLAG_PROMO_CAPTURE
        } else {
            FLAG_PROMO
        };
        let p = promo.index() as u32;
        proof {
            lemma_encode(flags, src.0, dst.0, p);
        }
        HyperMove { data: (src.0 as u32) | ((dst.0 as u32) << 8) | (flags << 16) | (p << 20) }
    }

    /// Returns the source square.
    pub fn get_src(self) -> (r: SQ)
        ensures
            r.0 == self.src_index(),
    {
        let d = self.data;
        assert(d & 0xffu32 < 256) by (bit_vector);
        SQ((self.data & SRC_MASK) as u8)
    }

    /// Returns the destination square.
    pub fn get_dest(self) -> (r: SQ)
        ensures
            r.0 == self.dst_index(),
    {
        let d = self.data;
        assert((d & 0xff00u32) >> 8u32 == (d >> 8u32) & 0xffu32) by (bit_vector);
        assert((d >> 8u32) & 0xffu32 < 256) by (bit_vector);
        SQ(((self.data & DST_MASK) >> 8) as u8)
    }

    /// Returns the 4-bit flag.
    pub fn flag(self) -> (r: u32)
        ensures
            r == self.flag_bits(),
            r < 16,
    {
        let d = self.data;
        assert((d >> 16u32) & 0xfu32 < 16) by (bit_vector);
        (self.data >> 16) & 0xF
    }

    /// Returns true if this is a capture.
    pub fn is_capture(self) -> (r: bool)
        ensures
            r == self.capture_flag(),
    {
        (self.flag() & 0x4) != 0
    }

    /// Returns true if this is a promotion.
    pub fn is_promo(self) -> (r: bool)
        ensures
            r == self.promo_flag(),
    {
        let f = self.flag();
        assert(f < 16 ==> ((f & 8u32) != 0) == (f >= 8)) by (bit_vector);
        (f & 0x8) != 0
    }

    /// Returns true if this is a castle.
    pub fn is_castle(self) -> (r: bool)
        ensures
            r == (self.flag_bits() == FLAG_KING_CASTLE || self.flag_bits() == FLAG_QUEEN_CASTLE),
    {
        self.flag() == FLAG_KING_CASTLE || self.flag() == FLAG_QUEEN_CASTLE
    }

    /// Returns true if this is a king-side castle.
    pub fn is_king_castle(self) -> (r: bool)
        ensures
            r == (self.flag_bits() == FLAG_KING_CASTLE),
    {
        self.flag() == FLAG_KING_CASTLE
    }

    /// Returns true if this is a queen-side castle.
    pub fn is_queen_castle(self) -> (r: bool)
        ensures
            r == (self.flag_bits() == FLAG_QUEEN_CASTLE),
    {
        self.flag() == FLAG_QUEEN_CASTLE
    }

    /// Returns true if this is an en passant capture.
    pub fn is_en_passant(self) -> (r: bool)
        ensures
            r == (self.flag_bits() == FLAG_EP),
    {
        self.flag() == FLAG_EP
    }

    /// Returns true if this is a double pawn push.
    pub fn is_double_push(self) -> (r: bool)
        ensures
            r == (self.flag_bits() == FLAG_DOUBLE_PAWN),
    {
        self.flag() == FLAG_DOUBLE_PAWN
    }

    /// Returns true if this is a quiet move (flag 0).
    pub fn is_quiet(self) -> (r: bool)
        ensures
            r == (self.flag_bits() == FLAG_QUIET),
    {
        self.flag() == FLAG_QUIET
    }

    /// Returns the promotion piece type (`None` when the field names none).
    pub fn promo_piece(self) -> (r: PieceType)
        ensures
            r == pt_from_index(self.promo_index() as int),
    {
        let d = self.data;
        assert((d & 0xf00000u32) >> 20u32 == (d >> 20u32) & 0xfu32) by (bit_vector);
        let idx = ((self.data & PROMO_MASK) >> 20) as u32;
        PieceType::from_index(idx)
    }

    /// Returns the raw u32 data.
    pub fn get_raw(self) -> (r: u32)
        ensures
            r == self.bits(),
    {
        self.data
    }

    /// Returns true if src != dest.
    pub fn is_okay(self) -> (r: bool)
        ensures
            r == (self.src_index() != self.dst_index()),
    {
        self.get_src().0 != self.get_dest().0
    }

    /// The characters of [`HyperMove::stringify`].
    pub fn text(self) -> (r: Vec<char>)
        ensures
            r@ == move_text(self),
    {
        let src = self.get_src();
        let dst = self.get_dest();
        let mut v: Vec<char> = Vec::new();
        src.push_notation(&mut v);
        dst.push_notation(&mut v);
        if self.is_promo() {
            v.push(self.promo_piece().char_lower());
        }
        assert(v@ =~= move_text(self));
        v
    }

    /// String representation (e.g., "g2i2", "a3a4", "a10a11q").
    pub fn stringify(self) -> (r: String)
        ensures
            r@ == move_text(self),
    {
        let v = self.text();
        string_from(&v)
    }

    /// HPGN-I string: `<identity>:<uci>` when an identity is given, else the
    /// plain move text.
    pub fn stringify_with_identity(self, identity: Option<char>) -> (r: String)
        ensures
            r@ == move_text_with_identity(self, identity),
    {
        match identity {
            Some(id) => {
                let mut v: Vec<char> = Vec::new();
                v.push(id);
                v.push(':');
                let t = self.text();
                extend_chars(&mut v, &t);
                assert(v@ =~= move_text_with_identity(self, identity));
                string_from(&v)
            },
            None => self.stringify(),
        }
    }
}

/// The characters after the last `':'` of `s` (all of `s` without a colon).
pub fn strip_identity_chars(s: &Vec<char>) -> (r: Vec<char>)
    ensures
        r@ == uci_part(s@),
{
    let mut k = s.len();
    while k > 0 && s[k - 1] != ':'
        invariant
            k <= s.len(),
            forall|j: int| k <= j < s.len() ==> s@[j] != ':',
        decreases k,
    {
        k -= 1;
    }
    let r = crate::text::sub_chars(s, k, s.len());
    assert(identity_cut(s@, k as int));
    proof {
        lemma_identity_cut_unique(s@, k as int);
    }
    r
}

/// Strips an HPGN-I identity prefix (`<identity>:`) back to plain UCI. A
/// no-op on strings that never had a prefix.
pub fn strip_identity(hpgn: &str) -> (r: String)
    ensures
        r@ == uci_part(hpgn@),
{
    let v = crate::text::chars_of(hpgn);
    let r = strip_identity_chars(&v);
    string_from(&r)
}

/// A move with an associated score for move ordering.
#[derive(Copy, Clone, Debug)]
pub struct ScoringMove {
    pub hyper_move: HyperMove,
    pub score: i32,
}

impl ScoringMove {
    /// A move with score 0.
    pub fn new(m: HyperMove) -> (r: Self)
        ensures
            r.hyper_move == m,
            r.score == 0,
    {
        ScoringMove { hyper_move: m, score: 0 }
    }

    /// A move with the given score.
    pub fn new_score(m: HyperMove, score: i32) -> (r: Self)
        ensures
            r.hyper_move == m,
            r.score == score,
    {
        ScoringMove { hyper_move: m, score }
    }

    /// The null move with score 0.
    pub fn null() -> (r: Self)
        ensures
            r.hyper_move.bits() == 0,
            r.score == 0,
    {
        ScoringMove { hyper_move: HyperMove::null(), score: 0 }
    }

    /// The same move with its score negated (wrapping at `i32::MIN`).
    pub fn negate(self) -> (r: Self)
        ensures
            r.hyper_move == self.hyper_move,
            r.score == (if self.score == i32::MIN {
                i32::MIN as int
            } else {
                -self.score
            }),
    {
        let s = if self.score == i32::MIN {
            i32::MIN
        } else {
            -self.score
        };
        ScoringMove { hyper_move: self.hyper_move, score: s }
    }
}

impl PartialEq for ScoringMove {
    fn eq(&self, other: &ScoringMove) -> (r: bool) {
        self.score == other.score
    }
}

impl vstd::std_specs::cmp::PartialEqSpecImpl for ScoringMove {
    open spec fn obeys_eq_spec() -> bool {
        true
    }

    open spec fn eq_spec(&self, other: &ScoringMove) -> bool {
        self.score == other.score
    }
}

} // verus!
