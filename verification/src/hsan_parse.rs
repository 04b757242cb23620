//! The HSAN reader: a move string to its parts, and its parts to the one
//! legal move of a position that they name.
//!
//! Everything needed to resolve a move is read from the string: the piece
//! letter constrains the piece type, the disambiguators constrain the source
//! square, and the destination is read by anchoring at the end of the string.
//! Ranks 10, 11 and 12 are two digits, and `E` (Eagle) and `H` (Hawk) are
//! piece letters.
use vstd::prelude::*;

use crate::board::{type_letter, type_of_letter, Board, BoardView, HyperMove, PieceType, SQ};
use crate::text::{
    char_debug,
    char_debug_text,
    char_is_whitespace,
    chars_of,
    decimal,
    digit,
    digit_char,
    is_white_space,
    push_decimal,
    push_str,
    str_debug,
    str_debug_text,
    string_of,
};

verus! {

/// Which castling move a HSAN castling token named.
#[derive(Debug, Clone, Copy, PartialEq, Eq, Structural)]
pub enum CastleSide {
    /// `O-O`: king-side.
    King,
    /// `O-O-O`: queen-side.
    Queen,
}

/// The trailing annotation on a HSAN move.
#[derive(Debug, Clone, Copy, PartialEq, Eq, Structural)]
pub enum CheckMarker {
    /// No marker.
    Unmarked,
    /// Trailing `+`.
    Check,
    /// Trailing `#`.
    Checkmate,
}

/// Parsed HSAN move components.
#[derive(Debug, Clone, PartialEq, Eq, Structural)]
pub struct HsanMove {
    /// Piece character (`K`, `Q`, `R`, `B`, `N`, `E`, `H`), or `None` for a pawn.
    pub piece: Option<char>,
    /// Source file disambiguation (0-11 for a-l).
    pub src_file: Option<u8>,
    /// Source rank disambiguation (0-11 for ranks 1-12).
    pub src_rank: Option<u8>,
    /// Destination file (0-11).
    pub dst_file: u8,
    /// Destination rank (0-11).
    pub dst_rank: u8,
    /// Capture marker.
    pub is_capture: bool,
    /// Promotion piece (`Q`, `R`, `B`, `N`, `E`, `H`) or `None`.
    pub promotion: Option<char>,
    /// Check or checkmate marker.
    pub check_marker: CheckMarker,
    /// Set when the token was `O-O` / `O-O-O`; the coordinate fields are then
    /// meaningless and must not be read.
    pub castle: Option<CastleSide>,
}

/// Why a string is not a HSAN move.
pub enum HsanFault {
    /// Nothing but white space.
    Empty,
    /// A `=` with nothing after it.
    DanglingPromotion,
    /// More than one character after the last `=`.
    TrailingAfterPromotion,
    /// The character after the last `=` is not in the promotion set.
    InvalidPromotion(char),
    /// No rank `1`..`12` at the end of the destination.
    MissingRank,
    /// No file `a`..`l` before the destination rank.
    MissingFile,
    /// Characters left over before the source disambiguation.
    Unparsed(Seq<char>),
}

/// The kind of a fault, as the reader first meets it; the offending text
/// or character is carried beside it.
enum HsanFaultKind {
    Empty,
    DanglingPromotion,
    TrailingAfterPromotion,
    InvalidPromotion,
    MissingRank,
    MissingFile,
    Unparsed,
}

impl HsanFaultKind {
    /// The fault of this kind, about the text `rest` or the character `c`.
    spec fn with(self, rest: Seq<char>, c: char) -> HsanFault {
        match self {
            HsanFaultKind::Empty => HsanFault::Empty,
            HsanFaultKind::DanglingPromotion => HsanFault::DanglingPromotion,
            HsanFaultKind::TrailingAfterPromotion => HsanFault::TrailingAfterPromotion,
            HsanFaultKind::InvalidPromotion => HsanFault::InvalidPromotion(c),
            HsanFaultKind::MissingRank => HsanFault::MissingRank,
            HsanFaultKind::MissingFile => HsanFault::MissingFile,
            HsanFaultKind::Unparsed => HsanFault::Unparsed(rest),
        }
    }
}

// ── The grammar, as functions on character sequences ────────────────────────

/// Every legal HSAN piece letter: `K Q R B N E H`.
pub open spec fn is_piece_letter(c: char) -> bool {
    c == 'K' || c == 'Q' || c == 'R' || c == 'B' || c == 'N' || c == 'E' || c == 'H'
}

/// The letters a pawn may promote to: `Q R B N E H`.
pub open spec fn is_promotion_letter(c: char) -> bool {
    c == 'Q' || c == 'R' || c == 'B' || c == 'N' || c == 'E' || c == 'H'
}

/// The file letters `a`..`l`.
pub open spec fn is_file_char(c: char) -> bool {
    'a' <= c && c <= 'l'
}

/// The index of a file letter.
pub open spec fn file_index(c: char) -> u8 {
    (c as u32 - 'a' as u32) as u8
}

/// The letter of file `f` (`f < 12`).
pub open spec fn file_char(f: int) -> char {
    (f + 97) as u32 as char
}

/// The text of rank index `r` (`r < 12`): `1`..`9`, `10`, `11`, `12`.
pub open spec fn rank_text(r: int) -> Seq<char> {
    if r < 9 {
        seq![digit_char((r + 1) as nat)]
    } else {
        seq!['1', digit_char((r - 9) as nat)]
    }
}

/// `s` without its leading white space.
pub open spec fn trim_start(s: Seq<char>) -> Seq<char>
    decreases s.len(),
{
    if s.len() > 0 && is_white_space(s[0]) {
        trim_start(s.subrange(1, s.len() as int))
    } else {
        s
    }
}

/// `s` without its trailing white space.
pub open spec fn trim_end(s: Seq<char>) -> Seq<char>
    decreases s.len(),
{
    if s.len() > 0 && is_white_space(s.last()) {
        trim_end(s.drop_last())
    } else {
        s
    }
}

/// `s` without leading or trailing white space.
pub open spec fn trim(s: Seq<char>) -> Seq<char> {
    trim_end(trim_start(s))
}

/// A trailing `#` or `+`, split off.
pub open spec fn split_marker(s: Seq<char>) -> (Seq<char>, CheckMarker) {
    if s.len() > 0 && s.last() == '#' {
        (s.drop_last(), CheckMarker::Checkmate)
    } else if s.len() > 0 && s.last() == '+' {
        (s.drop_last(), CheckMarker::Check)
    } else {
        (s, CheckMarker::Unmarked)
    }
}

/// `O-O-O`, or its alias `0-0-0`.
pub open spec fn is_long_castle(s: Seq<char>) -> bool {
    s.len() == 5 && s[1] == '-' && s[3] == '-' && (
    (s[0] == 'O' && s[2] == 'O' && s[4] == 'O') || (s[0] == '0' && s[2] == '0' && s[4] == '0'))
}

/// `O-O`, or its alias `0-0`.
pub open spec fn is_short_castle(s: Seq<char>) -> bool {
    s.len() == 3 && s[1] == '-' && ((s[0] == 'O' && s[2] == 'O') || (s[0] == '0' && s[2] == '0'))
}

/// The index of the last `c` in `s`.
pub open spec fn rfind(s: Seq<char>, c: char) -> Option<int>
    decreases s.len(),
{
    if s.len() == 0 {
        None
    } else if s.last() == c {
        Some(s.len() - 1)
    } else {
        rfind(s.drop_last(), c)
    }
}

/// A promotion suffix `=X`, split off at the last `=`.
pub open spec fn split_promotion(body: Seq<char>) -> Result<(Seq<char>, Option<char>), HsanFault> {
    match rfind(body, '=') {
        None => Ok((body, None)),
        Some(pos) => {
            let tail = body.subrange(pos + 1, body.len() as int);
            if tail.len() == 0 {
                Err(HsanFault::DanglingPromotion)
            } else if tail.len() > 1 {
                Err(HsanFault::TrailingAfterPromotion)
            } else if !is_promotion_letter(tail[0]) {
                Err(HsanFault::InvalidPromotion(tail[0]))
            } else {
                Ok((body.subrange(0, pos), Some(tail[0])))
            }
        },
    }
}

/// A leading piece letter, split off.
pub open spec fn split_piece(s: Seq<char>) -> (Seq<char>, Option<char>) {
    if s.len() > 0 && is_piece_letter(s[0]) {
        (s.subrange(1, s.len() as int), Some(s[0]))
    } else {
        (s, None)
    }
}

/// A trailing rank `1`..`12`, split off, as a rank index. Two digits are
/// taken when they form `10`, `11` or `12`.
pub open spec fn trailing_rank(s: Seq<char>) -> Option<(Seq<char>, u8)> {
    let n = s.len() as int;
    if n >= 2 && s[n - 2] == '1' && ('0' <= s[n - 1] && s[n - 1] <= '2') {
        Some((s.subrange(0, n - 2), (s[n - 1] as u32 - '0' as u32 + 9) as u8))
    } else if n >= 1 && '1' <= s[n - 1] && s[n - 1] <= '9' {
        Some((s.subrange(0, n - 1), (s[n - 1] as u32 - '1' as u32) as u8))
    } else {
        None
    }
}

/// A trailing file letter `a`..`l`, split off, as a file index.
pub open spec fn trailing_file(s: Seq<char>) -> Option<(Seq<char>, u8)> {
    if s.len() > 0 && is_file_char(s.last()) {
        Some((s.drop_last(), file_index(s.last())))
    } else {
        None
    }
}

/// A trailing capture marker `x`, split off.
pub open spec fn split_capture(s: Seq<char>) -> (Seq<char>, bool) {
    if s.len() > 0 && s.last() == 'x' {
        (s.drop_last(), true)
    } else {
        (s, false)
    }
}

/// The parts of a castling token.
pub open spec fn castling(side: CastleSide, marker: CheckMarker) -> HsanMove {
    HsanMove {
        piece: Some('K'),
        src_file: None,
        src_rank: None,
        dst_file: 0,
        dst_rank: 0,
        is_capture: false,
        promotion: None,
        check_marker: marker,
        castle: Some(side),
    }
}

/// What `rest` (the text before the capture marker and destination) says of
/// the source square: an optional file then an optional rank; an error when
/// anything else is left.
pub open spec fn read_disambiguation(rest: Seq<char>) -> Result<(Option<u8>, Option<u8>), HsanFault> {
    let (head, src_rank) = match trailing_rank(rest) {
        Some((h, r)) => (h, Some(r)),
        None => (rest, None),
    };
    let (head2, src_file) = match trailing_file(head) {
        Some((h, f)) => (h, Some(f)),
        None => (head, None),
    };
    if head2.len() > 0 {
        Err(HsanFault::Unparsed(head2))
    } else {
        Ok((src_file, src_rank))
    }
}

/// The non-castling part of the grammar, on the text left after the check
/// marker and the promotion suffix are split off.
pub open spec fn read_normal(body: Seq<char>, promotion: Option<char>, marker: CheckMarker) -> Result<
    HsanMove,
    HsanFault,
> {
    let (rest, piece) = split_piece(body);
    match trailing_rank(rest) {
        None => Err(HsanFault::MissingRank),
        Some((rest1, dst_rank)) => match trailing_file(rest1) {
            None => Err(HsanFault::MissingFile),
            Some((rest2, dst_file)) => {
                let (rest3, is_capture) = split_capture(rest2);
                match read_disambiguation(rest3) {
                    Err(f) => Err(f),
                    Ok((src_file, src_rank)) => Ok(
                        HsanMove {
                            piece,
                            src_file,
                            src_rank,
                            dst_file,
                            dst_rank,
                            is_capture,
                            promotion,
                            check_marker: marker,
                            castle: None,
                        },
                    ),
                }
            },
        },
    }
}

/// What `parse_hsan` makes of the characters `input`.
pub open spec fn hsan_parts(input: Seq<char>) -> Result<HsanMove, HsanFault> {
    let s = trim(input);
    if s.len() == 0 {
        Err(HsanFault::Empty)
    } else {
        let (body, marker) = split_marker(s);
        if is_long_castle(body) {
            Ok(castling(CastleSide::Queen, marker))
        } else if is_short_castle(body) {
            Ok(castling(CastleSide::King, marker))
        } else {
            match split_promotion(body) {
                Err(f) => Err(f),
                Ok((body2, promotion)) => read_normal(body2, promotion, marker),
            }
        }
    }
}

/// The error message for `fault`, found in the string `input`.
pub open spec fn fault_message(fault: HsanFault, input: Seq<char>) -> Seq<char> {
    match fault {
        HsanFault::Empty => "Empty HSAN move"@,
        HsanFault::DanglingPromotion => "Dangling promotion marker in "@ + str_debug_text(input),
        HsanFault::TrailingAfterPromotion => "Trailing text after promotion in "@ + str_debug_text(
            input,
        ),
        HsanFault::InvalidPromotion(c) => "Invalid promotion piece "@ + char_debug_text(c)
            + " in "@ + str_debug_text(input),
        HsanFault::MissingRank => "Missing or invalid destination rank in "@ + str_debug_text(
            input,
        ),
        HsanFault::MissingFile => "Missing or invalid destination file in "@ + str_debug_text(
            input,
        ),
        HsanFault::Unparsed(rest) => "Unparsed text "@ + str_debug_text(rest) + " in HSAN move "@
            + str_debug_text(input),
    }
}


// ── Resolution against a position ───────────────────────────────────────────

/// Why parsed parts name no single legal move.
pub enum ResolveFault {
    /// The parts name a castling that is not legal.
    NoCastle(CastleSide),
    /// The piece character names no piece type.
    InvalidPiece(char),
    /// No legal move of the named type fits every constraint.
    NoMatch(PieceType),
    /// This many legal moves fit every constraint.
    Ambiguous(nat),
}

/// The piece type the parts name: the piece letter's, or a pawn's when there
/// is none.
pub open spec fn wanted_type(hm: HsanMove) -> Option<PieceType> {
    match hm.piece {
        Some(c) => type_of_letter(c),
        None => Some(PieceType::P),
    }
}

/// Whether the legal move `m`, made by a piece of type `t`, meets every
/// constraint of the parts `hm`: destination, piece type, capture, promotion
/// and the source file and rank where they are given.
pub open spec fn fits(b: BoardView, hm: HsanMove, t: PieceType, m: HyperMove) -> bool {
    &&& m.dest.0 == hm.dst_rank * 12 + hm.dst_file
    &&& b.mover(m) == t
    &&& m.capture == hm.is_capture
    &&& match hm.promotion {
        Some(p) => m.promo is Some && type_of_letter(p) == m.promo,
        None => m.promo is None,
    }
    &&& (hm.src_file matches Some(f) ==> m.src.file() == f)
    &&& (hm.src_rank matches Some(r) ==> m.src.rank() == r)
}

/// The moves of `s` that fit the parts `hm` for a piece of type `t`.
pub open spec fn fitting(s: Seq<HyperMove>, b: BoardView, hm: HsanMove, t: PieceType) -> Seq<HyperMove> {
    s.filter(|m: HyperMove| fits(b, hm, t, m))
}

/// The castling moves on side `side` among `s`, in order.
pub open spec fn castlings(s: Seq<HyperMove>, side: CastleSide) -> Seq<HyperMove> {
    s.filter(|m: HyperMove| m.castle == Some(side))
}

/// What `hsan_to_hypermove` makes of the parts `hm` in the position `b`.
pub open spec fn resolution(b: BoardView, hm: HsanMove) -> Result<HyperMove, ResolveFault> {
    match hm.castle {
        Some(side) => {
            let found = castlings(b.moves, side);
            if found.len() > 0 {
                Ok(found[0])
            } else {
                Err(ResolveFault::NoCastle(side))
            }
        },
        None => match wanted_type(hm) {
            None => Err(ResolveFault::InvalidPiece(hm.piece.unwrap())),
            Some(t) => {
                let found = fitting(b.moves, b, hm, t);
                if found.len() == 1 {
                    Ok(found[0])
                } else if found.len() == 0 {
                    Err(ResolveFault::NoMatch(t))
                } else {
                    Err(ResolveFault::Ambiguous(found.len()))
                }
            },
        },
    }
}

/// The error message for `fault`, met while resolving the parts `hm`.
pub open spec fn resolve_message(fault: ResolveFault, hm: HsanMove) -> Seq<char> {
    match fault {
        ResolveFault::NoCastle(CastleSide::King) => "No legal king-side castling move"@,
        ResolveFault::NoCastle(CastleSide::Queen) => "No legal queen-side castling move"@,
        ResolveFault::InvalidPiece(c) => "Invalid HSAN piece letter "@ + char_debug_text(c),
        ResolveFault::NoMatch(t) => "No legal move matches HSAN constraints (dest "@ + seq![
            file_char(hm.dst_file as int),
        ] + rank_text(hm.dst_rank as int) + ", type "@ + seq![type_letter(t)] + ")"@,
        ResolveFault::Ambiguous(n) => "Ambiguous HSAN move: "@ + decimal(n) + " legal moves match"@,
    }
}

// ── The reader ──────────────────────────────────────────────────────────────

/// The index `rfind` finds lies in the sequence and holds the character.
pub proof fn lemma_rfind_in_range(s: Seq<char>, c: char)
    ensures
        rfind(s, c) matches Some(p) ==> 0 <= p < s.len() && s[p] == c,
    decreases s.len(),
{
    if s.len() > 0 && s.last() != c {
        lemma_rfind_in_range(s.drop_last(), c);
    }
}

fn trim_chars(s: &[char]) -> (r: &[char])
    ensures
        r@ == trim(s@),
{
    let n = s.len();
    let mut lo: usize = 0;
    assert(s@.subrange(0, n as int) =~= s@);
    while lo < n && char_is_whitespace(s[lo])
        invariant
            lo <= n,
            n == s@.len(),
            trim_start(s@) == trim_start(s@.subrange(lo as int, n as int)),
        decreases n - lo,
    {
        assert(s@.subrange(lo as int, n as int).subrange(1, (n - lo) as int) =~= s@.subrange(
            lo + 1,
            n as int,
        ));
        lo = lo + 1;
    }
    assert(trim_start(s@) == s@.subrange(lo as int, n as int));
    let mut hi: usize = n;
    while hi > lo && char_is_whitespace(s[hi - 1])
        invariant
            lo <= hi <= n,
            n == s@.len(),
            trim(s@) == trim_end(s@.subrange(lo as int, hi as int)),
        decreases hi,
    {
        assert(s@.subrange(lo as int, hi as int).drop_last() =~= s@.subrange(
            lo as int,
            hi - 1,
        ));
        hi = hi - 1;
    }
    &s[lo..hi]
}

fn strip_last(s: &[char], c: char) -> (r: Option<&[char]>)
    ensures
        r is Some <==> (s@.len() > 0 && s@.last() == c),
        r matches Some(t) ==> t@ == s@.drop_last(),
{
    let n = s.len();
    if n > 0 && s[n - 1] == c {
        Some(&s[0..n - 1])
    } else {
        None
    }
}

fn rfind_char(s: &[char], c: char) -> (r: Option<usize>)
    ensures
        match rfind(s@, c) {
            Some(p) => r == Some(p as usize),
            None => r is None,
        },
{
    let mut i: usize = s.len();
    assert(s@.subrange(0, i as int) =~= s@);
    while i > 0
        invariant
            i <= s@.len(),
            rfind(s@, c) == rfind(s@.subrange(0, i as int), c),
        decreases i,
    {
        if s[i - 1] == c {
            return Some(i - 1);
        }
        assert(s@.subrange(0, i as int).drop_last() =~= s@.subrange(0, i - 1));
        i = i - 1;
    }
    None
}

fn piece_letter(c: char) -> (r: bool)
    ensures
        r == is_piece_letter(c),
{
    c == 'K' || c == 'Q' || c == 'R' || c == 'B' || c == 'N' || c == 'E' || c == 'H'
}

fn promotion_letter(c: char) -> (r: bool)
    ensures
        r == is_promotion_letter(c),
{
    c == 'Q' || c == 'R' || c == 'B' || c == 'N' || c == 'E' || c == 'H'
}

/// Split a trailing rank (`1`..`12`) off the end of `s`.
///
/// Returns `(rest, rank_index)` where `rank_index` is 0-based. Two digits are
/// preferred over one so `e10` reads as rank 10, not rank 0, but only when
/// they form 10, 11 or 12, so `e1` followed by nothing still reads as rank 1.
fn split_trailing_rank(s: &[char]) -> (r: Option<(&[char], u8)>)
    ensures
        match trailing_rank(s@) {
            Some((rest, rank)) => r matches Some((t, k)) && t@ == rest && k == rank,
            None => r is None,
        },
{
    let n = s.len();
    if n >= 2 && s[n - 2] == '1' && '0' <= s[n - 1] && s[n - 1] <= '2' {
        return Some((&s[0..n - 2], (s[n - 1] as u32 - '0' as u32 + 9) as u8));
    }
    if n >= 1 && '1' <= s[n - 1] && s[n - 1] <= '9' {
        return Some((&s[0..n - 1], (s[n - 1] as u32 - '1' as u32) as u8));
    }
    None
}

/// Split a trailing file letter (`a`..`l`) off the end of `s`.
fn split_trailing_file(s: &[char]) -> (r: Option<(&[char], u8)>)
    ensures
        match trailing_file(s@) {
            Some((rest, file)) => r matches Some((t, f)) && t@ == rest && f == file,
            None => r is None,
        },
{
    let n = s.len();
    if n > 0 && 'a' <= s[n - 1] && s[n - 1] <= 'l' {
        Some((&s[0..n - 1], (s[n - 1] as u32 - 'a' as u32) as u8))
    } else {
        None
    }
}

fn copy_chars(s: &[char]) -> (v: Vec<char>)
    ensures
        v@ == s@,
{
    let mut v: Vec<char> = Vec::new();
    let mut i: usize = 0;
    while i < s.len()
        invariant
            i <= s@.len(),
            v@ == s@.subrange(0, i as int),
        decreases s@.len() - i,
    {
        v.push(s[i]);
        i = i + 1;
        assert(v@ =~= s@.subrange(0, i as int));
    }
    assert(v@ =~= s@);
    v
}

/// The message `head` followed by the `Debug` quotation of `hsan`.
fn message_about(head: &str, hsan: &str) -> (e: String)
    ensures
        e@ == head@ + str_debug_text(hsan@),
{
    let mut v: Vec<char> = Vec::new();
    push_str(&mut v, head);
    let q = str_debug(hsan);
    push_str(&mut v, q.as_str());
    assert(v@ =~= head@ + str_debug_text(hsan@));
    string_of(&v)
}

/// The text of `fault` for the input `hsan`.
fn fault_text(fault: &HsanFaultKind, rest: &[char], promo: char, hsan: &str) -> (e: String)
    ensures
        e@ == fault_message(fault.with(rest@, promo), hsan@),
{
    match fault {
        HsanFaultKind::Empty => {
            let mut v: Vec<char> = Vec::new();
            push_str(&mut v, "Empty HSAN move");
            assert(v@ =~= "Empty HSAN move"@);
            string_of(&v)
        },
        HsanFaultKind::DanglingPromotion => message_about("Dangling promotion marker in ", hsan),
        HsanFaultKind::TrailingAfterPromotion => message_about(
            "Trailing text after promotion in ",
            hsan,
        ),
        HsanFaultKind::MissingRank => message_about("Missing or invalid destination rank in ", hsan),
        HsanFaultKind::MissingFile => message_about("Missing or invalid destination file in ", hsan),
        HsanFaultKind::InvalidPromotion => {
            let mut v: Vec<char> = Vec::new();
            push_str(&mut v, "Invalid promotion piece ");
            let q = char_debug(promo);
            push_str(&mut v, q.as_str());
            push_str(&mut v, " in ");
            let q2 = str_debug(hsan);
            push_str(&mut v, q2.as_str());
            assert(v@ =~= fault_message(HsanFault::InvalidPromotion(promo), hsan@));
            string_of(&v)
        },
        HsanFaultKind::Unparsed => {
            let mut v: Vec<char> = Vec::new();
            push_str(&mut v, "Unparsed text ");
            let left = string_of(&copy_chars(rest));
            let q = str_debug(left.as_str());
            push_str(&mut v, q.as_str());
            push_str(&mut v, " in HSAN move ");
            let q2 = str_debug(hsan);
            push_str(&mut v, q2.as_str());
            assert(v@ =~= fault_message(HsanFault::Unparsed(rest@), hsan@));
            string_of(&v)
        },
    }
}

/// The check marker at the end of `s`, split off.
fn split_marker_chars(s: &[char]) -> (r: (&[char], CheckMarker))
    ensures
        (r.0@, r.1) == split_marker(s@),
{
    match strip_last(s, '#') {
        Some(rest) => (rest, CheckMarker::Checkmate),
        None => match strip_last(s, '+') {
            Some(rest) => (rest, CheckMarker::Check),
            None => (s, CheckMarker::Unmarked),
        },
    }
}

/// Which castling `body` names, if it is a castling token.
fn castle_token(body: &[char]) -> (r: Option<CastleSide>)
    ensures
        r == (if is_long_castle(body@) {
            Some(CastleSide::Queen)
        } else if is_short_castle(body@) {
            Some(CastleSide::King)
        } else {
            None
        }),
{
    let n = body.len();
    // Queen-side must be tested first: "O-O-O" also starts with "O-O".
    if n == 5 && body[1] == '-' && body[3] == '-' && ((body[0] == 'O' && body[2] == 'O' && body[4]
        == 'O') || (body[0] == '0' && body[2] == '0' && body[4] == '0')) {
        Some(CastleSide::Queen)
    } else if n == 3 && body[1] == '-' && ((body[0] == 'O' && body[2] == 'O') || (body[0] == '0'
        && body[2] == '0')) {
        Some(CastleSide::King)
    } else {
        None
    }
}

/// The promotion suffix of `body`, split off; or the fault in it, with the
/// offending character.
fn split_promotion_chars(body: &[char]) -> (r: Result<(&[char], Option<char>), (HsanFaultKind, char)>)
    ensures
        match split_promotion(body@) {
            Ok((rest, promotion)) => r matches Ok((t, p)) && t@ == rest && p == promotion,
            Err(f) => r matches Err((k, c)) && k.with(Seq::empty(), c) == f,
        },
{
    let n = body.len();
    match rfind_char(body, '=') {
        Some(pos) => {
            proof {
                lemma_rfind_in_range(body@, '=');
            }
            let promo_str = &body[pos + 1..n];
            if promo_str.len() == 0 {
                return Err((HsanFaultKind::DanglingPromotion, ' '));
            }
            if promo_str.len() > 1 {
                return Err((HsanFaultKind::TrailingAfterPromotion, ' '));
            }
            let promo = promo_str[0];
            if !promotion_letter(promo) {
                return Err((HsanFaultKind::InvalidPromotion, promo));
            }
            Ok((&body[0..pos], Some(promo)))
        },
        None => Ok((body, None)),
    }
}

/// The non-castling grammar on `body`, the text before any promotion suffix.
fn read_normal_chars(body: &[char], promotion: Option<char>, check_marker: CheckMarker) -> (r:
    Result<HsanMove, (HsanFaultKind, &[char])>)
    ensures
        match read_normal(body@, promotion, check_marker) {
            Ok(m) => r == Ok::<HsanMove, (HsanFaultKind, &[char])>(m),
            Err(f) => r matches Err((k, t)) && k.with(t@, ' ') == f,
        },
{
    // Leading piece letter.
    let mut rest = body;
    let piece = if rest.len() > 0 && piece_letter(rest[0]) {
        let c = rest[0];
        rest = &rest[1..rest.len()];
        Some(c)
    } else {
        None
    };
    assert((rest@, piece) == split_piece(body@));
    // Destination, anchored at the end: rank first, then file.
    let (rest, dst_rank) = match split_trailing_rank(rest) {
        Some(p) => p,
        None => {
            return Err((HsanFaultKind::MissingRank, rest));
        },
    };
    let (rest, dst_file) = match split_trailing_file(rest) {
        Some(p) => p,
        None => {
            return Err((HsanFaultKind::MissingFile, rest));
        },
    };
    // Capture marker, immediately before the destination.
    let (rest, is_capture) = match strip_last(rest, 'x') {
        Some(head) => (head, true),
        None => (rest, false),
    };
    // Whatever is left is disambiguation: an optional file then an optional
    // rank, in that order.
    let mut src_file = None;
    let mut src_rank = None;
    let mut disamb = rest;
    match split_trailing_rank(disamb) {
        Some((head, rank)) => {
            src_rank = Some(rank);
            disamb = head;
        },
        None => {},
    }
    match split_trailing_file(disamb) {
        Some((head, file)) => {
            src_file = Some(file);
            disamb = head;
        },
        None => {},
    }
    if disamb.len() > 0 {
        return Err((HsanFaultKind::Unparsed, disamb));
    }
    Ok(
        HsanMove {
            piece,
            src_file,
            src_rank,
            dst_file,
            dst_rank,
            is_capture,
            promotion,
            check_marker,
            castle: None,
        },
    )
}

/// Parse a HSAN move string (e.g. `"e4"`, `"Nf3"`, `"Qxe5"`, `"a12=Q"`,
/// `"Rxd10"`, `"Ede8+"`, `"O-O"`).
pub fn parse_hsan(hsan: &str) -> (res: Result<HsanMove, String>)
    ensures
        match hsan_parts(hsan@) {
            Ok(m) => res == Ok::<HsanMove, String>(m),
            Err(f) => res matches Err(e) && e@ == fault_message(f, hsan@),
        },
{
    let all = chars_of(hsan);
    let s = trim_chars(all.as_slice());
    if s.len() == 0 {
        return Err(fault_text(&HsanFaultKind::Empty, s, ' ', hsan));
    }
    // Castling. The marker is allowed here too, so `O-O#` parses.
    let (body, check_marker) = split_marker_chars(s);
    match castle_token(body) {
        Some(side) => {
            return Ok(
                HsanMove {
                    piece: Some('K'),
                    src_file: None,
                    src_rank: None,
                    dst_file: 0,
                    dst_rank: 0,
                    is_capture: false,
                    promotion: None,
                    check_marker,
                    castle: Some(side),
                },
            );
        },
        None => {},
    }
    // Promotion suffix, e.g. "=Q". Restricted to the promotion set, so "=K"
    // is rejected rather than silently accepted.
    let (body, promotion) = match split_promotion_chars(body) {
        Ok(p) => p,
        Err((kind, c)) => {
            return Err(fault_text(&kind, s, c, hsan));
        },
    };
    match read_normal_chars(body, promotion, check_marker) {
        Ok(m) => Ok(m),
        Err((kind, rest)) => Err(fault_text(&kind, rest, ' ', hsan)),
    }
}


/// Appends the text of rank index `r` to `out`.
pub(crate) fn push_rank(out: &mut Vec<char>, r: u8)
    requires
        r < 12,
    ensures
        final(out)@ == old(out)@ + rank_text(r as int),
{
    if r < 9 {
        out.push(digit((r + 1) as usize));
    } else {
        out.push('1');
        out.push(digit((r - 9) as usize));
    }
    assert(out@ =~= old(out)@ + rank_text(r as int));
}

/// Appends the letter of file `f` to `out`.
pub(crate) fn push_file(out: &mut Vec<char>, f: u8)
    requires
        f < 12,
    ensures
        final(out)@ == old(out)@.push(file_char(f as int)),
{
    out.push((97u8 + f) as char);
}

proof fn lemma_filter_step(s: Seq<HyperMove>, i: int, pred: spec_fn(HyperMove) -> bool)
    requires
        0 <= i < s.len(),
    ensures
        s.take(i + 1).filter(pred) == (if pred(s[i]) {
            s.take(i).filter(pred).push(s[i])
        } else {
            s.take(i).filter(pred)
        }),
{
    reveal(Seq::filter);
    assert(s.take(i + 1).drop_last() =~= s.take(i));
}

/// Whether the legal move `m` fits the parts `hm` for a piece of type `t`.
fn fits_move(board: &Board, hm: &HsanMove, t: PieceType, m: HyperMove) -> (r: bool)
    requires
        board@.is_legal(m),
        hm.castle is None ==> hm.dst_file < 12 && hm.dst_rank < 12,
        hm.castle is None,
    ensures
        r == fits(board@, *hm, t, m),
{
    proof {
        use_type_invariant(board);
        let k = choose|k: int| 0 <= k < board@.moves.len() && board@.moves[k] == m;
        assert(board@.move_ok(board@.moves[k]));
    }
    let dst = SQ::make(hm.dst_file, hm.dst_rank);
    if m.dest != dst {
        return false;
    }
    if board.piece_at(m.src) != Some(t) {
        return false;
    }
    if m.capture != hm.is_capture {
        return false;
    }
    match hm.promotion {
        Some(promo) => {
            if !(m.promo.is_some() && PieceType::from_char(promo) == m.promo) {
                return false;
            }
        },
        None => {
            if m.promo.is_some() {
                return false;
            }
        },
    }
    match hm.src_file {
        Some(f) => {
            if m.src.0 % 12 != f {
                return false;
            }
        },
        None => {},
    }
    match hm.src_rank {
        Some(r) => {
            if m.src.0 / 12 != r {
                return false;
            }
        },
        None => {},
    }
    true
}

/// Resolve a parsed HSAN move against the legal moves of `board`.
///
/// Every constraint carried by the string is applied, the piece letter
/// included, so that `Rd4` and `Nd4` never resolve identically.
pub fn hsan_to_hypermove(board: &Board, hsan_move: &HsanMove) -> (res: Result<HyperMove, String>)
    requires
        hsan_move.castle is None ==> hsan_move.dst_file < 12 && hsan_move.dst_rank < 12,
    ensures
        match resolution(board@, *hsan_move) {
            Ok(m) => res == Ok::<HyperMove, String>(m),
            Err(f) => res matches Err(e) && e@ == resolve_message(f, *hsan_move),
        },
{
    proof {
        use_type_invariant(board);
    }
    let legal = board.generate_moves();
    let n = legal.len();
    match hsan_move.castle {
        Some(side) => {
            let ghost pred = |m: HyperMove| m.castle == Some(side);
            let mut i: usize = 0;
            assert(legal@.take(0) =~= Seq::<HyperMove>::empty());
            proof {
                reveal(Seq::filter);
            }
            while i < n
                invariant
                    i <= n,
                    n == legal@.len(),
                    legal@ == board@.moves,
                    pred == (|m: HyperMove| m.castle == Some(side)),
                    hsan_move.castle == Some(side),
                    legal@.take(i as int).filter(pred) =~= Seq::<HyperMove>::empty(),
                decreases n - i,
            {
                proof {
                    lemma_filter_step(legal@, i as int, pred);
                }
                if legal[i].castle == Some(side) {
                    proof {
                        assert(legal@.take(i + 1).filter(pred) =~= seq![legal@[i as int]]);
                        lemma_filter_prefix(legal@, i + 1, pred);
                        assert(castlings(board@.moves, side) == legal@.filter(pred));
                    }
                    return Ok(legal[i]);
                }
                i = i + 1;
            }
            assert(legal@.take(n as int) =~= legal@);
            let mut v: Vec<char> = Vec::new();
            match side {
                CastleSide::King => {
                    push_str(&mut v, "No legal king-side castling move");
                    assert(v@ =~= "No legal king-side castling move"@);
                },
                CastleSide::Queen => {
                    push_str(&mut v, "No legal queen-side castling move");
                    assert(v@ =~= "No legal queen-side castling move"@);
                },
            }
            return Err(string_of(&v));
        },
        None => {},
    }
    // The piece letter names a type; its absence names a pawn.
    let want_type = match hsan_move.piece {
        Some(c) => match PieceType::from_char(c) {
            Some(t) => t,
            None => {
                let mut v: Vec<char> = Vec::new();
                push_str(&mut v, "Invalid HSAN piece letter ");
                let q = char_debug(c);
                push_str(&mut v, q.as_str());
                assert(v@ =~= resolve_message(ResolveFault::InvalidPiece(c), *hsan_move));
                return Err(string_of(&v));
            },
        },
        None => PieceType::P,
    };
    let ghost pred = |m: HyperMove| fits(board@, *hsan_move, want_type, m);
    let mut matches: Vec<HyperMove> = Vec::new();
    let mut i: usize = 0;
    assert(legal@.take(0) =~= Seq::<HyperMove>::empty());
    proof {
        reveal(Seq::filter);
    }
    while i < n
        invariant
            i <= n,
            n == legal@.len(),
            legal@ == board@.moves,
            board@.wf(),
            hsan_move.castle is None,
            hsan_move.dst_file < 12 && hsan_move.dst_rank < 12,
            pred == (|m: HyperMove| fits(board@, *hsan_move, want_type, m)),
            matches@ == legal@.take(i as int).filter(pred),
        decreases n - i,
    {
        proof {
            lemma_filter_step(legal@, i as int, pred);
            assert(board@.moves.contains(legal@[i as int]));
        }
        if fits_move(board, hsan_move, want_type, legal[i]) {
            matches.push(legal[i]);
        }
        i = i + 1;
    }
    assert(legal@.take(n as int) =~= legal@);
    assert(matches@ == fitting(board@.moves, board@, *hsan_move, want_type));
    if matches.len() == 1 {
        Ok(matches[0])
    } else if matches.len() == 0 {
        let mut v: Vec<char> = Vec::new();
        push_str(&mut v, "No legal move matches HSAN constraints (dest ");
        push_file(&mut v, hsan_move.dst_file);
        push_rank(&mut v, hsan_move.dst_rank);
        push_str(&mut v, ", type ");
        v.push(want_type.char_upper());
        push_str(&mut v, ")");
        assert(v@ =~= resolve_message(ResolveFault::NoMatch(want_type), *hsan_move));
        Err(string_of(&v))
    } else {
        let mut v: Vec<char> = Vec::new();
        push_str(&mut v, "Ambiguous HSAN move: ");
        push_decimal(&mut v, matches.len());
        push_str(&mut v, " legal moves match");
        assert(v@ =~= resolve_message(ResolveFault::Ambiguous(matches@.len()), *hsan_move));
        Err(string_of(&v))
    }
}

/// A filter of a prefix is a prefix of the filter of the whole.
proof fn lemma_filter_prefix(s: Seq<HyperMove>, i: int, pred: spec_fn(HyperMove) -> bool)
    requires
        0 <= i <= s.len(),
        s.take(i).filter(pred).len() > 0,
    ensures
        s.filter(pred).len() > 0,
        s.filter(pred)[0] == s.take(i).filter(pred)[0],
    decreases s.len() - i,
{
    if i < s.len() {
        lemma_filter_step(s, i, pred);
        lemma_filter_prefix(s, i + 1, pred);
    } else {
        assert(s.take(i) =~= s);
    }
}

} // verus!
