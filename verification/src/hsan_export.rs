//! The HSAN writer: a legal move of a position to its HSAN string.
//!
//! A HSAN string identifies exactly one legal move of the position it was
//! written for, using only its own characters. Whenever another piece of the
//! same type can reach the same square, the source file (or rank, when the
//! file is shared, or both) is written into the string.
//!
//! The strings follow this grammar:
//!
//! ```text
//! hsan     := castle | normal
//! castle   := ( "O-O" | "O-O-O" ) marker?
//! normal   := piece? disamb? "x"? dest promo? marker?
//! piece    := "K" | "Q" | "R" | "B" | "N" | "E" | "H"     (omitted for pawns)
//! disamb   := file | rank | file rank
//! dest     := file rank
//! file     := "a".."l"
//! rank     := "1".."9" | "10" | "11" | "12"
//! promo    := "=" ( "Q" | "R" | "B" | "N" | "E" | "H" )
//! marker   := "+" | "#"
//! ```
use vstd::prelude::*;

use crate::board::{type_letter, Board, BoardView, HyperMove, MoveOutcome, PieceType, SQ};
use crate::hsan_parse::{file_char, push_file, push_rank, rank_text, CastleSide};
use crate::text::{push_chars, string_of};

verus! {

/// The coordinate of `sq`: its file letter then its rank, `a1` … `l12`.
pub open spec fn square_text(sq: SQ) -> Seq<char> {
    seq![file_char(sq.file())] + rank_text(sq.rank())
}

/// The `+` / `#` suffix for a move with outcome `o`, or nothing.
pub open spec fn marker_text(o: MoveOutcome) -> Seq<char> {
    if !o.gives_check {
        seq![]
    } else if o.replies == 0 {
        seq!['#']
    } else {
        seq!['+']
    }
}

/// Whether `o` is a rival of `m`: another legal move by a piece of type `t`
/// from a different square to the same destination.
pub open spec fn is_rival(b: BoardView, m: HyperMove, t: PieceType, o: HyperMove) -> bool {
    o.dest == m.dest && o.src != m.src && b.mover(o) == t
}

/// Whether `m` has a rival.
pub open spec fn has_rival(b: BoardView, m: HyperMove, t: PieceType) -> bool {
    exists|i: int| 0 <= i < b.moves.len() && #[trigger] is_rival(b, m, t, b.moves[i])
}

/// Whether some rival of `m` starts on the file of `m`.
pub open spec fn file_shared(b: BoardView, m: HyperMove, t: PieceType) -> bool {
    exists|i: int|
        0 <= i < b.moves.len() && #[trigger] is_rival(b, m, t, b.moves[i]) && b.moves[i].src.file()
            == m.src.file()
}

/// Whether some rival of `m` starts on the rank of `m`.
pub open spec fn rank_shared(b: BoardView, m: HyperMove, t: PieceType) -> bool {
    exists|i: int|
        0 <= i < b.moves.len() && #[trigger] is_rival(b, m, t, b.moves[i]) && b.moves[i].src.rank()
            == m.src.rank()
}

/// The disambiguation infix of `m`, a move by a piece of type `t`: nothing
/// when `m` has no rival; else the source file when no rival shares it; else
/// the source rank when no rival shares that; else both.
pub open spec fn disambiguation_text(b: BoardView, m: HyperMove, t: PieceType) -> Seq<char> {
    if !has_rival(b, m, t) {
        seq![]
    } else if !file_shared(b, m, t) {
        seq![file_char(m.src.file())]
    } else if !rank_shared(b, m, t) {
        rank_text(m.src.rank())
    } else {
        seq![file_char(m.src.file())] + rank_text(m.src.rank())
    }
}

/// The HSAN string of the legal move `m` in the position `b`.
pub open spec fn hsan_text(b: BoardView, m: HyperMove) -> Seq<char> {
    let marker = marker_text(b.outcome_of(m));
    match m.castle {
        Some(CastleSide::King) => seq!['O', '-', 'O'] + marker,
        Some(CastleSide::Queen) => seq!['O', '-', 'O', '-', 'O'] + marker,
        None => {
            let t = b.mover(m);
            let is_pawn = t == PieceType::P;
            let letter = if is_pawn {
                seq![]
            } else {
                seq![type_letter(t)]
            };
            let disamb = if is_pawn {
                if m.capture {
                    seq![file_char(m.src.file())]
                } else {
                    seq![]
                }
            } else {
                disambiguation_text(b, m, t)
            };
            let capture = if m.capture {
                seq!['x']
            } else {
                seq![]
            };
            let promo = match m.promo {
                Some(p) => seq!['=', type_letter(p)],
                None => seq![],
            };
            letter + disamb + capture + square_text(m.dest) + promo + marker
        },
    }
}

/// Render `sq` as a HSAN coordinate (`a1` … `l12`).
fn square_notation(sq: SQ) -> (r: Vec<char>)
    requires
        sq.0 < 144,
    ensures
        r@ == square_text(sq),
{
    let mut v: Vec<char> = Vec::new();
    push_file(&mut v, sq.0 % 12);
    push_rank(&mut v, sq.0 / 12);
    assert(v@ =~= square_text(sq));
    v
}

/// The index of the legal move `m` among the legal moves of `board`.
fn index_in(board: &Board, m: HyperMove) -> (i: usize)
    requires
        board@.is_legal(m),
    ensures
        i == board@.index_of(m),
        i < board@.moves.len(),
        board@.moves[i as int] == m,
{
    proof {
        use_type_invariant(board);
    }
    let moves = board.generate_moves();
    let mut i: usize = 0;
    while i < moves.len() && moves[i] != m
        invariant
            i <= moves@.len(),
            moves@ == board@.moves,
            board@.moves.contains(m),
            forall|k: int| 0 <= k < i ==> moves@[k] != m,
        decreases moves@.len() - i,
    {
        i = i + 1;
    }
    proof {
        let j = board@.index_of(m);
        if j != i {
            assert(board@.apart(board@.moves[i as int], board@.moves[j]));
        }
    }
    i
}

/// The `+` / `#` suffix for the position `m` leads to, or nothing.
fn check_marker(board: &Board, m: HyperMove) -> (r: Vec<char>)
    requires
        board@.is_legal(m),
    ensures
        r@ == marker_text(board@.outcome_of(m)),
{
    let i = index_in(board, m);
    let o = board.outcome(i);
    let mut v: Vec<char> = Vec::new();
    if !o.gives_check {
        return v;
    }
    if o.replies == 0 {
        v.push('#');
    } else {
        v.push('+');
    }
    assert(v@ =~= marker_text(board@.outcome_of(m)));
    v
}

/// The disambiguation infix for `m`, moved by a piece of type `pt`: nothing,
/// a source file, a source rank, or both.
///
/// Every *other* legal move by a piece of the same type to the same
/// destination is a rival. With no rival, no disambiguation is needed.
/// Otherwise the source file is preferred; if a rival shares that file, the
/// source rank is used; if rivals share both, file and rank are written
/// together.
fn disambiguation(board: &Board, m: HyperMove, pt: PieceType) -> (r: Vec<char>)
    requires
        board@.is_legal(m),
    ensures
        r@ == disambiguation_text(board@, m, pt),
{
    proof {
        use_type_invariant(board);
        let k = choose|k: int| 0 <= k < board@.moves.len() && board@.moves[k] == m;
        assert(board@.move_ok(board@.moves[k]));
    }
    let moves = board.generate_moves();
    let src = m.src;
    let dest = m.dest;
    let src_file = src.0 % 12;
    let src_rank = src.0 / 12;
    let mut any_rival = false;
    let mut file_taken = false;
    let mut rank_taken = false;
    let mut i: usize = 0;
    while i < moves.len()
        invariant
            i <= moves@.len(),
            moves@ == board@.moves,
            board@.wf(),
            src == m.src,
            dest == m.dest,
            src_file == m.src.file(),
            src_rank == m.src.rank(),
            any_rival <==> exists|k: int| 0 <= k < i && #[trigger] is_rival(board@, m, pt, moves@[k]),
            file_taken <==> exists|k: int|
                0 <= k < i && #[trigger] is_rival(board@, m, pt, moves@[k]) && moves@[k].src.file()
                    == m.src.file(),
            rank_taken <==> exists|k: int|
                0 <= k < i && #[trigger] is_rival(board@, m, pt, moves@[k]) && moves@[k].src.rank()
                    == m.src.rank(),
        decreases moves@.len() - i,
    {
        let other = moves[i];
        proof {
            assert(board@.move_ok(board@.moves[i as int]));
        }
        if other.dest == dest && other.src != src && board.piece_at(other.src) == Some(pt) {
            assert(is_rival(board@, m, pt, moves@[i as int]));
            any_rival = true;
            if other.src.0 % 12 == src_file {
                file_taken = true;
            }
            if other.src.0 / 12 == src_rank {
                rank_taken = true;
            }
        } else {
            assert(!is_rival(board@, m, pt, moves@[i as int]));
        }
        i = i + 1;
    }
    let mut v: Vec<char> = Vec::new();
    if !any_rival {
        return v;
    }
    if !file_taken {
        push_file(&mut v, src_file);
    } else if !rank_taken {
        push_rank(&mut v, src_rank);
    } else {
        push_file(&mut v, src_file);
        push_rank(&mut v, src_rank);
    }
    assert(v@ =~= disambiguation_text(board@, m, pt));
    v
}

/// Convert a [`HyperMove`] to its HSAN string, as played in `board`.
///
/// `m` must be legal in `board`; the identity of the moving piece is read from
/// the source square of `m` before anything is applied.
pub fn hypermove_to_hsan(board: &Board, m: HyperMove) -> (r: String)
    requires
        board@.is_legal(m),
    ensures
        r@ == hsan_text(board@, m),
{
    proof {
        use_type_invariant(board);
        let k = choose|k: int| 0 <= k < board@.moves.len() && board@.moves[k] == m;
        assert(board@.move_ok(board@.moves[k]));
    }
    let mut hsan: Vec<char> = Vec::new();
    if m.is_king_castle() {
        hsan.push('O');
        hsan.push('-');
        hsan.push('O');
        let marker = check_marker(board, m);
        push_chars(&mut hsan, marker.as_slice());
        assert(hsan@ =~= hsan_text(board@, m));
        return string_of(&hsan);
    }
    if m.is_queen_castle() {
        hsan.push('O');
        hsan.push('-');
        hsan.push('O');
        hsan.push('-');
        hsan.push('O');
        let marker = check_marker(board, m);
        push_chars(&mut hsan, marker.as_slice());
        assert(hsan@ =~= hsan_text(board@, m));
        return string_of(&hsan);
    }
    let src = m.get_src();
    let pt = board.piece_at(src).unwrap();
    let is_pawn = pt == PieceType::P;
    // Piece letter: always upper case, omitted for pawns.
    if !is_pawn {
        hsan.push(pt.char_upper());
    }
    // Disambiguation. A capturing pawn always writes its source file (`axb3`),
    // which is also all the disambiguation a pawn capture can need.
    if is_pawn {
        if m.is_capture() {
            push_file(&mut hsan, src.0 % 12);
        }
    } else {
        let d = disambiguation(board, m, pt);
        push_chars(&mut hsan, d.as_slice());
    }
    // Capture marker: immediately before the destination, by construction.
    if m.is_capture() {
        hsan.push('x');
    }
    let dest = square_notation(m.get_dest());
    push_chars(&mut hsan, dest.as_slice());
    if m.is_promo() {
        hsan.push('=');
        hsan.push(m.promo_piece().char_upper());
    }
    let marker = check_marker(board, m);
    push_chars(&mut hsan, marker.as_slice());
    assert(hsan@ =~= hsan_text(board@, m));
    string_of(&hsan)
}

} // verus!
