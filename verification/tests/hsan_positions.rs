use hyperchess_rules::{
    hsan_to_hypermove, hypermove_to_hsan, parse_hsan, Board, CastleSide, HyperMove, MoveOutcome,
    PieceType, SQ,
};

// ── Positions for the tests ─────────────────────────────────────────────────
//
// A position is written as the placement and side-to-move fields of an HFEN
// string: ranks 12 (first) down to 1 (last), identity letters for pieces.
// `C`/`c` are the rooks from c2/c11, `D`/`I` the knights from d2/i2, `A` the
// eagle from a2, `B` the hawk from b2, `E`/`H` the bishops from e2/h2, `F`
// the queen, `G`/`g` the kings, `J` the rook from j2, `K` the hawk from k2,
// `L` the eagle from l2, `M`..`X` the pawns.
//
// The legal moves are generated here for the king, queen, rooks, bishops,
// knights and single-step pawns (with promotion); Eagle and Hawk moves, pawn
// double steps and castling are given by hand where a test needs them.

const START_HFEN: &str =
    "12/abcdefghijkl/mnopqrstuvwx/12/12/12/12/12/12/MNOPQRSTUVWX/ABCDEFGHIJKL/12 w KQkq - 0 1";
const ROOK_TAKES_ON_RANK_10: &str = "6g5/12/3c8/12/12/12/12/12/3C8/12/12/6G5 w - - 0 1";
const TWO_KNIGHTS: &str = "6g5/12/12/12/12/12/3D1I6/12/12/12/12/6G5 w - - 0 1";
const PROMOTING: &str = "12/M11/6g5/12/12/12/12/12/12/12/6G5/12 w - - 0 1";

#[derive(Clone, Copy, PartialEq, Debug)]
enum Side {
    White,
    Black,
}

type Cell = Option<(Side, PieceType)>;

#[derive(Clone)]
struct Pos {
    cells: Vec<Cell>,
    to_move: Side,
}

fn identity_type(c: char) -> PieceType {
    match c.to_ascii_uppercase() {
        'A' | 'L' => PieceType::E,
        'B' | 'K' => PieceType::H,
        'C' | 'J' => PieceType::R,
        'D' | 'I' => PieceType::N,
        'E' | 'H' => PieceType::B,
        'F' => PieceType::Q,
        'G' => PieceType::K,
        'M'..='X' => PieceType::P,
        _ => panic!("unknown identity letter {c:?}"),
    }
}

fn position(hfen: &str) -> Pos {
    let mut fields = hfen.split_whitespace();
    let placement = fields.next().expect("placement");
    let to_move = match fields.next() {
        Some("b") => Side::Black,
        _ => Side::White,
    };
    let mut cells: Vec<Cell> = vec![None; 144];
    let ranks: Vec<&str> = placement.split('/').collect();
    assert_eq!(ranks.len(), 12);
    for (row, text) in ranks.iter().enumerate() {
        let rank = 11 - row;
        let mut file = 0usize;
        let chars: Vec<char> = text.chars().collect();
        let mut i = 0;
        while i < chars.len() {
            if chars[i].is_ascii_digit() {
                let mut n = 0usize;
                while i < chars.len() && chars[i].is_ascii_digit() {
                    n = n * 10 + chars[i].to_digit(10).unwrap() as usize;
                    i += 1;
                }
                file += n;
            } else {
                let side = if chars[i].is_ascii_uppercase() { Side::White } else { Side::Black };
                cells[rank * 12 + file] = Some((side, identity_type(chars[i])));
                file += 1;
                i += 1;
            }
        }
        assert_eq!(file, 12, "rank {} of {hfen}", rank + 1);
    }
    Pos { cells, to_move }
}

fn other(s: Side) -> Side {
    match s {
        Side::White => Side::Black,
        Side::Black => Side::White,
    }
}

fn on_board(f: i32, r: i32) -> bool {
    (0..12).contains(&f) && (0..12).contains(&r)
}

const KNIGHT: [(i32, i32); 8] = [(1, 2), (2, 1), (2, -1), (1, -2), (-1, -2), (-2, -1), (-2, 1), (-1, 2)];
const KING: [(i32, i32); 8] = [(1, 0), (1, 1), (0, 1), (-1, 1), (-1, 0), (-1, -1), (0, -1), (1, -1)];
const ROOK: [(i32, i32); 4] = [(1, 0), (0, 1), (-1, 0), (0, -1)];
const BISHOP: [(i32, i32); 4] = [(1, 1), (-1, 1), (-1, -1), (1, -1)];

fn attacked(p: &Pos, sq: usize, by: Side) -> bool {
    let (f, r) = ((sq % 12) as i32, (sq / 12) as i32);
    let at = |f: i32, r: i32| p.cells[(r * 12 + f) as usize];
    for (df, dr) in KNIGHT {
        if on_board(f + df, r + dr) && at(f + df, r + dr) == Some((by, PieceType::N)) {
            return true;
        }
    }
    for (df, dr) in KING {
        if on_board(f + df, r + dr) && at(f + df, r + dr) == Some((by, PieceType::K)) {
            return true;
        }
    }
    let pawn_rank = match by {
        Side::White => r - 1,
        Side::Black => r + 1,
    };
    for df in [-1, 1] {
        if on_board(f + df, pawn_rank) && at(f + df, pawn_rank) == Some((by, PieceType::P)) {
            return true;
        }
    }
    for (dirs, kinds) in [(ROOK, [PieceType::R, PieceType::Q]), (BISHOP, [PieceType::B, PieceType::Q])] {
        for (df, dr) in dirs {
            let (mut x, mut y) = (f + df, r + dr);
            while on_board(x, y) {
                match at(x, y) {
                    None => {}
                    Some((s, t)) => {
                        if s == by && kinds.contains(&t) {
                            return true;
                        }
                        break;
                    }
                }
                x += df;
                y += dr;
            }
        }
    }
    false
}

fn pseudo_moves(p: &Pos) -> Vec<HyperMove> {
    let side = p.to_move;
    let mut out = Vec::new();
    for sq in 0..144usize {
        let Some((s, t)) = p.cells[sq] else { continue };
        if s != side {
            continue;
        }
        let (f, r) = ((sq % 12) as i32, (sq / 12) as i32);
        let mut add = |tf: i32, tr: i32, capture: bool, promo: Option<PieceType>| {
            out.push(HyperMove::new(SQ(sq as u8), SQ((tr * 12 + tf) as u8), capture, promo));
        };
        let target = |tf: i32, tr: i32| p.cells[(tr * 12 + tf) as usize];
        match t {
            PieceType::N | PieceType::K => {
                let steps = if t == PieceType::N { KNIGHT } else { KING };
                for (df, dr) in steps {
                    let (tf, tr) = (f + df, r + dr);
                    if !on_board(tf, tr) {
                        continue;
                    }
                    match target(tf, tr) {
                        None => add(tf, tr, false, None),
                        Some((s2, _)) if s2 != side => add(tf, tr, true, None),
                        _ => {}
                    }
                }
            }
            PieceType::R | PieceType::B | PieceType::Q => {
                let mut dirs: Vec<(i32, i32)> = Vec::new();
                if t != PieceType::B {
                    dirs.extend(ROOK);
                }
                if t != PieceType::R {
                    dirs.extend(BISHOP);
                }
                for (df, dr) in dirs {
                    let (mut x, mut y) = (f + df, r + dr);
                    while on_board(x, y) {
                        match target(x, y) {
                            None => add(x, y, false, None),
                            Some((s2, _)) => {
                                if s2 != side {
                                    add(x, y, true, None);
                                }
                                break;
                            }
                        }
                        x += df;
                        y += dr;
                    }
                }
            }
            PieceType::P => {
                let (dir, last) = match side {
                    Side::White => (1, 11),
                    Side::Black => (-1, 0),
                };
                let tr = r + dir;
                if !on_board(f, tr) {
                    continue;
                }
                let promos: Vec<Option<PieceType>> = if tr == last {
                    [PieceType::Q, PieceType::R, PieceType::B, PieceType::N, PieceType::E, PieceType::H]
                        .into_iter()
                        .map(Some)
                        .collect()
                } else {
                    vec![None]
                };
                if target(f, tr).is_none() {
                    for pr in &promos {
                        add(f, tr, false, *pr);
                    }
                }
                for df in [-1, 1] {
                    if on_board(f + df, tr) {
                        if let Some((s2, _)) = target(f + df, tr) {
                            if s2 != side {
                                for pr in &promos {
                                    add(f + df, tr, true, *pr);
                                }
                            }
                        }
                    }
                }
            }
            PieceType::E | PieceType::H => {}
        }
    }
    out
}

fn apply(p: &Pos, m: &HyperMove) -> Pos {
    let mut next = p.clone();
    let (side, t) = p.cells[m.src.0 as usize].expect("a piece moves");
    next.cells[m.src.0 as usize] = None;
    next.cells[m.dest.0 as usize] = Some((side, m.promo.unwrap_or(t)));
    next.to_move = other(p.to_move);
    next
}

fn king_of(p: &Pos, side: Side) -> Option<usize> {
    (0..144).find(|&sq| p.cells[sq] == Some((side, PieceType::K)))
}

fn legal_moves(p: &Pos) -> Vec<HyperMove> {
    pseudo_moves(p)
        .into_iter()
        .filter(|m| {
            let next = apply(p, m);
            match king_of(&next, p.to_move) {
                Some(k) => !attacked(&next, k, next.to_move),
                None => true,
            }
        })
        .collect()
}

fn outcome(p: &Pos, m: &HyperMove) -> MoveOutcome {
    let next = apply(p, m);
    let gives_check = match king_of(&next, next.to_move) {
        Some(k) => attacked(&next, k, p.to_move),
        None => false,
    };
    MoveOutcome { gives_check, replies: legal_moves(&next).len() }
}

/// The board of `hfen`, with `extra` legal moves given by hand (with what
/// they lead to) beside the generated ones.
fn board_with(hfen: &str, extra: &[(HyperMove, MoveOutcome)]) -> Board {
    let p = position(hfen);
    let mut moves = legal_moves(&p);
    let mut outcomes: Vec<MoveOutcome> = moves.iter().map(|m| outcome(&p, m)).collect();
    for (m, o) in extra {
        moves.push(*m);
        outcomes.push(*o);
    }
    let pieces = p.cells.iter().map(|c| c.map(|(_, t)| t)).collect();
    Board::new(pieces, moves, outcomes).expect("a position")
}

fn board(hfen: &str) -> Board {
    board_with(hfen, &[])
}

fn find(board: &Board, uci: &str) -> HyperMove {
    board
        .generate_moves()
        .iter()
        .find(|m| m.stringify() == uci)
        .copied()
        .unwrap_or_else(|| panic!("{uci} is not legal"))
}

fn hsan_for(hfen: &str, uci: &str) -> String {
    let b = board(hfen);
    let m = find(&b, uci);
    hypermove_to_hsan(&b, m)
}

fn sq(name: &str) -> SQ {
    let file = name.as_bytes()[0] - b'a';
    let rank: u8 = name[1..].parse().unwrap();
    SQ::make(file, rank - 1)
}

// ── Writing ─────────────────────────────────────────────────────────────────

#[test]
fn capture_marker_precedes_a_two_digit_destination() {
    assert_eq!(hsan_for(ROOK_TAKES_ON_RANK_10, "d4d10"), "Rxd10");
}

#[test]
fn quiet_move_to_a_two_digit_rank() {
    assert_eq!(hsan_for(ROOK_TAKES_ON_RANK_10, "d4d9"), "Rd9");
}

#[test]
fn same_type_pieces_are_disambiguated() {
    // Knights on d6 and f6 both reach e8; each must say which one moved.
    assert_eq!(hsan_for(TWO_KNIGHTS, "d6e8"), "Nde8");
    assert_eq!(hsan_for(TWO_KNIGHTS, "f6e8"), "Nfe8");
}

#[test]
fn no_two_legal_moves_share_a_hsan_string() {
    for hfen in [START_HFEN, ROOK_TAKES_ON_RANK_10, TWO_KNIGHTS] {
        let board = board(hfen);
        let mut seen = std::collections::HashMap::<String, String>::new();
        for m in board.generate_moves().iter() {
            let hsan = hypermove_to_hsan(&board, *m);
            if let Some(prev) = seen.insert(hsan.clone(), m.stringify()) {
                panic!("HSAN {hsan:?} is ambiguous in {hfen}: {prev} and {}", m.stringify());
            }
        }
    }
}

#[test]
fn pawn_capture_writes_its_source_file() {
    // Black pawn `n` on b10 is captured by the white pawn `M` from a9.
    let hfen = "6g5/12/1n10/M11/12/12/12/12/12/12/12/6G5 w - - 0 1";
    assert_eq!(hsan_for(hfen, "a9b10"), "axb10");
}

#[test]
fn promotion_writes_the_target_type() {
    // White pawn `M` on a11 promotes on a12.
    let hfen = "12/M11/6g5/12/12/12/12/12/12/12/6G5/12 w - - 0 1";
    assert_eq!(hsan_for(hfen, "a11a12q"), "a12=Q");
    assert_eq!(hsan_for(hfen, "a11a12e"), "a12=E");
    assert_eq!(hsan_for(hfen, "a11a12h"), "a12=H");
}

#[test]
fn eagle_and_hawk_get_their_own_letters() {
    let quiet = MoveOutcome { gives_check: false, replies: 5 };
    // `A` is the eagle from a2, `B` the hawk from b2.
    let eagle = "6g5/12/12/12/12/12/12/12/A11/12/12/6G5 w - - 0 1";
    let b = board_with(eagle, &[(HyperMove::new(sq("a4"), sq("a8"), false, None), quiet)]);
    assert_eq!(hypermove_to_hsan(&b, find(&b, "a4a8")), "Ea8");
    let hawk = "6g5/12/12/12/12/12/12/12/B11/12/12/6G5 w - - 0 1";
    let b = board_with(hawk, &[(HyperMove::new(sq("a4"), sq("d7"), false, None), quiet)]);
    assert_eq!(hypermove_to_hsan(&b, find(&b, "a4d7")), "Hd7");
}

// ── Resolving ───────────────────────────────────────────────────────────────

#[test]
fn the_piece_letter_constrains_resolution() {
    let board = board(TWO_KNIGHTS);
    // A rook move to e8 does not exist here; the knights' does.
    assert!(hsan_to_hypermove(&board, &parse_hsan("Rde8").unwrap()).is_err());
    let m = hsan_to_hypermove(&board, &parse_hsan("Nde8").unwrap()).expect("resolves");
    assert_eq!(m.stringify(), "d6e8");
}

#[test]
fn every_legal_move_round_trips_through_hsan() {
    for hfen in [START_HFEN, ROOK_TAKES_ON_RANK_10, TWO_KNIGHTS, PROMOTING] {
        let board = board(hfen);
        for m in board.generate_moves().iter() {
            let hsan = hypermove_to_hsan(&board, *m);
            let parsed = parse_hsan(&hsan)
                .unwrap_or_else(|e| panic!("exported {hsan:?} must re-parse: {e}"));
            let resolved = hsan_to_hypermove(&board, &parsed)
                .unwrap_or_else(|e| panic!("exported {hsan:?} must resolve: {e}"));
            assert_eq!(
                resolved.stringify(),
                m.stringify(),
                "HSAN {hsan:?} resolved to the wrong move in {hfen}"
            );
        }
    }
}

// ── Further cases ───────────────────────────────────────────────────────────

#[test]
fn a_checking_move_carries_its_marker() {
    // The rook on d4 checks the king on g12 from g4.
    assert_eq!(hsan_for(ROOK_TAKES_ON_RANK_10, "d4g4"), "Rg4+");
}

#[test]
fn a_mating_move_carries_the_mate_marker() {
    // Black king h12 boxed in by its own pawns g11, h11, i11; a rook mates on the back rank.
    let hfen = "7g4/6mno3/12/12/12/12/12/12/12/12/12/C5G5 w - - 0 1";
    assert_eq!(hsan_for(hfen, "a1a12"), "Ra12#");
}

#[test]
fn a_shared_file_falls_back_to_the_rank() {
    // Rooks on a1 and a5 both reach a3.
    let hfen = "6g5/12/12/12/12/12/12/C11/12/12/12/J5G5 w - - 0 1";
    assert_eq!(hsan_for(hfen, "a1a3"), "R1a3");
    assert_eq!(hsan_for(hfen, "a5a3"), "R5a3");
}

#[test]
fn shared_file_and_rank_write_both() {
    // Knights on d4, f4 and d8 all reach e6: d4's file is shared with d8 and
    // its rank with f4.
    let hfen = "6g5/12/12/12/3D8/12/12/12/3I1D6/12/12/6G5 w - - 0 1";
    assert_eq!(hsan_for(hfen, "d4e6"), "Nd4e6");
    assert_eq!(hsan_for(hfen, "f4e6"), "Nfe6");
    assert_eq!(hsan_for(hfen, "d8e6"), "N8e6");
}

#[test]
fn an_ambiguous_string_is_an_error() {
    let board = board(TWO_KNIGHTS);
    assert_eq!(
        hsan_to_hypermove(&board, &parse_hsan("Ne8").unwrap()).unwrap_err(),
        "Ambiguous HSAN move: 2 legal moves match"
    );
}

#[test]
fn an_unmatched_string_names_destination_and_type() {
    let board = board(TWO_KNIGHTS);
    assert_eq!(
        hsan_to_hypermove(&board, &parse_hsan("Rde8").unwrap()).unwrap_err(),
        "No legal move matches HSAN constraints (dest e8, type R)"
    );
    assert_eq!(
        hsan_to_hypermove(&board, &parse_hsan("a10").unwrap()).unwrap_err(),
        "No legal move matches HSAN constraints (dest a10, type P)"
    );
}

#[test]
fn an_unknown_piece_letter_is_an_error() {
    let board = board(TWO_KNIGHTS);
    let mut parts = parse_hsan("Nde8").unwrap();
    parts.piece = Some('Z');
    assert_eq!(
        hsan_to_hypermove(&board, &parts).unwrap_err(),
        format!("Invalid HSAN piece letter {:?}", 'Z')
    );
}

#[test]
fn castling_is_written_and_resolved_by_side() {
    let hfen = "6g5/12/12/12/12/12/12/12/12/12/12/C5G4J w - - 0 1";
    let short = HyperMove::castling(sq("g1"), sq("i1"), CastleSide::King);
    let long = HyperMove::castling(sq("g1"), sq("e1"), CastleSide::Queen);
    let quiet = MoveOutcome { gives_check: false, replies: 5 };
    let board = board_with(hfen, &[(short, quiet), (long, quiet)]);
    assert_eq!(hypermove_to_hsan(&board, short), "O-O");
    assert_eq!(hypermove_to_hsan(&board, long), "O-O-O");
    assert_eq!(hsan_to_hypermove(&board, &parse_hsan("O-O").unwrap()), Ok(short));
    assert_eq!(hsan_to_hypermove(&board, &parse_hsan("0-0-0").unwrap()), Ok(long));
    let plain = board_with(hfen, &[]);
    assert_eq!(
        hsan_to_hypermove(&plain, &parse_hsan("O-O").unwrap()).unwrap_err(),
        "No legal king-side castling move"
    );
    assert_eq!(
        hsan_to_hypermove(&plain, &parse_hsan("O-O-O").unwrap()).unwrap_err(),
        "No legal queen-side castling move"
    );
}

#[test]
fn every_legal_move_round_trips_in_further_positions() {
    for hfen in [
        "6g5/12/12/12/3D8/12/12/12/3I1D6/12/12/6G5 w - - 0 1",
        "6g5/12/12/12/12/12/12/C11/12/12/12/J5G5 w - - 0 1",
        "7g4/6mno3/12/12/12/12/12/12/12/12/12/C5G5 w - - 0 1",
        "6g5/12/1n10/M11/12/12/12/12/12/12/12/6G5 w - - 0 1",
        "6g5/1mno8/M1N9/12/12/12/12/12/12/12/12/6G5 b - - 0 1",
    ] {
        let board = board(hfen);
        let mut seen = std::collections::HashSet::<String>::new();
        for m in board.generate_moves().iter() {
            let hsan = hypermove_to_hsan(&board, *m);
            assert!(seen.insert(hsan.clone()), "{hsan:?} twice in {hfen}");
            let parsed = parse_hsan(&hsan).unwrap();
            assert_eq!(hsan_to_hypermove(&board, &parsed), Ok(*m), "{hsan:?} in {hfen}");
        }
    }
}

#[test]
fn a_board_holds_only_positions() {
    let pieces = |extra: &[(usize, PieceType)]| {
        let mut v: Vec<Option<PieceType>> = vec![None; 144];
        for (s, t) in extra {
            v[*s] = Some(*t);
        }
        v
    };
    let quiet = MoveOutcome { gives_check: false, replies: 1 };
    let knight = pieces(&[(3, PieceType::N)]);
    let m = HyperMove::new(SQ(3), SQ(28), false, None);
    assert!(Board::new(knight.clone(), vec![m], vec![quiet]).is_some());
    // The lists must pair up, and a square must exist.
    assert!(Board::new(knight.clone(), vec![m], vec![]).is_none());
    assert!(Board::new(vec![None; 143], vec![], vec![]).is_none());
    assert!(Board::new(knight.clone(), vec![HyperMove::new(SQ(3), SQ(144), false, None)], vec![quiet]).is_none());
    // A move starts from an occupied square.
    assert!(Board::new(knight.clone(), vec![HyperMove::new(SQ(4), SQ(28), false, None)], vec![quiet]).is_none());
    // The same move twice is not two moves.
    assert!(Board::new(knight.clone(), vec![m, m], vec![quiet, quiet]).is_none());
    // A pawn promotes to a type of the promotion set.
    let pawn = pieces(&[(120, PieceType::P)]);
    let to_king = HyperMove::new(SQ(120), SQ(132), false, Some(PieceType::K));
    assert!(Board::new(pawn.clone(), vec![to_king], vec![quiet]).is_none());
    // Castling is a king's move, once per side.
    let castle = HyperMove::castling(SQ(3), SQ(5), CastleSide::King);
    assert!(Board::new(knight, vec![castle], vec![quiet]).is_none());
    let king = pieces(&[(6, PieceType::K)]);
    let c1 = HyperMove::castling(SQ(6), SQ(8), CastleSide::King);
    let c2 = HyperMove::castling(SQ(6), SQ(9), CastleSide::King);
    assert!(Board::new(king.clone(), vec![c1], vec![quiet]).is_some());
    assert!(Board::new(king, vec![c1, c2], vec![quiet, quiet]).is_none());
    // Two pawns cannot step to one square.
    let pawns = pieces(&[(36, PieceType::P), (24, PieceType::P)]);
    let a = HyperMove::new(SQ(36), SQ(48), false, None);
    let b = HyperMove::new(SQ(24), SQ(48), false, None);
    assert!(Board::new(pawns, vec![a, b], vec![quiet, quiet]).is_none());
}

#[test]
fn squares_and_moves_read_as_coordinates() {
    assert_eq!(SQ::make(3, 9), SQ(111));
    let m = HyperMove::new(sq("a11"), sq("a12"), false, Some(PieceType::E));
    assert_eq!(m.stringify(), "a11a12e");
    assert!(m.is_promo());
    assert_eq!(m.promo_piece(), PieceType::E);
    assert_eq!(PieceType::from_char('h'), Some(PieceType::H));
    assert_eq!(PieceType::from_char('Z'), None);
    assert_eq!(PieceType::E.char_lower(), 'e');
    let b = board(TWO_KNIGHTS);
    assert_eq!(b.piece_at(sq("d6")), Some(PieceType::N));
    assert_eq!(b.piece_at(sq("e6")), None);
}

#[test]
fn a_count_of_ten_or_more_is_written_in_full() {
    // Eleven rooks on the first rank, all able to reach l12 in this table.
    let mut pieces: Vec<Option<PieceType>> = vec![None; 144];
    let mut moves = Vec::new();
    let mut outcomes = Vec::new();
    for f in 0..11u8 {
        pieces[f as usize] = Some(PieceType::R);
        moves.push(HyperMove::new(SQ(f), sq("l12"), false, None));
        outcomes.push(MoveOutcome { gives_check: false, replies: 1 });
    }
    let board = Board::new(pieces, moves, outcomes).expect("a position");
    assert_eq!(
        hsan_to_hypermove(&board, &parse_hsan("Rl12").unwrap()).unwrap_err(),
        "Ambiguous HSAN move: 11 legal moves match"
    );
    // Every one of them is still written so that it reads back as itself.
    for m in board.generate_moves().iter() {
        let hsan = hypermove_to_hsan(&board, *m);
        assert_eq!(hsan_to_hypermove(&board, &parse_hsan(&hsan).unwrap()), Ok(*m));
    }
    assert_eq!(hypermove_to_hsan(&board, HyperMove::new(SQ(0), sq("l12"), false, None)), "Ral12");
}
