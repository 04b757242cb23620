//! The position data that HSAN reads: what stands on each of the 144 squares
//! of the 12×12 board, the legal moves of the side to move, and for each legal
//! move whether it gives check and how many replies the opponent then has.
use vstd::prelude::*;

use crate::hsan_parse::{file_char, push_file, push_rank, rank_text, CastleSide};
use crate::text::string_of;

verus! {

/// The eight piece types of the variant: the six orthodox ones plus the
/// Eagle (`E`) and the Hawk (`H`).
#[derive(Clone, Copy, Debug, PartialEq, Eq, Structural)]
pub enum PieceType {
    P,
    N,
    B,
    R,
    Q,
    K,
    E,
    H,
}

/// The upper-case letter of a piece type; it is also the name that `Debug`
/// prints for it.
pub open spec fn type_letter(t: PieceType) -> char {
    match t {
        PieceType::P => 'P',
        PieceType::N => 'N',
        PieceType::B => 'B',
        PieceType::R => 'R',
        PieceType::Q => 'Q',
        PieceType::K => 'K',
        PieceType::E => 'E',
        PieceType::H => 'H',
    }
}

/// The lower-case letter of a piece type.
pub open spec fn type_letter_lower(t: PieceType) -> char {
    match t {
        PieceType::P => 'p',
        PieceType::N => 'n',
        PieceType::B => 'b',
        PieceType::R => 'r',
        PieceType::Q => 'q',
        PieceType::K => 'k',
        PieceType::E => 'e',
        PieceType::H => 'h',
    }
}

/// The piece type that a letter names, in either case.
pub open spec fn type_of_letter(c: char) -> Option<PieceType> {
    if c == 'P' || c == 'p' {
        Some(PieceType::P)
    } else if c == 'N' || c == 'n' {
        Some(PieceType::N)
    } else if c == 'B' || c == 'b' {
        Some(PieceType::B)
    } else if c == 'R' || c == 'r' {
        Some(PieceType::R)
    } else if c == 'Q' || c == 'q' {
        Some(PieceType::Q)
    } else if c == 'K' || c == 'k' {
        Some(PieceType::K)
    } else if c == 'E' || c == 'e' {
        Some(PieceType::E)
    } else if c == 'H' || c == 'h' {
        Some(PieceType::H)
    } else {
        None
    }
}

/// The types a pawn may promote to: `Q R B N E H`.
pub open spec fn is_promotion_type(t: PieceType) -> bool {
    t != PieceType::P && t != PieceType::K
}

impl PieceType {
    /// The lower-case letter of this type.
    pub fn char_lower(self) -> (c: char)
        ensures
            c == type_letter_lower(self),
    {
        match self {
            PieceType::P => 'p',
            PieceType::N => 'n',
            PieceType::B => 'b',
            PieceType::R => 'r',
            PieceType::Q => 'q',
            PieceType::K => 'k',
            PieceType::E => 'e',
            PieceType::H => 'h',
        }
    }

    /// The upper-case letter of this type.
    pub fn char_upper(self) -> (c: char)
        ensures
            c == type_letter(self),
    {
        match self {
            PieceType::P => 'P',
            PieceType::N => 'N',
            PieceType::B => 'B',
            PieceType::R => 'R',
            PieceType::Q => 'Q',
            PieceType::K => 'K',
            PieceType::E => 'E',
            PieceType::H => 'H',
        }
    }

    /// The type named by the letter `c`, in either case, or `None`.
    pub fn from_char(c: char) -> (r: Option<PieceType>)
        ensures
            r == type_of_letter(c),
    {
        if c == 'P' || c == 'p' {
            Some(PieceType::P)
        } else if c == 'N' || c == 'n' {
            Some(PieceType::N)
        } else if c == 'B' || c == 'b' {
            Some(PieceType::B)
        } else if c == 'R' || c == 'r' {
            Some(PieceType::R)
        } else if c == 'Q' || c == 'q' {
            Some(PieceType::Q)
        } else if c == 'K' || c == 'k' {
            Some(PieceType::K)
        } else if c == 'E' || c == 'e' {
            Some(PieceType::E)
        } else if c == 'H' || c == 'h' {
            Some(PieceType::H)
        } else {
            None
        }
    }
}

/// A square of the 12×12 board: `rank * 12 + file`, both counted from 0
/// (file 0 is `a`, rank 0 is rank 1).
#[derive(Clone, Copy, Debug, PartialEq, Eq, Structural)]
pub struct SQ(pub u8);

/// The number of squares on the board.
pub const SQUARES: u8 = 144;

impl SQ {
    /// The file index of this square, 0 for `a` up to 11 for `l`.
    pub open spec fn file(self) -> int {
        self.0 as int % 12
    }

    /// The rank index of this square, 0 for rank 1 up to 11 for rank 12.
    pub open spec fn rank(self) -> int {
        self.0 as int / 12
    }

    /// The square on file `file` and rank `rank`.
    pub fn make(file: u8, rank: u8) -> (sq: SQ)
        requires
            file < 12,
            rank < 12,
        ensures
            sq.0 == rank * 12 + file,
            sq.file() == file,
            sq.rank() == rank,
    {
        SQ(rank * 12 + file)
    }
}

/// One move: from `src` to `dest`, whether it captures, the type a pawn
/// promotes to, and which castling it is, if it is one (a castling move is
/// written as the king's own move).
#[derive(Clone, Copy, Debug, PartialEq, Eq, Structural)]
pub struct HyperMove {
    pub src: SQ,
    pub dest: SQ,
    pub capture: bool,
    pub promo: Option<PieceType>,
    pub castle: Option<CastleSide>,
}

impl HyperMove {
    /// An ordinary move, or a promotion when `promo` names a type.
    pub fn new(src: SQ, dest: SQ, capture: bool, promo: Option<PieceType>) -> (m: HyperMove)
        ensures
            m == (HyperMove { src, dest, capture, promo, castle: None }),
    {
        HyperMove { src, dest, capture, promo, castle: None }
    }

    /// The king's move of a castling on side `side`.
    pub fn castling(src: SQ, dest: SQ, side: CastleSide) -> (m: HyperMove)
        ensures
            m == (HyperMove { src, dest, capture: false, promo: None, castle: Some(side) }),
    {
        HyperMove { src, dest, capture: false, promo: None, castle: Some(side) }
    }

    /// The coordinate text of this move: source square, destination square,
    /// then the lower-case letter of the promotion type, if any (`d6e8`,
    /// `a11a12q`).
    pub open spec fn uci_text(self) -> Seq<char> {
        seq![file_char(self.src.file())] + rank_text(self.src.rank()) + seq![
            file_char(self.dest.file()),
        ] + rank_text(self.dest.rank()) + match self.promo {
            Some(t) => seq![type_letter_lower(t)],
            None => seq![],
        }
    }

    /// This move in coordinate notation (`d6e8`, `a11a12q`).
    pub fn stringify(&self) -> (r: String)
        requires
            self.src.0 < 144,
            self.dest.0 < 144,
        ensures
            r@ == self.uci_text(),
    {
        let mut v: Vec<char> = Vec::new();
        push_file(&mut v, self.src.0 % 12);
        push_rank(&mut v, self.src.0 / 12);
        push_file(&mut v, self.dest.0 % 12);
        push_rank(&mut v, self.dest.0 / 12);
        match self.promo {
            Some(t) => v.push(t.char_lower()),
            None => {},
        }
        assert(v@ =~= self.uci_text());
        string_of(&v)
    }

    /// The source square.
    pub fn get_src(&self) -> (s: SQ)
        ensures
            s == self.src,
    {
        self.src
    }

    /// The destination square.
    pub fn get_dest(&self) -> (s: SQ)
        ensures
            s == self.dest,
    {
        self.dest
    }

    /// Whether this move captures.
    pub fn is_capture(&self) -> (b: bool)
        ensures
            b == self.capture,
    {
        self.capture
    }

    /// Whether this move promotes a pawn.
    pub fn is_promo(&self) -> (b: bool)
        ensures
            b == self.promo.is_some(),
    {
        self.promo.is_some()
    }

    /// The type a pawn promotes to.
    pub fn promo_piece(&self) -> (t: PieceType)
        requires
            self.promo.is_some(),
        ensures
            self.promo == Some(t),
    {
        self.promo.unwrap()
    }

    /// Whether this is the king-side castling.
    pub fn is_king_castle(&self) -> (b: bool)
        ensures
            b == (self.castle == Some(CastleSide::King)),
    {
        match self.castle {
            Some(CastleSide::King) => true,
            _ => false,
        }
    }

    /// Whether this is the queen-side castling.
    pub fn is_queen_castle(&self) -> (b: bool)
        ensures
            b == (self.castle == Some(CastleSide::Queen)),
    {
        match self.castle {
            Some(CastleSide::Queen) => true,
            _ => false,
        }
    }
}

/// What a legal move leads to: whether the opponent's king then stands in
/// check, and how many legal replies the opponent then has.
#[derive(Clone, Copy, Debug, PartialEq, Eq, Structural)]
pub struct MoveOutcome {
    pub gives_check: bool,
    pub replies: usize,
}

/// The mathematical content of a `Board`.
pub struct BoardView {
    /// What stands on each square, by square index; `None` for an empty square.
    pub pieces: Seq<Option<PieceType>>,
    /// The legal moves of the side to move.
    pub moves: Seq<HyperMove>,
    /// `outcomes[i]` is what `moves[i]` leads to.
    pub outcomes: Seq<MoveOutcome>,
}

impl BoardView {
    /// The type of the piece on the source square of `m`.
    pub open spec fn mover(self, m: HyperMove) -> PieceType {
        self.pieces[m.src.0 as int].unwrap()
    }

    /// Whether `m` is one of the legal moves.
    pub open spec fn is_legal(self, m: HyperMove) -> bool {
        self.moves.contains(m)
    }

    /// A legal move on its own: its squares are on the board, a piece stands
    /// on its source square, a promotion names a type of the promotion set,
    /// and a castling is a move of the king.
    pub open spec fn move_ok(self, m: HyperMove) -> bool {
        &&& m.src.0 < SQUARES
        &&& m.dest.0 < SQUARES
        &&& self.pieces[m.src.0 as int] is Some
        &&& (m.promo matches Some(t) ==> is_promotion_type(t))
        &&& (m.castle is Some ==> self.pieces[m.src.0 as int] == Some(PieceType::K))
    }

    /// Two different legal moves `a` and `b` of one position: they differ in
    /// source, destination or promotion; a side castles at most one way on each
    /// side; and two pawn moves that reach the same square alike (both quiet,
    /// or both capturing, with the same promotion) are captures from
    /// different files.
    pub open spec fn apart(self, a: HyperMove, b: HyperMove) -> bool {
        &&& !(a.src == b.src && a.dest == b.dest && a.promo == b.promo)
        &&& (a.castle is Some ==> a.castle != b.castle)
        &&& ({
            &&& self.mover(a) == PieceType::P
            &&& self.mover(b) == PieceType::P
            &&& a.castle is None
            &&& b.castle is None
            &&& a.dest == b.dest
            &&& a.capture == b.capture
            &&& a.promo == b.promo
        } ==> a.capture && a.src.file() != b.src.file())
    }

    /// The invariant of a position.
    pub open spec fn wf(self) -> bool {
        &&& self.pieces.len() == SQUARES
        &&& self.moves.len() == self.outcomes.len()
        &&& forall|i: int| 0 <= i < self.moves.len() ==> #[trigger] self.move_ok(self.moves[i])
        &&& forall|i: int, j: int|
            0 <= i < self.moves.len() && 0 <= j < self.moves.len() && i != j ==> #[trigger] self.apart(
                self.moves[i],
                self.moves[j],
            )
    }

    /// The index of the legal move `m`.
    pub open spec fn index_of(self, m: HyperMove) -> int {
        choose|i: int| 0 <= i < self.moves.len() && self.moves[i] == m
    }

    /// What the legal move `m` leads to.
    pub open spec fn outcome_of(self, m: HyperMove) -> MoveOutcome {
        self.outcomes[self.index_of(m)]
    }
}

/// A position, as far as HSAN needs one.
pub struct Board {
    pieces: Vec<Option<PieceType>>,
    moves: Vec<HyperMove>,
    outcomes: Vec<MoveOutcome>,
}

impl View for Board {
    type V = BoardView;

    closed spec fn view(&self) -> BoardView {
        BoardView { pieces: self.pieces@, moves: self.moves@, outcomes: self.outcomes@ }
    }
}

impl Board {
    #[verifier::type_invariant]
    pub open spec fn inv(self) -> bool {
        self@.wf()
    }

    /// A board from its squares (144 of them, by square index), its legal moves
    /// and what each of them leads to; `None` where these break the invariant
    /// of a position.
    pub fn new(pieces: Vec<Option<PieceType>>, moves: Vec<HyperMove>, outcomes: Vec<MoveOutcome>) -> (r: Option<Board>)
        ensures
            r is Some <==> (BoardView { pieces: pieces@, moves: moves@, outcomes: outcomes@ }).wf(),
            r matches Some(b) ==> b@ == (BoardView { pieces: pieces@, moves: moves@, outcomes: outcomes@ }),
    {
        let ghost v = BoardView { pieces: pieces@, moves: moves@, outcomes: outcomes@ };
        if pieces.len() != 144 || moves.len() != outcomes.len() {
            return None;
        }
        let n = moves.len();
        let mut i: usize = 0;
        while i < n
            invariant
                i <= n,
                n == moves@.len(),
                pieces@.len() == 144,
                v == (BoardView { pieces: pieces@, moves: moves@, outcomes: outcomes@ }),
                forall|k: int| 0 <= k < i ==> #[trigger] v.move_ok(v.moves[k]),
            decreases n - i,
        {
            let m = moves[i];
            if m.src.0 >= 144 || m.dest.0 >= 144 {
                assert(!v.move_ok(v.moves[i as int]));
                assert(!v.wf());
                return None;
            }
            if pieces[m.src.0 as usize].is_none() {
                assert(!v.move_ok(v.moves[i as int]));
                assert(!v.wf());
                return None;
            }
            match m.promo {
                Some(t) => {
                    if t == PieceType::P || t == PieceType::K {
                        assert(!v.move_ok(v.moves[i as int]));
                assert(!v.wf());
                        return None;
                    }
                },
                None => {},
            }
            if m.castle.is_some() && pieces[m.src.0 as usize] != Some(PieceType::K) {
                assert(!v.move_ok(v.moves[i as int]));
                assert(!v.wf());
                return None;
            }
            i = i + 1;
        }
        let mut i: usize = 0;
        while i < n
            invariant
                i <= n,
                n == moves@.len(),
                pieces@.len() == 144,
                v == (BoardView { pieces: pieces@, moves: moves@, outcomes: outcomes@ }),
                forall|k: int| 0 <= k < n ==> #[trigger] v.move_ok(v.moves[k]),
                forall|a: int, b: int|
                    0 <= a < i && 0 <= b < n && a != b ==> #[trigger] v.apart(v.moves[a], v.moves[b]),
            decreases n - i,
        {
            let mut j: usize = 0;
            while j < n
                invariant
                    i < n,
                    j <= n,
                    n == moves@.len(),
                    pieces@.len() == 144,
                    v == (BoardView { pieces: pieces@, moves: moves@, outcomes: outcomes@ }),
                    forall|k: int| 0 <= k < n ==> #[trigger] v.move_ok(v.moves[k]),
                    forall|b: int| 0 <= b < j && b != i ==> #[trigger] v.apart(v.moves[i as int], v.moves[b]),
                decreases n - j,
            {
                if j != i {
                    assert(v.move_ok(v.moves[i as int]));
                    assert(v.move_ok(v.moves[j as int]));
                    if !Self::apart(&pieces, moves[i], moves[j]) {
                        assert(!v.apart(v.moves[i as int], v.moves[j as int]));
                        assert(!v.wf());
                        return None;
                    }
                }
                j = j + 1;
            }
            i = i + 1;
        }
        Some(Board { pieces, moves, outcomes })
    }

    fn apart(pieces: &Vec<Option<PieceType>>, a: HyperMove, b: HyperMove) -> (r: bool)
        requires
            pieces@.len() == 144,
            a.src.0 < 144,
            b.src.0 < 144,
            pieces@[a.src.0 as int] is Some,
            pieces@[b.src.0 as int] is Some,
        ensures
            r == (BoardView { pieces: pieces@, moves: Seq::empty(), outcomes: Seq::empty() }).apart(a, b),
    {
        if a.src == b.src && a.dest == b.dest && a.promo == b.promo {
            return false;
        }
        if a.castle.is_some() && a.castle == b.castle {
            return false;
        }
        let pawn_a = pieces[a.src.0 as usize] == Some(PieceType::P);
        let pawn_b = pieces[b.src.0 as usize] == Some(PieceType::P);
        if pawn_a && pawn_b && a.castle.is_none() && b.castle.is_none() && a.dest == b.dest
            && a.capture == b.capture && a.promo == b.promo {
            a.capture && a.src.0 % 12 != b.src.0 % 12
        } else {
            true
        }
    }

    /// The legal moves of the side to move.
    pub fn generate_moves(&self) -> (r: &Vec<HyperMove>)
        ensures
            r@ == self@.moves,
    {
        &self.moves
    }

    /// What stands on `sq`.
    pub fn piece_at(&self, sq: SQ) -> (r: Option<PieceType>)
        requires
            sq.0 < 144,
        ensures
            r == self@.pieces[sq.0 as int],
    {
        proof {
            use_type_invariant(self);
        }
        self.pieces[sq.0 as usize]
    }

    /// What the legal move at index `i` leads to.
    pub fn outcome(&self, i: usize) -> (r: MoveOutcome)
        requires
            i < self@.moves.len(),
        ensures
            r == self@.outcomes[i as int],
    {
        proof {
            use_type_invariant(self);
        }
        self.outcomes[i]
    }
}

} // verus!
