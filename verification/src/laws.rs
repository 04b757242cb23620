//! What holds of HSAN as a whole: every string of the grammar reads back as
//! the parts it was written from; the HSAN string of a legal move reads back
//! and resolves to that very move; so no two legal moves of a position share a
//! HSAN string; and a resolved move is the one legal move that meets every
//! constraint of the string.
use vstd::prelude::*;

use crate::board::{type_letter, type_of_letter, BoardView, HyperMove, MoveOutcome, PieceType};
use crate::hsan_export::{
    disambiguation_text,
    file_shared,
    has_rival,
    hsan_text,
    is_rival,
    marker_text,
    rank_shared,
    square_text,
};
use crate::hsan_parse::{
    castling,
    castlings,
    file_char,
    file_index,
    fits,
    fitting,
    hsan_parts,
    is_file_char,
    is_long_castle,
    is_piece_letter,
    is_promotion_letter,
    is_short_castle,
    lemma_rfind_in_range,
    rank_text,
    read_disambiguation,
    read_normal,
    resolution,
    rfind,
    split_capture,
    split_marker,
    split_piece,
    split_promotion,
    trailing_file,
    trailing_rank,
    trim,
    trim_start,
    wanted_type,
    CastleSide,
    CheckMarker,
    HsanMove,
};
use crate::text::{digit_char, is_white_space};

verus! {

// ── The grammar, written out ────────────────────────────────────────────────

/// The characters of a check marker.
pub open spec fn marker_chars(c: CheckMarker) -> Seq<char> {
    match c {
        CheckMarker::Unmarked => seq![],
        CheckMarker::Check => seq!['+'],
        CheckMarker::Checkmate => seq!['#'],
    }
}

/// The characters of an optional piece letter.
pub open spec fn piece_chars(p: Option<char>) -> Seq<char> {
    match p {
        Some(c) => seq![c],
        None => seq![],
    }
}

/// The characters of the source disambiguation: file, then rank.
pub open spec fn disamb_chars(file: Option<u8>, rank: Option<u8>) -> Seq<char> {
    (match file {
        Some(f) => seq![file_char(f as int)],
        None => seq![],
    }) + (match rank {
        Some(r) => rank_text(r as int),
        None => seq![],
    })
}

/// The characters of the capture marker.
pub open spec fn capture_chars(c: bool) -> Seq<char> {
    if c {
        seq!['x']
    } else {
        seq![]
    }
}

/// The characters of a destination square given by file and rank.
pub open spec fn dest_chars(file: u8, rank: u8) -> Seq<char> {
    seq![file_char(file as int)] + rank_text(rank as int)
}

/// The characters of a promotion suffix.
pub open spec fn promo_chars(p: Option<char>) -> Seq<char> {
    match p {
        Some(c) => seq!['=', c],
        None => seq![],
    }
}

/// The HSAN string with the parts `hm`, as the grammar writes it.
pub open spec fn render(hm: HsanMove) -> Seq<char> {
    match hm.castle {
        Some(CastleSide::King) => seq!['O', '-', 'O'] + marker_chars(hm.check_marker),
        Some(CastleSide::Queen) => seq!['O', '-', 'O', '-', 'O'] + marker_chars(hm.check_marker),
        None => piece_chars(hm.piece) + disamb_chars(hm.src_file, hm.src_rank) + capture_chars(
            hm.is_capture,
        ) + dest_chars(hm.dst_file, hm.dst_rank) + promo_chars(hm.promotion) + marker_chars(
            hm.check_marker,
        ),
    }
}

/// Parts that the grammar can write: a castling token, or a move whose piece
/// letter, files, ranks and promotion letter are all in range.
pub open spec fn parts_wf(hm: HsanMove) -> bool {
    match hm.castle {
        Some(side) => hm == castling(side, hm.check_marker),
        None => {
            &&& (hm.piece matches Some(c) ==> is_piece_letter(c))
            &&& (hm.src_file matches Some(f) ==> f < 12)
            &&& (hm.src_rank matches Some(r) ==> r < 12)
            &&& hm.dst_file < 12
            &&& hm.dst_rank < 12
            &&& (hm.promotion matches Some(c) ==> is_promotion_letter(c))
        },
    }
}

/// The check marker a move with outcome `o` is written with.
pub open spec fn marker_of(o: MoveOutcome) -> CheckMarker {
    if !o.gives_check {
        CheckMarker::Unmarked
    } else if o.replies == 0 {
        CheckMarker::Checkmate
    } else {
        CheckMarker::Check
    }
}

/// The parts that the HSAN string of the legal move `m` writes down.
pub open spec fn exported_parts(b: BoardView, m: HyperMove) -> HsanMove {
    let marker = marker_of(b.outcome_of(m));
    match m.castle {
        Some(side) => castling(side, marker),
        None => {
            let t = b.mover(m);
            let file = m.src.file() as u8;
            let rank = m.src.rank() as u8;
            let (src_file, src_rank) = if t == PieceType::P {
                (
                    if m.capture {
                        Some(file)
                    } else {
                        None
                    },
                    None,
                )
            } else if !has_rival(b, m, t) {
                (None, None)
            } else if !file_shared(b, m, t) {
                (Some(file), None)
            } else if !rank_shared(b, m, t) {
                (None, Some(rank))
            } else {
                (Some(file), Some(rank))
            };
            HsanMove {
                piece: if t == PieceType::P {
                    None
                } else {
                    Some(type_letter(t))
                },
                src_file,
                src_rank,
                dst_file: m.dest.file() as u8,
                dst_rank: m.dest.rank() as u8,
                is_capture: m.capture,
                promotion: match m.promo {
                    Some(p) => Some(type_letter(p)),
                    None => None,
                },
                check_marker: marker,
                castle: None,
            }
        },
    }
}


// ── Writing ─────────────────────────────────────────────────────────────────

proof fn lemma_legal_move_ok(b: BoardView, m: HyperMove)
    requires
        b.wf(),
        b.is_legal(m),
    ensures
        b.move_ok(m),
        0 <= b.index_of(m) < b.moves.len(),
        b.moves[b.index_of(m)] == m,
{
    let k = choose|k: int| 0 <= k < b.moves.len() && b.moves[k] == m;
    assert(b.move_ok(b.moves[k]));
}

proof fn lemma_letters(t: PieceType)
    ensures
        type_of_letter(type_letter(t)) == Some(t),
        t != PieceType::P ==> is_piece_letter(type_letter(t)),
        t != PieceType::P && t != PieceType::K ==> is_promotion_letter(type_letter(t)),
{
}

/// The HSAN string of a legal move is the grammar's rendering of the parts
/// it writes down, and those parts are ones the grammar can write.
pub proof fn lemma_export_renders(b: BoardView, m: HyperMove)
    requires
        b.wf(),
        b.is_legal(m),
    ensures
        hsan_text(b, m) == render(exported_parts(b, m)),
        parts_wf(exported_parts(b, m)),
{
    lemma_legal_move_ok(b, m);
    let hm = exported_parts(b, m);
    assert(marker_text(b.outcome_of(m)) =~= marker_chars(hm.check_marker));
    if m.castle is None {
        let t = b.mover(m);
        lemma_letters(t);
        if let Some(p) = m.promo {
            lemma_letters(p);
        }
        assert(dest_chars(hm.dst_file, hm.dst_rank) =~= square_text(m.dest));
        if t == PieceType::P {
            assert(disamb_chars(hm.src_file, hm.src_rank) =~= (if m.capture {
                seq![file_char(m.src.file())]
            } else {
                seq![]
            }));
        } else {
            assert(disamb_chars(hm.src_file, hm.src_rank) =~= disambiguation_text(b, m, t));
        }
        assert(hsan_text(b, m) =~= render(hm));
    } else {
        assert(hsan_text(b, m) =~= render(hm));
    }
}


// ── Reading back ────────────────────────────────────────────────────────────

proof fn lemma_file_char(f: int)
    requires
        0 <= f < 12,
    ensures
        file_char(f) as u32 == f + 97,
        is_file_char(file_char(f)),
        file_index(file_char(f)) == f,
        !is_white_space(file_char(f)),
        !is_piece_letter(file_char(f)),
{
}

proof fn lemma_digit_char(d: nat)
    requires
        d < 10,
    ensures
        digit_char(d) as u32 == d + 48,
        '0' <= digit_char(d) <= '9',
        !is_white_space(digit_char(d)),
        !is_file_char(digit_char(d)),
        !is_piece_letter(digit_char(d)),
{
}

/// A character that may follow the piece letter: a file letter, a digit or
/// the capture marker.
spec fn inner_char(c: char) -> bool {
    is_file_char(c) || ('0' <= c && c <= '9') || c == 'x'
}

proof fn lemma_rank_text(r: int)
    requires
        0 <= r < 12,
    ensures
        forall|i: int| 0 <= i < rank_text(r).len() ==> #[trigger] inner_char(rank_text(r)[i]),
        rank_text(r).len() > 0,
        !is_white_space(rank_text(r).last()),
        r < 9 ==> rank_text(r).len() == 1 && '1' <= rank_text(r)[0] <= '9' && rank_text(r)[0] as u32
            - '1' as u32 == r,
        r >= 9 ==> rank_text(r).len() == 2 && rank_text(r)[0] == '1' && '0' <= rank_text(r)[1] <= '2'
            && rank_text(r)[1] as u32 - '0' as u32 + 9 == r,
{
    if r < 9 {
        lemma_digit_char((r + 1) as nat);
    } else {
        lemma_digit_char((r - 9) as nat);
    }
}

/// The characters after the piece letter and before the promotion suffix.
spec fn inner_chars(hm: HsanMove) -> Seq<char> {
    disamb_chars(hm.src_file, hm.src_rank) + capture_chars(hm.is_capture) + dest_chars(
        hm.dst_file,
        hm.dst_rank,
    )
}

proof fn lemma_inner_chars(hm: HsanMove)
    requires
        hm.castle is None,
        parts_wf(hm),
    ensures
        forall|i: int| 0 <= i < inner_chars(hm).len() ==> #[trigger] inner_char(inner_chars(hm)[i]),
{
    lemma_file_char(hm.dst_file as int);
    lemma_rank_text(hm.dst_rank as int);
    if let Some(f) = hm.src_file {
        lemma_file_char(f as int);
    }
    if let Some(r) = hm.src_rank {
        lemma_rank_text(r as int);
    }
    let s = inner_chars(hm);
    assert forall|i: int| 0 <= i < s.len() implies #[trigger] inner_char(s[i]) by {
        let d = disamb_chars(hm.src_file, hm.src_rank);
        let fpart = match hm.src_file {
            Some(f) => seq![file_char(f as int)],
            None => Seq::<char>::empty(),
        };
        let rpart = match hm.src_rank {
            Some(r) => rank_text(r as int),
            None => Seq::<char>::empty(),
        };
        assert(d == fpart + rpart);
        let c = capture_chars(hm.is_capture);
        let e = dest_chars(hm.dst_file, hm.dst_rank);
        assert(s == d + c + e);
        if i < fpart.len() {
            assert(s[i] == fpart[i]);
        } else if i < d.len() {
            assert(s[i] == rpart[i - fpart.len()]);
        } else if i < d.len() + c.len() {
            assert(s[i] == c[i - d.len()]);
        } else if i == d.len() + c.len() {
            assert(s[i] == file_char(hm.dst_file as int));
        } else {
            assert(s[i] == rank_text(hm.dst_rank as int)[i - d.len() - c.len() - 1]);
        }
    }
}

proof fn lemma_rfind_absent(s: Seq<char>, c: char)
    requires
        forall|i: int| 0 <= i < s.len() ==> s[i] != c,
    ensures
        rfind(s, c) is None,
    decreases s.len(),
{
    if s.len() > 0 {
        lemma_rfind_absent(s.drop_last(), c);
    }
}

/// Reading the source disambiguation back.
proof fn lemma_read_disambiguation(hm: HsanMove)
    requires
        hm.castle is None,
        parts_wf(hm),
    ensures
        read_disambiguation(disamb_chars(hm.src_file, hm.src_rank)) == Ok::<
            (Option<u8>, Option<u8>),
            crate::hsan_parse::HsanFault,
        >((hm.src_file, hm.src_rank)),
{
    let fpart = match hm.src_file {
        Some(f) => seq![file_char(f as int)],
        None => Seq::<char>::empty(),
    };
    let d = disamb_chars(hm.src_file, hm.src_rank);
    if let Some(f) = hm.src_file {
        lemma_file_char(f as int);
    }
    match hm.src_rank {
        Some(r) => {
            lemma_rank_text(r as int);
            let rt = rank_text(r as int);
            assert(d == fpart + rt);
            if r < 9 {
                assert(d.subrange(0, d.len() - 1) =~= fpart);
            } else {
                assert(d.subrange(0, d.len() - 2) =~= fpart);
            }
            assert(trailing_rank(d) == Some((fpart, r)));
        },
        None => {
            assert(d =~= fpart);
            assert(trailing_rank(d) is None);
        },
    }
    if hm.src_file is Some {
        assert(fpart.drop_last() =~= Seq::<char>::empty());
    }
}


/// Reading back the destination square at the end of the text.
proof fn lemma_read_destination(hm: HsanMove)
    requires
        hm.castle is None,
        parts_wf(hm),
    ensures
        ({
            let x = disamb_chars(hm.src_file, hm.src_rank) + capture_chars(hm.is_capture);
            &&& trailing_rank(inner_chars(hm)) == Some((x + seq![file_char(hm.dst_file as int)], hm.dst_rank))
            &&& trailing_file(x + seq![file_char(hm.dst_file as int)]) == Some((x, hm.dst_file))
        }),
{
    let inner = inner_chars(hm);
    let x = disamb_chars(hm.src_file, hm.src_rank) + capture_chars(hm.is_capture);
    let fc = file_char(hm.dst_file as int);
    let rt = rank_text(hm.dst_rank as int);
    lemma_file_char(hm.dst_file as int);
    lemma_rank_text(hm.dst_rank as int);
    assert(inner =~= x + seq![fc] + rt);
    let n = inner.len() as int;
    if hm.dst_rank < 9 {
        assert(inner[n - 2] == fc);
        assert(inner.subrange(0, n - 1) =~= x + seq![fc]);
    } else {
        assert(inner.subrange(0, n - 2) =~= x + seq![fc]);
    }
    assert((x + seq![fc]).drop_last() =~= x);
}

/// Reading back the capture marker before the destination.
proof fn lemma_read_capture(hm: HsanMove)
    requires
        hm.castle is None,
        parts_wf(hm),
    ensures
        ({
            let dc = disamb_chars(hm.src_file, hm.src_rank);
            split_capture(dc + capture_chars(hm.is_capture)) == (dc, hm.is_capture)
        }),
{
    let dc = disamb_chars(hm.src_file, hm.src_rank);
    let x = dc + capture_chars(hm.is_capture);
    if hm.is_capture {
        assert(x.drop_last() =~= dc);
    } else {
        assert(x =~= dc);
        if dc.len() > 0 {
            lemma_inner_chars(hm);
            let inner = inner_chars(hm);
            assert(inner[dc.len() - 1] == dc.last());
            assert(inner_char(inner[dc.len() - 1]));
            if let Some(r) = hm.src_rank {
                lemma_rank_text(r as int);
                assert(dc.last() == rank_text(r as int).last());
            } else {
                let f = hm.src_file.unwrap();
                lemma_file_char(f as int);
                assert(dc.last() == file_char(f as int));
            }
        }
    }
}

/// Reading back the text between the check marker and the promotion suffix.
proof fn lemma_read_normal(hm: HsanMove)
    requires
        hm.castle is None,
        parts_wf(hm),
    ensures
        read_normal(piece_chars(hm.piece) + inner_chars(hm), hm.promotion, hm.check_marker) == Ok::<
            HsanMove,
            crate::hsan_parse::HsanFault,
        >(hm),
{
    let pc = piece_chars(hm.piece);
    let inner = inner_chars(hm);
    let core = pc + inner;
    lemma_inner_chars(hm);
    // The piece letter.
    if let Some(c) = hm.piece {
        assert(core[0] == c);
        assert(core.subrange(1, core.len() as int) =~= inner);
    } else {
        assert(core =~= inner);
        lemma_file_char(hm.dst_file as int);
        assert(inner.len() > 0);
        assert(inner_char(inner[0]));
    }
    assert(split_piece(core) == (inner, hm.piece));
    lemma_read_destination(hm);
    lemma_read_capture(hm);
    lemma_read_disambiguation(hm);
}

proof fn lemma_trim_noop(s: Seq<char>)
    requires
        s.len() > 0,
        !is_white_space(s[0]),
        !is_white_space(s.last()),
    ensures
        trim(s) == s,
{
    assert(trim_start(s) == s);
}

proof fn lemma_split_promotion(core: Seq<char>, promotion: Option<char>)
    requires
        forall|i: int| 0 <= i < core.len() ==> core[i] != '=',
        promotion matches Some(p) ==> is_promotion_letter(p),
    ensures
        split_promotion(core + promo_chars(promotion)) == Ok::<
            (Seq<char>, Option<char>),
            crate::hsan_parse::HsanFault,
        >((core, promotion)),
{
    let body = core + promo_chars(promotion);
    match promotion {
        Some(p) => {
            assert(body.drop_last() =~= core.push('='));
            assert(rfind(body.drop_last(), '=') == Some(body.len() - 2));
            assert(rfind(body, '=') == Some(body.len() - 2));
            assert(body.subrange(body.len() - 1, body.len() as int) =~= seq![p]);
            assert(body.subrange(0, body.len() - 2) =~= core);
        },
        None => {
            assert(body =~= core);
            lemma_rfind_absent(core, '=');
        },
    }
}

proof fn lemma_castle_round_trip(hm: HsanMove)
    requires
        parts_wf(hm),
        hm.castle is Some,
    ensures
        hsan_parts(render(hm)) == Ok::<HsanMove, crate::hsan_parse::HsanFault>(hm),
{
    let s = render(hm);
    let mk = marker_chars(hm.check_marker);
    let body = if hm.castle == Some(CastleSide::King) {
        seq!['O', '-', 'O']
    } else {
        seq!['O', '-', 'O', '-', 'O']
    };
    assert(s == body + mk);
    lemma_trim_noop(s);
    lemma_marker_split(body, hm.check_marker);
}

proof fn lemma_marker_split(body: Seq<char>, c: CheckMarker)
    requires
        body.len() > 0,
        body.last() != '#',
        body.last() != '+',
    ensures
        split_marker(body + marker_chars(c)) == (body, c),
{
    let mk = marker_chars(c);
    if mk.len() > 0 {
        assert((body + mk).drop_last() =~= body);
    } else {
        assert(body + mk =~= body);
    }
}

/// The characters before the promotion suffix hold no `=` and no `-`.
proof fn lemma_core_chars(hm: HsanMove)
    requires
        hm.castle is None,
        parts_wf(hm),
    ensures
        forall|i: int|
            0 <= i < (piece_chars(hm.piece) + inner_chars(hm)).len() ==> (piece_chars(hm.piece)
                + inner_chars(hm))[i] != '=' && (piece_chars(hm.piece) + inner_chars(hm))[i] != '-',
{
    let pc = piece_chars(hm.piece);
    let inner = inner_chars(hm);
    let core = pc + inner;
    lemma_inner_chars(hm);
    assert forall|i: int| 0 <= i < core.len() implies core[i] != '=' && core[i] != '-' by {
        if i >= pc.len() {
            assert(core[i] == inner[i - pc.len()]);
            assert(inner_char(inner[i - pc.len()]));
        }
    }
}

/// The ends of the text before the check marker.
proof fn lemma_normal_body(hm: HsanMove)
    requires
        parts_wf(hm),
        hm.castle is None,
    ensures
        ({
            let body = piece_chars(hm.piece) + inner_chars(hm) + promo_chars(hm.promotion);
            &&& body.len() >= 2
            &&& !is_white_space(body[0])
            &&& !is_white_space(body.last())
            &&& body.last() != '#'
            &&& body.last() != '+'
            &&& body[1] != '-'
        }),
{
    let pc = piece_chars(hm.piece);
    let inner = inner_chars(hm);
    let core = pc + inner;
    let body = core + promo_chars(hm.promotion);
    lemma_inner_chars(hm);
    lemma_rank_text(hm.dst_rank as int);
    lemma_core_chars(hm);
    assert(inner.len() >= 2);
    if pc.len() > 0 {
        assert(body[0] == pc[0]);
    } else {
        assert(body[0] == inner[0]);
        assert(inner_char(inner[0]));
    }
    assert(body[1] == core[1]);
    assert(inner.last() == rank_text(hm.dst_rank as int).last());
    if hm.promotion is None {
        assert(body.last() == inner.last());
    }
}

proof fn lemma_normal_round_trip(hm: HsanMove)
    requires
        parts_wf(hm),
        hm.castle is None,
    ensures
        hsan_parts(render(hm)) == Ok::<HsanMove, crate::hsan_parse::HsanFault>(hm),
{
    let s = render(hm);
    let mk = marker_chars(hm.check_marker);
    let core = piece_chars(hm.piece) + inner_chars(hm);
    let body = core + promo_chars(hm.promotion);
    assert(s =~= body + mk);
    lemma_normal_body(hm);
    assert(s[0] == body[0]);
    lemma_trim_noop(s);
    lemma_marker_split(body, hm.check_marker);
    lemma_core_chars(hm);
    lemma_split_promotion(core, hm.promotion);
    lemma_read_normal(hm);
}

/// Grammar round trip: every string the grammar writes reads back as the
/// parts it was written from. In particular ranks `10`, `11` and `12` read as
/// two-digit ranks, anchored at the end of the destination.
pub proof fn law_grammar_round_trip(hm: HsanMove)
    requires
        parts_wf(hm),
    ensures
        hsan_parts(render(hm)) == Ok::<HsanMove, crate::hsan_parse::HsanFault>(hm),
{
    if hm.castle is Some {
        lemma_castle_round_trip(hm);
    } else {
        lemma_normal_round_trip(hm);
    }
}


// ── Resolving back ──────────────────────────────────────────────────────────

proof fn lemma_filter_none(s: Seq<HyperMove>, pred: spec_fn(HyperMove) -> bool)
    requires
        forall|i: int| 0 <= i < s.len() ==> !pred(#[trigger] s[i]),
    ensures
        s.filter(pred) =~= Seq::<HyperMove>::empty(),
    decreases s.len(),
{
    reveal(Seq::filter);
    if s.len() > 0 {
        lemma_filter_none(s.drop_last(), pred);
    }
}

proof fn lemma_filter_single(s: Seq<HyperMove>, pred: spec_fn(HyperMove) -> bool, k: int)
    requires
        0 <= k < s.len(),
        pred(s[k]),
        forall|i: int| 0 <= i < s.len() && i != k ==> !pred(#[trigger] s[i]),
    ensures
        s.filter(pred) =~= seq![s[k]],
    decreases s.len(),
{
    reveal(Seq::filter);
    if k == s.len() - 1 {
        lemma_filter_none(s.drop_last(), pred);
    } else {
        lemma_filter_single(s.drop_last(), pred, k);
    }
}

proof fn lemma_resolve_castle(b: BoardView, m: HyperMove)
    requires
        b.wf(),
        b.is_legal(m),
        m.castle is Some,
    ensures
        resolution(b, exported_parts(b, m)) == Ok::<HyperMove, crate::hsan_parse::ResolveFault>(m),
{
    lemma_legal_move_ok(b, m);
    let k = b.index_of(m);
    let side = m.castle.unwrap();
    let pred = |o: HyperMove| o.castle == Some(side);
    assert forall|i: int| 0 <= i < b.moves.len() && i != k implies !pred(#[trigger] b.moves[i]) by {
        assert(b.apart(b.moves[k], b.moves[i]));
    }
    lemma_filter_single(b.moves, pred, k);
    assert(castlings(b.moves, side) == b.moves.filter(pred));
}

proof fn lemma_resolve_normal(b: BoardView, m: HyperMove)
    requires
        b.wf(),
        b.is_legal(m),
        m.castle is None,
    ensures
        resolution(b, exported_parts(b, m)) == Ok::<HyperMove, crate::hsan_parse::ResolveFault>(m),
{
    lemma_legal_move_ok(b, m);
    let k = b.index_of(m);
    let hm = exported_parts(b, m);
    let t = b.mover(m);
    lemma_letters(t);
    if let Some(p) = m.promo {
        lemma_letters(p);
    }
    assert(wanted_type(hm) == Some(t));
    let pred = |o: HyperMove| fits(b, hm, t, o);
    assert(fits(b, hm, t, m));
    assert forall|i: int| 0 <= i < b.moves.len() && i != k implies !pred(#[trigger] b.moves[i]) by {
        let o = b.moves[i];
        assert(b.apart(m, o));
        assert(b.move_ok(o));
        if fits(b, hm, t, o) {
            assert(o.dest == m.dest);
            assert(o.promo == m.promo);
            if let Some(p) = m.promo {
                lemma_letters(p);
            }
            if t != PieceType::P {
                assert(is_rival(b, m, t, b.moves[i]));
                if o.src.file() == m.src.file() && o.src.rank() == m.src.rank() {
                    assert(o.src == m.src);
                }
            }
        }
    }
    lemma_filter_single(b.moves, pred, k);
    assert(fitting(b.moves, b, hm, t) == b.moves.filter(pred));
}

/// The parts that the HSAN string of a legal move writes down resolve to
/// that move.
pub proof fn lemma_resolve_exported(b: BoardView, m: HyperMove)
    requires
        b.wf(),
        b.is_legal(m),
    ensures
        resolution(b, exported_parts(b, m)) == Ok::<HyperMove, crate::hsan_parse::ResolveFault>(m),
{
    if m.castle is Some {
        lemma_resolve_castle(b, m);
    } else {
        lemma_resolve_normal(b, m);
    }
}


// ── The laws ────────────────────────────────────────────────────────────────

/// Round trip: the HSAN string of a legal move parses, the parts it reads as
/// are ones `hsan_to_hypermove` accepts, and they resolve to that very move:
/// `resolve(parse(export(m, p)), p) == m`.
pub proof fn law_export_round_trip(b: BoardView, m: HyperMove)
    requires
        b.wf(),
        b.is_legal(m),
    ensures
        hsan_parts(hsan_text(b, m)) matches Ok(hm) && (hm.castle is None ==> hm.dst_file < 12
            && hm.dst_rank < 12) && resolution(b, hm) == Ok::<
            HyperMove,
            crate::hsan_parse::ResolveFault,
        >(m),
{
    lemma_export_renders(b, m);
    law_grammar_round_trip(exported_parts(b, m));
    lemma_resolve_exported(b, m);
}

/// No two legal moves of a position share a HSAN string.
pub proof fn law_hsan_strings_are_unique(b: BoardView, m1: HyperMove, m2: HyperMove)
    requires
        b.wf(),
        b.is_legal(m1),
        b.is_legal(m2),
        hsan_text(b, m1) == hsan_text(b, m2),
    ensures
        m1 == m2,
{
    law_export_round_trip(b, m1);
    law_export_round_trip(b, m2);
}

/// What the reader accepts is in range: a castling token, or parts whose
/// piece letter is one of `K Q R B N E H`, whose files and ranks lie on the
/// 12×12 board, and whose promotion is one of `Q R B N E H`.
pub proof fn law_parsed_parts_are_in_range(input: Seq<char>)
    ensures
        hsan_parts(input) matches Ok(hm) ==> parts_wf(hm),
{
    let s = trim(input);
    if s.len() > 0 {
        let body = split_marker(s).0;
        if !is_long_castle(body) && !is_short_castle(body) {
            if let Ok((body2, promotion)) = split_promotion(body) {
                let rest = split_piece(body2).0;
                if let Some((rest1, _)) = trailing_rank(rest) {
                    if let Some((rest2, _)) = trailing_file(rest1) {
                        let rest3 = split_capture(rest2).0;
                        if let Some((head, _)) = trailing_rank(rest3) {
                            assert(trailing_file(head) matches Some((_, f)) ==> f < 12);
                        } else {
                            assert(trailing_file(rest3) matches Some((_, f)) ==> f < 12);
                        }
                    }
                }
            }
        }
    }
}

/// Resolution never guesses: the move it yields is legal and the only legal
/// move that meets every constraint of the parts, the piece letter included;
/// a castling token yields a legal castling on the side it names.
pub proof fn law_resolution_is_exact(b: BoardView, hm: HsanMove)
    requires
        b.wf(),
    ensures
        resolution(b, hm) matches Ok(m) ==> {
            &&& b.is_legal(m)
            &&& match hm.castle {
                Some(side) => m.castle == Some(side),
                None => wanted_type(hm) matches Some(t) && fits(b, hm, t, m) && forall|o: HyperMove|
                    b.is_legal(o) && #[trigger] fits(b, hm, t, o) ==> o == m,
            }
        },
{
    broadcast use vstd::seq_lib::group_filter_ensures;

    if let Ok(m) = resolution(b, hm) {
        match hm.castle {
            Some(side) => {
                let found = castlings(b.moves, side);
                assert(found.contains(found[0]));
                b.moves.lemma_filter_contains_rev(|o: HyperMove| o.castle == Some(side), m);
            },
            None => {
                let t = wanted_type(hm).unwrap();
                let found = fitting(b.moves, b, hm, t);
                assert(found.contains(found[0]));
                b.moves.lemma_filter_contains_rev(|o: HyperMove| fits(b, hm, t, o), m);
                assert forall|o: HyperMove| b.is_legal(o) && #[trigger] fits(b, hm, t, o) implies o
                    == m by {
                    let i = choose|i: int| 0 <= i < b.moves.len() && b.moves[i] == o;
                    assert(found.contains(b.moves[i]));
                }
            },
        }
    }
}

/// The shape of a written move: a piece other than a pawn leads with its own
/// upper-case letter (`E` for the Eagle, `H` for the Hawk); a capturing pawn
/// leads with its source file; and a capture marker stands immediately
/// before the destination square.
pub proof fn law_export_shape(b: BoardView, m: HyperMove)
    requires
        b.wf(),
        b.is_legal(m),
        m.castle is None,
    ensures
        b.mover(m) != PieceType::P ==> hsan_text(b, m)[0] == type_letter(b.mover(m)),
        b.mover(m) == PieceType::P && m.capture ==> hsan_text(b, m)[0] == file_char(
            m.src.file(),
        ),
        m.capture ==> exists|head: Seq<char>, tail: Seq<char>|
            hsan_text(b, m) == head + seq!['x'] + square_text(m.dest) + tail,
{
    let t = b.mover(m);
    let is_pawn = t == PieceType::P;
    let letter = if is_pawn {
        seq![]
    } else {
        seq![type_letter(t)]
    };
    let disamb = if is_pawn {
        if m.capture {
            seq![file_char(m.src.file())]
        } else {
            seq![]
        }
    } else {
        disambiguation_text(b, m, t)
    };
    let promo = match m.promo {
        Some(p) => seq!['=', type_letter(p)],
        None => seq![],
    };
    let marker = marker_text(b.outcome_of(m));
    if m.capture {
        let head = letter + disamb;
        let tail = promo + marker;
        assert(hsan_text(b, m) =~= head + seq!['x'] + square_text(m.dest) + tail);
    }
}


// ── Reading consumes every character ────────────────────────────────────────

/// A castling token written with zeros: `0-0` or `0-0-0`, then the marker.
pub open spec fn zero_castle_text(hm: HsanMove) -> Seq<char> {
    match hm.castle {
        Some(CastleSide::Queen) => seq!['0', '-', '0', '-', '0'] + marker_chars(hm.check_marker),
        _ => seq!['0', '-', '0'] + marker_chars(hm.check_marker),
    }
}

proof fn lemma_marker_back(s: Seq<char>)
    ensures
        split_marker(s).0 + marker_chars(split_marker(s).1) == s,
{
    let (body, c) = split_marker(s);
    if c != CheckMarker::Unmarked {
        assert(body + marker_chars(c) =~= s);
    } else {
        assert(body + marker_chars(c) =~= s);
    }
}

proof fn lemma_trailing_rank_back(x: Seq<char>)
    ensures
        trailing_rank(x) matches Some((h, r)) ==> r < 12 && h + rank_text(r as int) == x,
{
    if let Some((h, r)) = trailing_rank(x) {
        let n = x.len() as int;
        lemma_rank_text(r as int);
        if n >= 2 && x[n - 2] == '1' && ('0' <= x[n - 1] && x[n - 1] <= '2') {
            assert(h + rank_text(r as int) =~= x);
        } else {
            assert(h + rank_text(r as int) =~= x);
        }
    }
}

proof fn lemma_trailing_file_back(x: Seq<char>)
    ensures
        trailing_file(x) matches Some((h, f)) ==> f < 12 && h.push(file_char(f as int)) == x,
{
    if let Some((h, f)) = trailing_file(x) {
        assert(h.push(file_char(f as int)) =~= x);
    }
}

proof fn lemma_disambiguation_back(x: Seq<char>)
    ensures
        read_disambiguation(x) matches Ok((f, r)) ==> (f matches Some(v) ==> v < 12) && (
        r matches Some(v) ==> v < 12) && disamb_chars(f, r) == x,
{
    lemma_trailing_rank_back(x);
    let (head, r) = match trailing_rank(x) {
        Some((h, r)) => (h, Some(r)),
        None => (x, None),
    };
    lemma_trailing_file_back(head);
    if let Ok((f, r2)) = read_disambiguation(x) {
        let fpart = match f {
            Some(v) => seq![file_char(v as int)],
            None => Seq::<char>::empty(),
        };
        let rpart = match r {
            Some(v) => rank_text(v as int),
            None => Seq::<char>::empty(),
        };
        assert(fpart =~= head);
        assert(fpart + rpart =~= x);
    }
}

proof fn lemma_promotion_back(body: Seq<char>)
    ensures
        split_promotion(body) matches Ok((core, p)) ==> (p matches Some(c) ==> is_promotion_letter(
            c,
        )) && core + promo_chars(p) == body,
{
    lemma_rfind_in_range(body, '=');
    if let Ok((core, p)) = split_promotion(body) {
        if let Some(pos) = rfind(body, '=') {
            let tail = body.subrange(pos + 1, body.len() as int);
            assert(tail.len() == 1);
            assert(core + promo_chars(p) =~= body);
        } else {
            assert(core + promo_chars(p) =~= body);
        }
    }
}

proof fn lemma_normal_back(body: Seq<char>, promotion: Option<char>, marker: CheckMarker)
    ensures
        read_normal(body, promotion, marker) matches Ok(hm) ==> hm.castle is None && hm.promotion
            == promotion && hm.check_marker == marker && piece_chars(hm.piece) + inner_chars(hm)
            == body && (hm.piece matches Some(c) ==> is_piece_letter(c)) && (hm.src_file matches Some(
            v,
        ) ==> v < 12) && (hm.src_rank matches Some(v) ==> v < 12) && hm.dst_file < 12
            && hm.dst_rank < 12,
{
    let (rest, piece) = split_piece(body);
    if let Ok(hm) = read_normal(body, promotion, marker) {
        assert(piece_chars(piece) + rest =~= body);
        lemma_trailing_rank_back(rest);
        let (rest1, dst_rank) = trailing_rank(rest)->0;
        lemma_trailing_file_back(rest1);
        let (rest2, dst_file) = trailing_file(rest1)->0;
        let (rest3, cap) = split_capture(rest2);
        assert(rest3 + capture_chars(cap) =~= rest2);
        lemma_disambiguation_back(rest3);
        assert(inner_chars(hm) =~= rest3 + capture_chars(cap) + seq![file_char(dst_file as int)]
            + rank_text(dst_rank as int));
        assert(rest1 == rest2.push(file_char(dst_file as int)));
        assert(inner_chars(hm) =~= rest);
    }
}

proof fn lemma_castle_back(s: Seq<char>)
    requires
        s.len() > 0,
        is_long_castle(split_marker(s).0) || is_short_castle(split_marker(s).0),
    ensures
        ({
            let (body, marker) = split_marker(s);
            let hm = if is_long_castle(body) {
                castling(CastleSide::Queen, marker)
            } else {
                castling(CastleSide::King, marker)
            };
            s == render(hm) || s == zero_castle_text(hm)
        }),
{
    let (body, marker) = split_marker(s);
    lemma_marker_back(s);
    let hm = if is_long_castle(body) {
        castling(CastleSide::Queen, marker)
    } else {
        castling(CastleSide::King, marker)
    };
    if body[0] == 'O' {
        assert(render(hm) =~= s);
    } else {
        assert(zero_castle_text(hm) =~= s);
    }
}

proof fn lemma_render_normal(hm: HsanMove)
    requires
        hm.castle is None,
    ensures
        render(hm) == piece_chars(hm.piece) + inner_chars(hm) + promo_chars(hm.promotion)
            + marker_chars(hm.check_marker),
{
    assert(render(hm) =~= piece_chars(hm.piece) + inner_chars(hm) + promo_chars(hm.promotion)
        + marker_chars(hm.check_marker));
}

proof fn lemma_body_back(s: Seq<char>)
    requires
        s.len() > 0,
        !is_long_castle(split_marker(s).0),
        !is_short_castle(split_marker(s).0),
    ensures
        ({
            let (body, marker) = split_marker(s);
            split_promotion(body) matches Ok((core, promotion)) ==> (read_normal(
                core,
                promotion,
                marker,
            ) matches Ok(hm) ==> s == render(hm))
        }),
{
    let (body, marker) = split_marker(s);
    lemma_marker_back(s);
    lemma_promotion_back(body);
    if let Ok((core, promotion)) = split_promotion(body) {
        lemma_normal_back(core, promotion, marker);
        if let Ok(hm) = read_normal(core, promotion, marker) {
            lemma_render_normal(hm);
        }
    }
}

/// Reading consumes every character: whatever the reader accepts is, up to
/// surrounding white space, exactly the string the grammar writes for the
/// parts it returns, but for castling written with zeros (`0-0`, `0-0-0`).
/// No field is defaulted and no text is skipped.
pub proof fn law_parse_reads_everything(input: Seq<char>)
    ensures
        hsan_parts(input) matches Ok(hm) ==> trim(input) == render(hm) || (hm.castle is Some
            && trim(input) == zero_castle_text(hm)),
{
    let s = trim(input);
    if s.len() > 0 {
        let body = split_marker(s).0;
        if is_long_castle(body) || is_short_castle(body) {
            lemma_castle_back(s);
        } else {
            lemma_body_back(s);
        }
    }
}


// ── Resolution, constraint by constraint ────────────────────────────────────

/// A resolved move meets every constraint the parts state: it is legal, it
/// ends on the named square, it is made by a piece of the named type (a pawn
/// when no letter is given), it captures exactly when the parts say so, it
/// promotes to the named type exactly when a promotion is given, and it starts
/// on the named file and rank where these are given. No other legal move
/// meets them all. A castling token resolves to a legal castling on its side.
pub proof fn law_resolution_meets_every_constraint(b: BoardView, hm: HsanMove, m: HyperMove, o: HyperMove)
    requires
        b.wf(),
        resolution(b, hm) == Ok::<HyperMove, crate::hsan_parse::ResolveFault>(m),
    ensures
        b.is_legal(m),
        hm.castle matches Some(side) ==> m.castle == Some(side),
        hm.castle is None ==> {
            &&& m.dest.0 == hm.dst_rank * 12 + hm.dst_file
            &&& match hm.piece {
                Some(c) => type_of_letter(c) == Some(b.mover(m)),
                None => b.mover(m) == PieceType::P,
            }
            &&& m.capture == hm.is_capture
            &&& (hm.promotion is None <==> m.promo is None)
            &&& (hm.promotion matches Some(p) ==> type_of_letter(p) == m.promo)
            &&& (hm.src_file matches Some(f) ==> m.src.0 % 12 == f)
            &&& (hm.src_rank matches Some(r) ==> m.src.0 / 12 == r)
        },
        hm.castle is None && b.is_legal(o) && ({
            &&& o.dest.0 == hm.dst_rank * 12 + hm.dst_file
            &&& match hm.piece {
                Some(c) => type_of_letter(c) == Some(b.mover(o)),
                None => b.mover(o) == PieceType::P,
            }
            &&& o.capture == hm.is_capture
            &&& (hm.promotion is None <==> o.promo is None)
            &&& (hm.promotion matches Some(p) ==> type_of_letter(p) == o.promo)
            &&& (hm.src_file matches Some(f) ==> o.src.0 % 12 == f)
            &&& (hm.src_rank matches Some(r) ==> o.src.0 / 12 == r)
        }) ==> o == m,
{
    law_resolution_is_exact(b, hm);
    if hm.castle is None {
        let t = wanted_type(hm).unwrap();
        assert(fits(b, hm, t, m));
        if b.is_legal(o) && o.dest.0 == hm.dst_rank * 12 + hm.dst_file && (match hm.piece {
            Some(c) => type_of_letter(c) == Some(b.mover(o)),
            None => b.mover(o) == PieceType::P,
        }) && o.capture == hm.is_capture && (hm.promotion is None <==> o.promo is None) && (
        hm.promotion matches Some(p) ==> type_of_letter(p) == o.promo) && (hm.src_file matches Some(
            f,
        ) ==> o.src.0 % 12 == f) && (hm.src_rank matches Some(r) ==> o.src.0 / 12 == r) {
            assert(fits(b, hm, t, o));
        }
    }
}

/// Resolution is complete: when exactly one legal move meets every
/// constraint of the parts, that move is the result; and a castling token
/// resolves whenever a legal castling on its side exists.
pub proof fn law_resolution_finds_the_only_match(b: BoardView, hm: HsanMove, m: HyperMove)
    requires
        b.wf(),
        b.is_legal(m),
        hm.castle matches Some(side) ==> m.castle == Some(side),
        hm.castle is None ==> {
            &&& m.dest.0 == hm.dst_rank * 12 + hm.dst_file
            &&& match hm.piece {
                Some(c) => type_of_letter(c) == Some(b.mover(m)),
                None => b.mover(m) == PieceType::P,
            }
            &&& m.capture == hm.is_capture
            &&& (hm.promotion is None <==> m.promo is None)
            &&& (hm.promotion matches Some(p) ==> type_of_letter(p) == m.promo)
            &&& (hm.src_file matches Some(f) ==> m.src.0 % 12 == f)
            &&& (hm.src_rank matches Some(r) ==> m.src.0 / 12 == r)
        },
        hm.castle is None ==> forall|o: HyperMove|
            #![trigger b.is_legal(o)]
            b.is_legal(o) && ({
                &&& o.dest.0 == hm.dst_rank * 12 + hm.dst_file
                &&& match hm.piece {
                    Some(c) => type_of_letter(c) == Some(b.mover(o)),
                    None => b.mover(o) == PieceType::P,
                }
                &&& o.capture == hm.is_capture
                &&& (hm.promotion is None <==> o.promo is None)
                &&& (hm.promotion matches Some(p) ==> type_of_letter(p) == o.promo)
                &&& (hm.src_file matches Some(f) ==> o.src.0 % 12 == f)
                &&& (hm.src_rank matches Some(r) ==> o.src.0 / 12 == r)
            }) ==> o == m,
    ensures
        resolution(b, hm) == Ok::<HyperMove, crate::hsan_parse::ResolveFault>(m),
{
    lemma_legal_move_ok(b, m);
    let k = b.index_of(m);
    match hm.castle {
        Some(side) => {
            let pred = |x: HyperMove| x.castle == Some(side);
            assert forall|i: int| 0 <= i < b.moves.len() && i != k implies !pred(
                #[trigger] b.moves[i],
            ) by {
                assert(b.apart(b.moves[k], b.moves[i]));
            }
            lemma_filter_single(b.moves, pred, k);
            assert(castlings(b.moves, side) == b.moves.filter(pred));
        },
        None => {
            let t = b.mover(m);
            assert(wanted_type(hm) == Some(t));
            let pred = |x: HyperMove| fits(b, hm, t, x);
            assert(fits(b, hm, t, m));
            assert forall|i: int| 0 <= i < b.moves.len() && i != k implies !pred(
                #[trigger] b.moves[i],
            ) by {
                let x = b.moves[i];
                assert(b.apart(m, x));
                assert(b.is_legal(x));
            }
            lemma_filter_single(b.moves, pred, k);
            assert(fitting(b.moves, b, hm, t) == b.moves.filter(pred));
        },
    }
}

/// The check marker does not take part in resolution: parts that differ
/// only in their marker resolve alike.
pub proof fn law_resolution_ignores_the_marker(b: BoardView, hm: HsanMove, c: CheckMarker)
    ensures
        resolution(b, hm) == resolution(b, HsanMove { check_marker: c, ..hm }),
{
    let hm2 = HsanMove { check_marker: c, ..hm };
    if hm.castle is None {
        if let Some(t) = wanted_type(hm) {
            assert((|x: HyperMove| fits(b, hm, t, x)) =~= (|x: HyperMove| fits(b, hm2, t, x)));
            assert(fitting(b.moves, b, hm, t) == fitting(b.moves, b, hm2, t));
        }
    }
}


// ── Writing, part by part ───────────────────────────────────────────────────

/// The text of a written move before its marker.
spec fn unmarked_text(b: BoardView, m: HyperMove) -> Seq<char> {
    match m.castle {
        Some(CastleSide::King) => seq!['O', '-', 'O'],
        Some(CastleSide::Queen) => seq!['O', '-', 'O', '-', 'O'],
        None => {
            let t = b.mover(m);
            let is_pawn = t == PieceType::P;
            (if is_pawn {
                seq![]
            } else {
                seq![type_letter(t)]
            }) + (if is_pawn {
                if m.capture {
                    seq![file_char(m.src.file())]
                } else {
                    seq![]
                }
            } else {
                disambiguation_text(b, m, t)
            }) + (if m.capture {
                seq!['x']
            } else {
                seq![]
            }) + square_text(m.dest) + (match m.promo {
                Some(p) => seq!['=', type_letter(p)],
                None => seq![],
            })
        },
    }
}

proof fn lemma_unmarked_text(b: BoardView, m: HyperMove)
    requires
        b.wf(),
        b.is_legal(m),
    ensures
        hsan_text(b, m) == unmarked_text(b, m) + marker_text(b.outcome_of(m)),
        unmarked_text(b, m).len() > 0,
        unmarked_text(b, m).last() != '#',
        unmarked_text(b, m).last() != '+',
{
    lemma_legal_move_ok(b, m);
    assert(hsan_text(b, m) =~= unmarked_text(b, m) + marker_text(b.outcome_of(m)));
    if m.castle is None {
        let x = unmarked_text(b, m);
        lemma_rank_text(m.dest.rank());
        if let Some(p) = m.promo {
            lemma_letters(p);
            assert(x.last() == type_letter(p));
        } else {
            assert(x.last() == square_text(m.dest).last());
            assert(square_text(m.dest).last() == rank_text(m.dest.rank()).last());
        }
    }
}

/// The check marker of a written move says mate exactly when the opponent is
/// in check with no legal reply, check exactly when the opponent is in check
/// and has a reply, and is absent when the move gives no check.
pub proof fn law_marker_tells_check_and_mate(b: BoardView, m: HyperMove)
    requires
        b.wf(),
        b.is_legal(m),
    ensures
        hsan_text(b, m).len() > 0,
        (hsan_text(b, m).last() == '#') <==> (b.outcome_of(m).gives_check && b.outcome_of(
            m,
        ).replies == 0),
        (hsan_text(b, m).last() == '+') <==> (b.outcome_of(m).gives_check && b.outcome_of(
            m,
        ).replies > 0),
{
    lemma_unmarked_text(b, m);
    let x = unmarked_text(b, m);
    let mk = marker_text(b.outcome_of(m));
    if mk.len() == 0 {
        assert(x + mk =~= x);
    } else {
        assert((x + mk).last() == mk.last());
    }
}

/// A pawn move is written as its destination alone, preceded by its source
/// file and `x` only when it captures, followed by `=` and the promotion
/// letter only when it promotes, then the marker.
pub proof fn law_pawn_moves_are_written_plainly(b: BoardView, m: HyperMove)
    requires
        b.wf(),
        b.is_legal(m),
        m.castle is None,
        b.mover(m) == PieceType::P,
    ensures
        hsan_text(b, m) == (if m.capture {
            seq![file_char(m.src.0 as int % 12), 'x']
        } else {
            seq![]
        }) + seq![file_char(m.dest.0 as int % 12)] + rank_text(m.dest.0 as int / 12) + (match m.promo {
            Some(p) => seq!['=', type_letter(p)],
            None => seq![],
        }) + (if !b.outcome_of(m).gives_check {
            seq![]
        } else if b.outcome_of(m).replies == 0 {
            seq!['#']
        } else {
            seq!['+']
        }),
{
    let promo = match m.promo {
        Some(p) => seq!['=', type_letter(p)],
        None => seq![],
    };
    let head = if m.capture {
        seq![file_char(m.src.0 as int % 12), 'x']
    } else {
        seq![]
    };
    assert(hsan_text(b, m) =~= head + seq![file_char(m.dest.0 as int % 12)] + rank_text(m.dest.0 as int / 12)
        + promo + marker_text(b.outcome_of(m)));
}

proof fn lemma_rival_iff(b: BoardView, m: HyperMove, t: PieceType)
    ensures
        (exists|i: int|
            0 <= i < b.moves.len() && #[trigger] b.moves[i].dest == m.dest && b.moves[i].src != m.src
                && b.mover(b.moves[i]) == t) == has_rival(b, m, t),
        (exists|i: int|
            0 <= i < b.moves.len() && #[trigger] b.moves[i].dest == m.dest && b.moves[i].src != m.src
                && b.mover(b.moves[i]) == t && b.moves[i].src.0 % 12 == m.src.0 % 12) == file_shared(
            b,
            m,
            t,
        ),
        (exists|i: int|
            0 <= i < b.moves.len() && #[trigger] b.moves[i].dest == m.dest && b.moves[i].src != m.src
                && b.mover(b.moves[i]) == t && b.moves[i].src.0 / 12 == m.src.0 / 12) == rank_shared(
            b,
            m,
            t,
        ),
{
    if has_rival(b, m, t) {
        let i = choose|i: int| 0 <= i < b.moves.len() && #[trigger] is_rival(b, m, t, b.moves[i]);
        assert(b.moves[i].dest == m.dest);
    }
    if file_shared(b, m, t) {
        let i = choose|i: int|
            0 <= i < b.moves.len() && #[trigger] is_rival(b, m, t, b.moves[i])
                && b.moves[i].src.file() == m.src.file();
        assert(b.moves[i].dest == m.dest);
    }
    if rank_shared(b, m, t) {
        let i = choose|i: int|
            0 <= i < b.moves.len() && #[trigger] is_rival(b, m, t, b.moves[i])
                && b.moves[i].src.rank() == m.src.rank();
        assert(b.moves[i].dest == m.dest);
    }
    assert forall|i: int|
        0 <= i < b.moves.len() && #[trigger] b.moves[i].dest == m.dest && b.moves[i].src != m.src
            && b.mover(b.moves[i]) == t implies is_rival(b, m, t, b.moves[i]) by {}
}

/// A move by a piece other than a pawn is written as its letter, then the
/// source file and rank only as far as other legal moves by a piece of the
/// same type to the same square call for them (none when there is no such
/// move; else the file if no such move starts on that file; else the rank
/// if no such move starts on that rank; else both), then `x` when it
/// captures, the destination, the promotion and the marker.
pub proof fn law_piece_moves_name_their_source_only_when_needed(b: BoardView, m: HyperMove)
    requires
        b.wf(),
        b.is_legal(m),
        m.castle is None,
        b.mover(m) != PieceType::P,
    ensures
        ({
            let t = b.mover(m);
            let rival = exists|i: int|
                0 <= i < b.moves.len() && #[trigger] b.moves[i].dest == m.dest && b.moves[i].src
                    != m.src && b.mover(b.moves[i]) == t;
            let same_file = exists|i: int|
                0 <= i < b.moves.len() && #[trigger] b.moves[i].dest == m.dest && b.moves[i].src
                    != m.src && b.mover(b.moves[i]) == t && b.moves[i].src.0 % 12 == m.src.0 % 12;
            let same_rank = exists|i: int|
                0 <= i < b.moves.len() && #[trigger] b.moves[i].dest == m.dest && b.moves[i].src
                    != m.src && b.mover(b.moves[i]) == t && b.moves[i].src.0 / 12 == m.src.0 / 12;
            let source = if !rival {
                seq![]
            } else if !same_file {
                seq![file_char(m.src.0 as int % 12)]
            } else if !same_rank {
                rank_text(m.src.0 as int / 12)
            } else {
                seq![file_char(m.src.0 as int % 12)] + rank_text(m.src.0 as int / 12)
            };
            hsan_text(b, m) == seq![type_letter(t)] + source + (if m.capture {
                seq!['x']
            } else {
                seq![]
            }) + seq![file_char(m.dest.0 as int % 12)] + rank_text(m.dest.0 as int / 12) + (match m.promo {
                Some(p) => seq!['=', type_letter(p)],
                None => seq![],
            }) + (if !b.outcome_of(m).gives_check {
                seq![]
            } else if b.outcome_of(m).replies == 0 {
                seq!['#']
            } else {
                seq!['+']
            })
        }),
{
    let t = b.mover(m);
    let rival = exists|i: int|
        0 <= i < b.moves.len() && #[trigger] b.moves[i].dest == m.dest && b.moves[i].src != m.src
            && b.mover(b.moves[i]) == t;
    let same_file = exists|i: int|
        0 <= i < b.moves.len() && #[trigger] b.moves[i].dest == m.dest && b.moves[i].src != m.src
            && b.mover(b.moves[i]) == t && b.moves[i].src.0 % 12 == m.src.0 % 12;
    let same_rank = exists|i: int|
        0 <= i < b.moves.len() && #[trigger] b.moves[i].dest == m.dest && b.moves[i].src != m.src
            && b.mover(b.moves[i]) == t && b.moves[i].src.0 / 12 == m.src.0 / 12;
    lemma_rival_iff(b, m, t);
    let source = if !rival {
        seq![]
    } else if !same_file {
        seq![file_char(m.src.0 as int % 12)]
    } else if !same_rank {
        rank_text(m.src.0 as int / 12)
    } else {
        seq![file_char(m.src.0 as int % 12)] + rank_text(m.src.0 as int / 12)
    };
    assert(source == disambiguation_text(b, m, t));
    let promo = match m.promo {
        Some(p) => seq!['=', type_letter(p)],
        None => seq![],
    };
    let capture = if m.capture {
        seq!['x']
    } else {
        seq![]
    };
    lemma_unmarked_text(b, m);
    assert(unmarked_text(b, m) =~= seq![type_letter(t)] + source + capture + seq![
        file_char(m.dest.0 as int % 12),
    ] + rank_text(m.dest.0 as int / 12) + promo);
}

/// A castling is written `O-O` (king-side) or `O-O-O` (queen-side), then the
/// marker.
pub proof fn law_castling_is_written_by_side(b: BoardView, m: HyperMove)
    requires
        b.wf(),
        b.is_legal(m),
        m.castle is Some,
    ensures
        hsan_text(b, m) == (if m.castle == Some(CastleSide::King) {
            seq!['O', '-', 'O']
        } else {
            seq!['O', '-', 'O', '-', 'O']
        }) + (if !b.outcome_of(m).gives_check {
            seq![]
        } else if b.outcome_of(m).replies == 0 {
            seq!['#']
        } else {
            seq!['+']
        }),
{
}

} // verus!
