use hyperchess_rules::{parse_hsan, CastleSide, CheckMarker, HsanMove};

#[test]
fn parses_two_digit_destination_ranks() {
    for (s, file, rank) in [
        ("d10", 3u8, 9u8),
        ("d11", 3, 10),
        ("d12", 3, 11),
        ("Nd10", 3, 9),
        ("Rxd10", 3, 9),
        ("a12", 0, 11),
    ] {
        let m = parse_hsan(s).unwrap_or_else(|e| panic!("{s} should parse: {e}"));
        assert_eq!((m.dst_file, m.dst_rank), (file, rank), "{s}");
    }
}

#[test]
fn single_digit_ranks_still_parse() {
    let m = parse_hsan("e4").unwrap();
    assert_eq!((m.dst_file, m.dst_rank), (4, 3));
    assert_eq!(m.piece, None);
    let m = parse_hsan("Nf3").unwrap();
    assert_eq!(m.piece, Some('N'));
    assert_eq!((m.dst_file, m.dst_rank), (5, 2));
}

#[test]
fn eagle_and_hawk_are_piece_letters() {
    assert_eq!(parse_hsan("Ed4").unwrap().piece, Some('E'));
    assert_eq!(parse_hsan("Hf7").unwrap().piece, Some('H'));
    assert_eq!(parse_hsan("Exd10").unwrap().piece, Some('E'));
}

#[test]
fn castling_sides_are_distinguishable() {
    assert_eq!(parse_hsan("O-O").unwrap().castle, Some(CastleSide::King));
    assert_eq!(parse_hsan("O-O-O").unwrap().castle, Some(CastleSide::Queen));
    assert_ne!(parse_hsan("O-O").unwrap(), parse_hsan("O-O-O").unwrap());
    assert_eq!(
        parse_hsan("O-O-O#").unwrap().check_marker,
        CheckMarker::Checkmate
    );
}

#[test]
fn capture_and_check_markers() {
    let m = parse_hsan("Qxe5+").unwrap();
    assert!(m.is_capture);
    assert_eq!(m.check_marker, CheckMarker::Check);
    let m = parse_hsan("Qh5#").unwrap();
    assert_eq!(m.check_marker, CheckMarker::Checkmate);
}

#[test]
fn promotion_is_restricted_to_the_promotion_set() {
    assert_eq!(parse_hsan("a12=Q").unwrap().promotion, Some('Q'));
    assert_eq!(parse_hsan("a12=E").unwrap().promotion, Some('E'));
    assert!(parse_hsan("a12=K").is_err());
    assert!(parse_hsan("a12=P").is_err());
    assert!(parse_hsan("a12=").is_err());
}

#[test]
fn disambiguation_round_trips_with_two_digit_ranks() {
    let m = parse_hsan("Nd10e12").unwrap();
    assert_eq!(m.src_file, Some(3));
    assert_eq!(m.src_rank, Some(9));
    assert_eq!((m.dst_file, m.dst_rank), (4, 11));
}

#[test]
fn garbage_is_rejected() {
    for s in ["", "ZZ", "d0", "Nd13", "xx", "Nq4"] {
        assert!(parse_hsan(s).is_err(), "{s:?} should not parse");
    }
}

// ── Further cases ───────────────────────────────────────────────────────────

#[test]
fn every_part_is_read() {
    let m = parse_hsan("Nd10xe12=Q+").unwrap();
    assert_eq!(
        m,
        HsanMove {
            piece: Some('N'),
            src_file: Some(3),
            src_rank: Some(9),
            dst_file: 4,
            dst_rank: 11,
            is_capture: true,
            promotion: Some('Q'),
            check_marker: CheckMarker::Check,
            castle: None,
        }
    );
}

#[test]
fn a_rank_alone_disambiguates() {
    let m = parse_hsan("R10d4").unwrap();
    assert_eq!(m.piece, Some('R'));
    assert_eq!(m.src_file, None);
    assert_eq!(m.src_rank, Some(9));
    assert_eq!((m.dst_file, m.dst_rank), (3, 3));
    let m = parse_hsan("R1d2").unwrap();
    assert_eq!(m.src_rank, Some(0));
    assert_eq!((m.dst_file, m.dst_rank), (3, 1));
}

#[test]
fn a_file_alone_disambiguates() {
    let m = parse_hsan("Nfe8").unwrap();
    assert_eq!(m.src_file, Some(5));
    assert_eq!(m.src_rank, None);
    assert_eq!((m.dst_file, m.dst_rank), (4, 7));
}

#[test]
fn a_pawn_capture_reads_its_source_file() {
    let m = parse_hsan("axb10").unwrap();
    assert_eq!(m.piece, None);
    assert_eq!(m.src_file, Some(0));
    assert!(m.is_capture);
    assert_eq!((m.dst_file, m.dst_rank), (1, 9));
}

#[test]
fn the_last_file_and_rank_are_on_the_board() {
    let m = parse_hsan("l12").unwrap();
    assert_eq!((m.dst_file, m.dst_rank), (11, 11));
    assert!(parse_hsan("m12").is_err());
}

#[test]
fn zero_castling_aliases_read_as_castling() {
    assert_eq!(parse_hsan("0-0").unwrap(), parse_hsan("O-O").unwrap());
    assert_eq!(parse_hsan("0-0-0+").unwrap(), parse_hsan("O-O-O+").unwrap());
    let m = parse_hsan("O-O").unwrap();
    assert_eq!(m.piece, Some('K'));
    assert_eq!(m.check_marker, CheckMarker::Unmarked);
}

#[test]
fn surrounding_white_space_is_ignored() {
    assert_eq!(parse_hsan("  Nf3\t").unwrap(), parse_hsan("Nf3").unwrap());
    assert_eq!(parse_hsan("\u{3000}e4\n").unwrap(), parse_hsan("e4").unwrap());
    assert!(parse_hsan(" \t ").is_err());
}

#[test]
fn a_wide_character_is_an_error() {
    assert!(parse_hsan("\u{20ac}").is_err());
    assert!(parse_hsan("e4\u{20ac}").is_err());
    assert!(parse_hsan("\u{20ac}e4").is_err());
}

#[test]
fn each_fault_has_its_message() {
    assert_eq!(parse_hsan("  ").unwrap_err(), "Empty HSAN move");
    assert_eq!(
        parse_hsan("a12=").unwrap_err(),
        format!("Dangling promotion marker in {:?}", "a12=")
    );
    assert_eq!(
        parse_hsan("a12=QR").unwrap_err(),
        format!("Trailing text after promotion in {:?}", "a12=QR")
    );
    assert_eq!(
        parse_hsan("a12=K").unwrap_err(),
        format!("Invalid promotion piece {:?} in {:?}", 'K', "a12=K")
    );
    assert_eq!(
        parse_hsan("d0").unwrap_err(),
        format!("Missing or invalid destination rank in {:?}", "d0")
    );
    assert_eq!(
        parse_hsan("Nq4").unwrap_err(),
        format!("Missing or invalid destination file in {:?}", "Nq4")
    );
    assert_eq!(
        parse_hsan(" Zd4 ").unwrap_err(),
        format!("Unparsed text {:?} in HSAN move {:?}", "Z", " Zd4 ")
    );
    assert_eq!(
        parse_hsan("Nq\"a1").unwrap_err(),
        format!("Unparsed text {:?} in HSAN move {:?}", "q\"", "Nq\"a1")
    );
}

#[test]
fn no_character_is_skipped() {
    for s in ["Nxxe4", "KKe4", "e4++", "Ne4=", "Nd4e4x", "a12=Q=Q", "O-O-O-O", "O-0", "xe4e4"] {
        assert!(parse_hsan(s).is_err(), "{s:?} should not parse");
    }
}
