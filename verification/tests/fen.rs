use duckchess::board::{Board, CastlingRights};
use duckchess::common::{Bitboard, Color, File, Piece, Rank, Square};

#[test]
fn from_fen() {
    let board = Board::from_fen("rnbqkbnr/pppppppp/8/8/4*3/8/PPPPPPPP/RNBQKBNR w KQkq - 0 1");
    assert!(board.is_some());

    let board = board.unwrap();
    assert_eq!(board.pieces(Piece::Pawn), Bitboard(0xFF00000000FF00));
    assert_eq!(board.pieces(Piece::Knight), Bitboard(0x4200000000000042));
    assert_eq!(board.pieces(Piece::Bishop), Bitboard(0x2400000000000024));
    assert_eq!(board.pieces(Piece::Rook), Bitboard(0x8100000000000081));
    assert_eq!(board.pieces(Piece::Queen), Bitboard(0x800000000000008));
    assert_eq!(board.pieces(Piece::King), Bitboard(0x1000000000000010));
    assert_eq!(board.colors(Color::White), Bitboard(0xFFFF));
    assert_eq!(board.colors(Color::Black), Bitboard(0xFFFF000000000000));
    assert_eq!(
        board.castling_rights(Color::White),
        CastlingRights::new(Some(File::A), Some(File::H))
    );
    assert_eq!(
        board.castling_rights(Color::Black),
        CastlingRights::new(Some(File::A), Some(File::H))
    );
    assert_eq!(board.en_passant(), None);
    assert_eq!(board.duck(), Some(Square::new(File::E, Rank::Fourth)));
    assert_eq!(board.stm(), Color::White);
    assert_eq!(board.fmc(), 1);
    assert_eq!(board.hmc(), 0);
}

#[test]
fn to_fen() {
    let board = Board::from_fen("rnbqkbnr/pppppppp/8/8/4*3/8/PPPPPPPP/RNBQKBNR w KQkq - 0 1");
    assert!(board.is_some());

    assert_eq!(
        board.unwrap().to_fen(false),
        "rnbqkbnr/pppppppp/8/8/4*3/8/PPPPPPPP/RNBQKBNR w KQkq - 0 1"
    );
}

#[test]
fn startpos_fen() {
    assert_eq!(
        Board::startpos().to_fen(false),
        "rnbqkbnr/pppppppp/8/8/8/8/PPPPPPPP/RNBQKBNR w KQkq - 0 1"
    );
    assert_eq!(
        Board::startpos().to_fen(true),
        "rnbqkbnr/pppppppp/8/8/8/8/PPPPPPPP/RNBQKBNR w HAha - 0 1"
    );
}

#[test]
fn frc_startpos_fen() {
    assert_eq!(
        Board::frc_startpos(0).to_fen(true),
        "bbqnnrkr/pppppppp/8/8/8/8/PPPPPPPP/BBQNNRKR w HFhf - 0 1"
    );
    assert_eq!(
        Board::dfrc_startpos(0, 518).to_fen(true),
        "rnbqkbnr/pppppppp/8/8/8/8/PPPPPPPP/BBQNNRKR w HFha - 0 1"
    );
}

#[test]
fn from_fen_round_trips() {
    for fen in [
        "rnbqkbnr/ppp1pppp/8/3pP3/8/8/PPPP1PPP/RNBQKBNR w KQkq d6 0 3",
        "r3k2r/8/8/8/8/8/8/R3K2R b Kq - 12 40",
        "4k3/8/8/8/8/8/8/4K2* w - - 0 1",
    ] {
        assert_eq!(Board::from_fen(fen).unwrap().to_fen(false), fen);
    }
    let board = Board::from_fen("bbqnnrkr/pppppppp/8/8/8/8/PPPPPPPP/BBQNNRKR w HFhf - 0 1").unwrap();
    assert_eq!(board.to_fen(true), "bbqnnrkr/pppppppp/8/8/8/8/PPPPPPPP/BBQNNRKR w HFhf - 0 1");
    assert_eq!(board.to_fen(false), "bbqnnrkr/pppppppp/8/8/8/8/PPPPPPPP/BBQNNRKR w KQkq - 0 1");
}

#[test]
fn from_fen_clamps_counters() {
    let board = Board::from_fen("4k3/8/8/8/8/8/8/4K3 w - - 250 0").unwrap();
    assert_eq!(board.hmc(), 100);
    assert_eq!(board.fmc(), 1);
}

#[test]
fn from_fen_rejects() {
    for fen in [
        "",
        "rnbqkbnr/pppppppp/8/8/4*3/8/PPPPPPPP/RNBQKBNR w KQkq - 0",
        "rnbqkbnr/pppppppp/8/8/4*3/8/PPPPPPPP/RNBQKBNR w KQkq - 0 1 extra",
        "rnbqkbnr/pppppppp/8/8/4*3/8/PPPPPPPP/RNBQKBN w KQkq - 0 1",
        "rnbqkbnr/pppppppp/8/8/4**2/8/PPPPPPPP/RNBQKBNR w KQkq - 0 1",
        "rnbqkbnr/pppppppp/8/8/4*3/8/PPPPPPPP/RNBQKBNR x KQkq - 0 1",
        "rnbqkbnr/pppppppp/8/8/4*3/8/PPPPPPPP/RNBQKBNR w KQkqK - 0 1",
        "rnbqkbnr/pppppppp/8/8/4*3/8/PPPPPPPP/RNBQKBNR w KQkq e4 0 1",
        "rnbqkbnr/pppppppp/8/8/4*3/8/PPPPPPPP/RNBQKBNR w KQkq - x 1",
        "rnbqkbnr/pppppppp/8/8/4*3/8/PPPPPPPP/RNBQKBNR w KQkq - 0 70000",
        "rnbqkbnr/pppppppp/8/8/4*3/8/PPPPPPPP/RNBQKBXR w KQkq - 0 1",
        "8/8/8/8/8/8/8/8 w - - 0 1",
    ] {
        assert!(Board::from_fen(fen).is_none(), "{}", fen);
    }
}

#[test]
fn board_queries() {
    let board = Board::from_fen("rnbqkbnr/pppppppp/8/8/4*3/8/PPPPPPPP/RNBQKBNR b Kq - 3 7").unwrap();
    assert_eq!(board.piece_on(Square::new(File::D, Rank::Eighth)), Some(Piece::Queen));
    assert_eq!(board.color_on(Square::new(File::D, Rank::Eighth)), Some(Color::Black));
    assert_eq!(board.piece_on(Square::new(File::E, Rank::Fourth)), None);
    assert_eq!(board.stm(), Color::Black);
    assert_eq!(board.hmc(), 3);
    assert_eq!(board.fmc(), 7);
    assert_eq!(board.castling_rights(Color::White), CastlingRights::new(None, Some(File::H)));
    assert_eq!(board.castling_rights(Color::Black), CastlingRights::new(Some(File::A), None));
}

#[test]
fn fen_read_write_read() {
    for fen in [
        "rnbqkbnr/pppppppp/8/8/4*3/8/PPPPPPPP/RNBQKBNR w KQkq - 0 1",
        "r3k2r/8/8/8/8/8/8/R3K2R b Kq - 12 40",
        "1r2k1r1/8/8/8/8/8/8/1R2K1R1 w BGbg - 3 9",
        "rnbqkbnr/ppp1pppp/8/3pP3/8/8/PPPP1PPP/RNBQKBNR w KQkq d6 0 3",
        "4k3/8/8/8/8/8/8/4K2* w - - 255 0",
    ] {
        let board = Board::from_fen(fen).unwrap();
        let shredder = board.to_fen(true);
        let again = Board::from_fen(&shredder).unwrap();
        assert_eq!(again.to_fen(true), shredder);
        assert_eq!(again.to_fen(false), board.to_fen(false));
        for piece in [Piece::Pawn, Piece::Knight, Piece::Bishop, Piece::Rook, Piece::Queen, Piece::King] {
            assert_eq!(again.pieces(piece), board.pieces(piece));
        }
        assert_eq!(again.duck(), board.duck());
        assert_eq!(again.en_passant(), board.en_passant());
        assert_eq!(again.castling_rights(Color::White), board.castling_rights(Color::White));
        assert_eq!(again.castling_rights(Color::Black), board.castling_rights(Color::Black));
    }
    let board = Board::from_fen("1r2k1r1/8/8/8/8/8/8/1R2K1R1 w BGbg - 3 9").unwrap();
    assert_eq!(board.to_fen(true), "1r2k1r1/8/8/8/8/8/8/1R2K1R1 w GBgb - 3 9");
}

#[test]
fn standard_notation_fixpoint() {
    for fen in [
        "1r2k1r1/8/8/8/8/8/8/1R2K1R1 w BGbg - 3 9",
        "r1r1k2r/8/8/8/8/8/8/R1R1K2R w CHch - 0 1",
        "rnbqkbnr/pppppppp/8/8/4*3/8/PPPPPPPP/RNBQKBNR w KQkq - 0 1",
    ] {
        let text = Board::from_fen(fen).unwrap().to_fen(false);
        let again = Board::from_fen(&text).unwrap();
        assert_eq!(again.to_fen(false), text);
    }
    // standard notation finds the outermost rook
    let board = Board::from_fen("r1r1k2r/8/8/8/8/8/8/R1R1K2R w CHch - 0 1").unwrap();
    let again = Board::from_fen(&board.to_fen(false)).unwrap();
    assert_eq!(again.castling_rights(Color::White), CastlingRights::new(Some(File::A), Some(File::H)));
}

#[test]
fn parsed_board_piece_sets() {
    let pieces = [Piece::Pawn, Piece::Knight, Piece::Bishop, Piece::Rook, Piece::Queen, Piece::King];
    for fen in [
        "rnbqkbnr/pppppppp/8/8/4*3/8/PPPPPPPP/RNBQKBNR w KQkq - 0 1",
        "r3k2r/8/8/3*4/8/8/8/R3K2R b KQkq - 12 40",
        "4k3/8/8/8/8/8/8/4K3 w - - 0 1",
    ] {
        let board = Board::from_fen(fen).unwrap();
        let white = board.colors(Color::White).0;
        let black = board.colors(Color::Black).0;
        assert_eq!(white & black, 0, "{}", fen);
        let mut union = 0u64;
        for (i, p) in pieces.iter().enumerate() {
            for q in &pieces[i + 1..] {
                assert_eq!(board.pieces(*p).0 & board.pieces(*q).0, 0, "{}", fen);
            }
            union |= board.pieces(*p).0;
        }
        assert_eq!(union, white | black, "{}", fen);
        if let Some(duck) = board.duck() {
            assert_eq!(board.piece_on(duck), None);
            assert_eq!(board.color_on(duck), None);
        }
        assert!(board.hmc() <= 100);
        assert!(board.fmc() >= 1);
    }
}
