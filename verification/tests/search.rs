use duckchess::board::Board;
use duckchess::common::{Bitboard, Color, File, Move, MoveFlag, Piece, Rank, Square};
use duckchess::search::history::{gravity, gravity_with_decay, ContIndex, ContIndices, History};
use duckchess::search::move_picker::{MoveGroup, MovePicker, MoveStack, NodeMoves, ScoredMove, Stage};
use duckchess::search::{Params, Score};

const START: &str = "rnbqkbnr/pppppppp/8/8/4*3/8/PPPPPPPP/RNBQKBNR w KQkq - 0 1";

fn sq(file: File, rank: Rank) -> Square {
    Square::new(file, rank)
}

fn no_indices() -> ContIndices {
    ContIndices { cont1: None, cont2: None, cont4: None }
}

#[test]
fn gravity_moves_towards_bonus() {
    let mut entry: i16 = 1000;
    gravity(&mut entry, 16384, 16384, 2000);
    assert_eq!(entry, 2878);

    let mut entry: i16 = -500;
    gravity(&mut entry, 16384, 16384, -1000);
    assert_eq!(entry, -1470);

    // the bonus is clamped to the maximum
    let mut entry: i16 = 0;
    gravity(&mut entry, 256, 1024, 5000);
    assert_eq!(entry, 256);
}

#[test]
fn gravity_with_decay_uses_given_decay() {
    let mut entry: i16 = 100;
    gravity_with_decay(&mut entry, 16384, 16384, 8192, 1000);
    // 100 + 1000 - 8192 * 1000 / 16384
    assert_eq!(entry, 600);
}

#[test]
fn gravity_stays_bounded() {
    let mut entry: i16 = 16000;
    for _ in 0..100 {
        gravity(&mut entry, 16384, 16384, 16384);
        assert!(entry <= 16384);
    }
    let mut entry: i16 = -16000;
    for _ in 0..100 {
        gravity(&mut entry, 16384, 16384, -16384);
        assert!(entry >= -16384);
    }
}

#[test]
fn params_bonus_and_malus() {
    assert_eq!(Params::quiet_bonus(3), 512);
    assert_eq!(Params::quiet_bonus(20), 2048);
    assert_eq!(Params::quiet_malus(3), -512);
    assert_eq!(Params::noisy_bonus(0), 128);
    assert_eq!(Params::pawn_malus(100), -2048);
    assert_eq!(Params::duck_bonus(1), 256);
    assert_eq!(Params::cont_bonus::<1>(2), 384);
    assert_eq!(Params::cont_malus::<4>(100), -2048);
    assert_eq!(Params::corr_bonus(4, -300), -150);
}

#[test]
fn params_margins() {
    assert_eq!(Params::rfp_margin(5, false), 250);
    assert_eq!(Params::rfp_margin(5, true), 200);
    assert_eq!(Params::razor_margin(2), 820);
    assert_eq!(Params::fp_margin(3), 640);
    assert_eq!(Params::see_margin(3, 16384), -256);
    assert_eq!(Params::see_margin(1, -1000), -80);
}

#[test]
fn params_thresholds() {
    assert_eq!(Params::ldp_threshold(3, true, false, 8000), 5);
    assert_eq!(Params::ldp_threshold(3, true, true, -20000), 6);
    assert_eq!(Params::ldp_threshold(3, false, false, 12345), 16);
    assert_eq!(Params::dcp_threshold(2, false, 0), 7);
    assert_eq!(Params::dcp_threshold(2, true, 12000), 6);
}

#[test]
fn params_reductions() {
    assert_eq!(Params::lmr(1), 1024);
    assert_eq!(Params::lmr(8), 2368);
    assert_eq!(Params::lmr(15), 2368);
    assert_eq!(Params::iid_depth(6), 3);
    assert_eq!(Params::iid_depth(1), 0);
    assert_eq!(Params::nmr_reduction(9), 7);
}

#[test]
fn params_piece_values_and_stability() {
    assert_eq!(Params::mvv_value(Piece::Queen), 900);
    assert_eq!(Params::mvv_value(Piece::Pawn), 100);
    assert_eq!(Params::see_value(Piece::Rook), 500);
    assert_eq!(Params::duck_stability(2), 4505);
    assert_eq!(Params::duck_stability(10), 2867);
    assert_eq!(Params::duck_stability(u16::MAX), 2867);
    assert_eq!(Params::move_stability(0), 5325);
}

#[test]
fn params_history_terms_of_fresh_tables() {
    let board = Board::from_fen(START).unwrap();
    let history = History::new();
    let mv = Move::new(sq(File::G, Rank::First), sq(File::F, Rank::Third), sq(File::E, Rank::Fourth), MoveFlag::Normal);
    assert_eq!(Params::noisy_mp_history(&history, &board, mv), 0);
    assert_eq!(Params::quiet_mp_history(&history, &board, no_indices(), mv), 0);
    assert_eq!(Params::noisy_lmr_history(&history, &board, mv), 0);
    assert_eq!(Params::quiet_lmr_history(&history, &board, no_indices(), mv), 0);
    assert_eq!(Params::noisy_mlp_history(&history, &board, mv), 0);
    assert_eq!(Params::quiet_mlp_history(&history, &board, mv), 0);
}

#[test]
fn history_update_rewards_best_and_punishes_failed() {
    let board = Board::from_fen(START).unwrap();
    let mut history = History::new();
    let best = Move::new(sq(File::G, Rank::First), sq(File::F, Rank::Third), sq(File::E, Rank::Fourth), MoveFlag::Normal);
    let failed = Move::new(sq(File::B, Rank::First), sq(File::C, Rank::Third), sq(File::D, Rank::Fourth), MoveFlag::Normal);
    history.update(&board, no_indices(), 3, best, &[failed], &[]);
    assert_eq!(history.quiet(&board, best), 512);
    assert_eq!(history.quiet(&board, failed), -512);
    assert_eq!(history.duck(&board, best), 512);
    assert_eq!(history.duck(&board, failed), -512);
    assert_eq!(history.pawn(&board, best), 512);
    assert_eq!(history.pawn(&board, failed), -512);
    assert_eq!(history.noisy(&board, best), 0);
    assert_eq!(Params::quiet_mp_history(&history, &board, no_indices(), best), 1536);
}

#[test]
fn history_update_with_continuation() {
    let board = Board::from_fen(START).unwrap();
    let mut history = History::new();
    let prev = ContIndex { color: Color::Black, piece: Piece::Pawn, sq: sq(File::E, Rank::Fifth) };
    let indices = ContIndices { cont1: Some(prev), cont2: None, cont4: None };
    let best = Move::new(sq(File::G, Rank::First), sq(File::F, Rank::Third), sq(File::E, Rank::Fourth), MoveFlag::Normal);
    history.update(&board, indices, 2, best, &[], &[]);
    assert_eq!(history.cont1(&board, indices, best), 384);
    assert_eq!(history.cont2(&board, indices, best), 0);
    assert_eq!(history.cont(&board, indices, best), 384);
    assert_eq!(history.cont1(&board, no_indices(), best), 0);
}

#[test]
fn history_noisy_best_move() {
    let board = Board::from_fen(START).unwrap();
    let mut history = History::new();
    let best = Move::new(sq(File::E, Rank::Second), sq(File::D, Rank::Seventh), sq(File::A, Rank::Third), MoveFlag::Capture);
    let failed = Move::new(sq(File::E, Rank::Second), sq(File::F, Rank::Seventh), sq(File::A, Rank::Third), MoveFlag::Capture);
    history.update(&board, no_indices(), 1, best, &[], &[failed]);
    assert_eq!(history.noisy(&board, best), 256);
    assert_eq!(history.noisy(&board, failed), -256);
    assert_eq!(history.quiet(&board, best), 0);
}

#[test]
fn correction_history() {
    let board = Board::from_fen(START).unwrap();
    let mut history = History::new();
    assert_eq!(history.corr(&board), 0);
    history.update_corr(&board, 4, Score(100), Score(0));
    assert_eq!(history.corr(&board), 15);
}

fn group(src: Square, dest: Square, ducks: &[Square], flag: MoveFlag) -> MoveGroup {
    let mut bb = Bitboard(0);
    for d in ducks {
        bb = bb.with(*d);
    }
    MoveGroup { src, dest, ducks: bb, flag }
}

#[test]
fn move_stack_plies() {
    let board = Board::from_fen(START).unwrap();
    let history = History::new();
    let mut stack = MoveStack::new();
    stack.push_ply();
    assert!(stack.is_empty());
    let g = group(
        sq(File::G, Rank::First),
        sq(File::F, Rank::Third),
        &[sq(File::A, Rank::Third), sq(File::B, Rank::Third)],
        MoveFlag::Normal,
    );
    assert_eq!(stack.add_moves(&board, &vec![g], Bitboard(0), false, &history), 0);
    assert_eq!(stack.len(), 2);
    assert_eq!(stack.add_moves(&board, &vec![g], Bitboard(0), false, &history), 2);
    assert_eq!(stack.len(), 4);

    // a child ply sees only its own moves
    stack.push_ply();
    assert_eq!(stack.len(), 0);
    assert_eq!(stack.add_moves(&board, &vec![g], Bitboard(0), false, &history), 0);
    assert_eq!(stack.len(), 2);
    stack.pop_ply();
    assert_eq!(stack.len(), 4);
    assert_eq!(stack.get()[0].0.duck(), sq(File::A, Rank::Third));
    assert_eq!(stack.get()[1].0.duck(), sq(File::B, Rank::Third));

    stack.get_mut()[0].1 = 7;
    assert_eq!(stack.get()[0].1, 7);

    stack.reset();
    stack.push_ply();
    assert!(stack.is_empty());
}

#[test]
fn move_stack_prunes_neutral_ducks() {
    let board = Board::from_fen(START).unwrap();
    let history = History::new();
    let mut stack = MoveStack::default();
    stack.push_ply();
    let a3 = sq(File::A, Rank::Third);
    let b3 = sq(File::B, Rank::Third);
    let c3 = sq(File::C, Rank::Third);
    let g = group(sq(File::G, Rank::First), sq(File::F, Rank::Third), &[a3, b3, c3], MoveFlag::Normal);
    let neutral = Bitboard(0).with(a3).with(b3);
    stack.add_moves(&board, &vec![g], neutral, true, &history);
    // of the equally good neutral squares a3 and b3 only the last stays
    assert_eq!(stack.len(), 2);
    assert_eq!(stack.get()[0].0.duck(), b3);
    assert_eq!(stack.get()[1].0.duck(), c3);

    // without pruning all stay
    stack.add_moves(&board, &vec![g], neutral, false, &history);
    assert_eq!(stack.len(), 5);
}

#[test]
fn move_stack_prunes_to_best_neutral_duck() {
    let board = Board::from_fen(START).unwrap();
    let mut history = History::new();
    let a3 = sq(File::A, Rank::Third);
    let b3 = sq(File::B, Rank::Third);
    let src = sq(File::G, Rank::First);
    let dest = sq(File::F, Rank::Third);
    // reward the duck on a3
    history.update(&board, no_indices(), 3, Move::new(src, dest, a3, MoveFlag::Normal), &[], &[]);
    let mut stack = MoveStack::new();
    stack.push_ply();
    let g = group(src, dest, &[a3, b3], MoveFlag::Normal);
    stack.add_moves(&board, &vec![g], Bitboard(0).with(a3).with(b3), true, &history);
    assert_eq!(stack.len(), 1);
    assert_eq!(stack.get()[0], ScoredMove(Move::new(src, dest, a3, MoveFlag::Normal), 0));
}

#[test]
fn move_picker_order() {
    let board = Board::from_fen(START).unwrap();
    let history = History::new();
    let mut stack = MoveStack::new();
    stack.push_ply();

    let a3 = sq(File::A, Rank::Third);
    let b3 = sq(File::B, Rank::Third);
    let a4 = sq(File::A, Rank::Fourth);
    let e2 = sq(File::E, Rank::Second);
    let d7 = sq(File::D, Rank::Seventh);
    let d8 = sq(File::D, Rank::Eighth);
    let tt = Move::new(sq(File::G, Rank::First), sq(File::F, Rank::Third), a4, MoveFlag::Normal);
    let takes_pawn = Move::new(e2, d7, a3, MoveFlag::Capture);
    let takes_queen_a3 = Move::new(e2, d8, a3, MoveFlag::Capture);
    let takes_queen_b3 = Move::new(e2, d8, b3, MoveFlag::Capture);

    let moves = NodeMoves {
        tt_legal: true,
        noisies: vec![
            group(e2, d7, &[a3], MoveFlag::Capture),
            group(e2, d8, &[a3, b3], MoveFlag::Capture),
        ],
        quiets: vec![group(sq(File::G, Rank::First), sq(File::F, Rank::Third), &[a4], MoveFlag::Normal)],
        good_noisies: vec![takes_queen_a3],
    };
    let mut picker = MovePicker::new(Some(tt), 0, Bitboard(0), false, false);
    assert_eq!(picker.stage(), Stage::TTMove);
    assert_eq!(picker.next(&board, &mut stack, &history, no_indices(), &moves), Some(tt));
    assert_eq!(picker.stage(), Stage::GenerateNoisies);
    assert_eq!(picker.next(&board, &mut stack, &history, no_indices(), &moves), Some(takes_queen_a3));
    assert_eq!(picker.stage(), Stage::YieldGoodNoisies);
    // the capture of the queen scores higher
    assert_eq!(stack.get()[0], ScoredMove(takes_queen_a3, 7200));
    assert_eq!(picker.next(&board, &mut stack, &history, no_indices(), &moves), Some(takes_queen_b3));
    assert_eq!(picker.stage(), Stage::YieldBadNoisies);
    assert_eq!(picker.next(&board, &mut stack, &history, no_indices(), &moves), Some(takes_pawn));
    assert_eq!(picker.next(&board, &mut stack, &history, no_indices(), &moves), None);
    assert_eq!(picker.stage(), Stage::Finished);
    assert_eq!(picker.next(&board, &mut stack, &history, no_indices(), &moves), None);
    // the transposition table move was generated as a quiet but not handed out again
    assert_eq!(stack.len(), 4);
}

#[test]
fn move_picker_skips() {
    let board = Board::from_fen(START).unwrap();
    let history = History::new();
    let mut stack = MoveStack::new();
    stack.push_ply();
    let e2 = sq(File::E, Rank::Second);
    let d7 = sq(File::D, Rank::Seventh);
    let a3 = sq(File::A, Rank::Third);
    let quiet = Move::new(sq(File::G, Rank::First), sq(File::H, Rank::Third), a3, MoveFlag::Normal);
    let moves = NodeMoves {
        tt_legal: false,
        noisies: vec![group(e2, d7, &[a3], MoveFlag::Capture)],
        quiets: vec![group(sq(File::G, Rank::First), sq(File::H, Rank::Third), &[a3], MoveFlag::Normal)],
        good_noisies: vec![],
    };
    // an illegal transposition table move is not handed out
    let mut picker = MovePicker::new(Some(quiet), 0, Bitboard(0), false, false);
    picker.skip_bad_noisies();
    // the quiet move is the table move, so nothing is left
    assert_eq!(picker.next(&board, &mut stack, &history, no_indices(), &moves), None);
    assert_eq!(picker.stage(), Stage::Finished);

    let mut stack = MoveStack::new();
    stack.push_ply();
    let mut picker = MovePicker::new(None, 0, Bitboard(0), false, false);
    picker.skip_quiets();
    assert_eq!(picker.next(&board, &mut stack, &history, no_indices(), &moves), None);
    assert_eq!(stack.len(), 1);
}

#[test]
fn move_picker_quiet_neutral_malus() {
    let board = Board::from_fen(START).unwrap();
    let history = History::new();
    let mut stack = MoveStack::new();
    stack.push_ply();
    let a3 = sq(File::A, Rank::Third);
    let b3 = sq(File::B, Rank::Third);
    let src = sq(File::G, Rank::First);
    let dest = sq(File::F, Rank::Third);
    let moves = NodeMoves {
        tt_legal: false,
        noisies: vec![],
        quiets: vec![group(src, dest, &[a3, b3], MoveFlag::Normal)],
        good_noisies: vec![],
    };
    let mut picker = MovePicker::new(None, 0, Bitboard(0).with(a3), false, false);
    // the duck on the neutral square a3 comes last
    assert_eq!(picker.next(&board, &mut stack, &history, no_indices(), &moves), Some(Move::new(src, dest, b3, MoveFlag::Normal)));
    assert_eq!(stack.get()[1], ScoredMove(Move::new(src, dest, a3, MoveFlag::Normal), -5000));
    assert_eq!(picker.next(&board, &mut stack, &history, no_indices(), &moves), Some(Move::new(src, dest, a3, MoveFlag::Normal)));
    assert_eq!(picker.next(&board, &mut stack, &history, no_indices(), &moves), None);
}

#[test]
fn history_update_at_negative_depth() {
    let board = Board::from_fen(START).unwrap();
    let mut history = History::new();
    let best = Move::new(sq(File::G, Rank::First), sq(File::F, Rank::Third), sq(File::E, Rank::Fourth), MoveFlag::Normal);
    // the bonus 128 + 128 * depth turns negative below depth -1
    history.update(&board, no_indices(), -10, best, &[], &[]);
    assert_eq!(history.quiet(&board, best), -1152);
    history.update(&board, no_indices(), -1, best, &[], &[]);
    assert_eq!(history.quiet(&board, best), -1152);
}

#[test]
fn gravity_with_decay_negative_maximum() {
    let mut entry: i16 = 100;
    gravity_with_decay(&mut entry, 16384, -16384, 8192, 1000);
    // 100 + 1000 - 8192 * 1000 / -16384, the division truncating toward zero
    assert_eq!(entry, 1600);
}

#[test]
fn move_picker_hands_out_each_move_once() {
    let board = Board::from_fen(START).unwrap();
    let history = History::new();
    let mut stack = MoveStack::new();
    stack.push_ply();

    let a3 = sq(File::A, Rank::Third);
    let b3 = sq(File::B, Rank::Third);
    let a4 = sq(File::A, Rank::Fourth);
    let e2 = sq(File::E, Rank::Second);
    let d7 = sq(File::D, Rank::Seventh);
    let d8 = sq(File::D, Rank::Eighth);
    let g1 = sq(File::G, Rank::First);
    let f3 = sq(File::F, Rank::Third);
    let h3 = sq(File::H, Rank::Third);
    let tt = Move::new(g1, f3, a4, MoveFlag::Normal);
    let moves = NodeMoves {
        tt_legal: true,
        noisies: vec![group(e2, d7, &[a3, b3], MoveFlag::Capture), group(e2, d8, &[a3, b3], MoveFlag::Capture)],
        quiets: vec![group(g1, f3, &[a3, a4, b3], MoveFlag::Normal), group(g1, h3, &[a3, b3], MoveFlag::Normal)],
        good_noisies: vec![Move::new(e2, d8, a3, MoveFlag::Capture), Move::new(e2, d7, b3, MoveFlag::Capture)],
    };
    let mut picker = MovePicker::new(Some(tt), 0, Bitboard(0), false, false);
    let mut out: Vec<Move> = Vec::new();
    let mut stages: Vec<Stage> = Vec::new();
    while let Some(m) = picker.next(&board, &mut stack, &history, no_indices(), &moves) {
        out.push(m);
        stages.push(picker.stage());
    }
    assert_eq!(picker.stage(), Stage::Finished);
    // the table move first, and only once
    assert_eq!(out[0], tt);
    assert_eq!(out.iter().filter(|m| **m == tt).count(), 1);
    // every other generated move exactly once
    let generated: Vec<Move> = stack.get().iter().map(|s| s.0).filter(|m| *m != tt).collect();
    assert_eq!(generated.len(), 8);
    assert_eq!(out.len(), generated.len() + 1);
    for m in &generated {
        assert_eq!(out.iter().filter(|x| *x == m).count(), 1);
    }
    // good noisy moves, then quiets, then bad noisy moves
    assert_eq!(stages[1], Stage::YieldGoodNoisies);
    assert_eq!(stages[2], Stage::YieldGoodNoisies);
    assert_eq!(stages[3], Stage::YieldQuiets);
    assert_eq!(stages[6], Stage::YieldQuiets);
    assert_eq!(stages[7], Stage::YieldBadNoisies);
    assert_eq!(stages[8], Stage::YieldBadNoisies);
    // the queen capture scores above the pawn capture among the good ones
    assert_eq!(out[1], Move::new(e2, d8, a3, MoveFlag::Capture));
    assert_eq!(out[2], Move::new(e2, d7, b3, MoveFlag::Capture));
}
