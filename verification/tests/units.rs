use std::time::Duration;

use lunatic::bits::{holds, lowest_square, popcount, square_bit};
use lunatic::board::{Color, Move, Piece, Position};
use lunatic::evaluation::{Evaluation, EvaluationKind, Evaluator};
use lunatic::history::HistoryTable;
use lunatic::moves::{
    add_killer, killer_moves, killers_of, quiescence_move_generator, static_exchange_evaluation,
    SortedMoveGenerator,
};
use lunatic::notation::parse_move;
use lunatic::oracle::oracle;
use lunatic::search::game_helpers::{
    board_status, child_clock, draw_by_move_rule, move_is_quiet, move_resets_fifty_move_rule,
    BoardStatus,
};
use lunatic::search::search_defs::{SearchOptions, SearchResult};
use lunatic::search::window::{
    bound_kind, late_move_plan, needs_full_search, negate, null_move_depth, probe_window, take_in,
    Probe, Tally,
};
use lunatic::standard::{PieceSquareTable, StandardEvaluator};
use lunatic::table::{TableEntry, TableEntryKind, TranspositionTable};
use lunatic::time::{
    duration_of, FixedTimeManager, PercentageTimeManager, StandardTimeManager, TimeManager,
};

const START: &str = "rnbqkbnr/pppppppp/8/8/8/8/PPPPPPPP/RNBQKBNR w KQkq - 0 1";

fn square(name: &str) -> u8 {
    let bytes = name.as_bytes();
    (bytes[1] - b'1') * 8 + (bytes[0] - b'a')
}

fn mv(name: &str) -> Move {
    Move::new(square(&name[0..2]), square(&name[2..4]), None)
}

fn board(fen: &str) -> Position {
    Position::from_fen(fen).expect("a valid position")
}

fn entry(kind: TableEntryKind, value: i32, depth: u8) -> TableEntry {
    TableEntry { kind, value: Evaluation::from_centipawns(value), depth, best_move: mv("e2e4") }
}

fn result_with(value: Evaluation) -> SearchResult {
    SearchResult {
        mv: mv("e2e4"),
        value,
        nodes: 1,
        depth: 1,
        sel_depth: 1,
        principal_variation: vec![mv("e2e4")],
        transposition_table_size: 1,
        transposition_table_entries: 0,
    }
}

#[test]
fn mate_scores_count_plies_from_the_top() {
    assert_eq!(Evaluation::mate_in(0), Evaluation::highest());
    assert_eq!(Evaluation::mate_in(3), Evaluation::from_centipawns(i32::MAX - 3));
    assert_eq!(Evaluation::mated_in(0), Evaluation::lowest());
    assert_eq!(Evaluation::mated_in(5), Evaluation::from_centipawns(-(i32::MAX - 5)));
    assert_eq!(negate(Evaluation::mate_in(7)), Evaluation::mated_in(7));
    assert!(Evaluation::mate_in(1) > Evaluation::mate_in(2));
    assert!(Evaluation::mated_in(1) < Evaluation::mated_in(2));
}

#[test]
fn scores_add_up_like_numbers() {
    let a = Evaluation::from_centipawns(120);
    let b = Evaluation::from_centipawns(-50);
    assert_eq!(a + b, Evaluation::from_centipawns(70));
    assert_eq!(a - b, Evaluation::from_centipawns(170));
    assert_eq!(-a, Evaluation::from_centipawns(-120));
    assert_eq!(-Evaluation::mate_in(4), Evaluation::mated_in(4));
    assert_eq!(-Evaluation::lowest(), Evaluation::highest());
    assert_eq!(a.max(b), a);
    assert_eq!(a.min(b), b);
    assert_eq!(b.max(a), a);
    assert_eq!(a.max(a), a);
}

#[test]
fn scores_are_shown_in_pawns_and_mates_in_moves() {
    assert_eq!(Evaluation::from_centipawns(0).to_text(), "0.0");
    assert_eq!(Evaluation::from_centipawns(125).to_text(), "1.25");
    assert_eq!(Evaluation::from_centipawns(-125).to_text(), "-1.25");
    assert_eq!(Evaluation::from_centipawns(-50).to_text(), "0.50");
    assert_eq!(Evaluation::from_centipawns(307).to_text(), "3.7");
    assert_eq!(Evaluation::mate_in(1).to_text(), "M1");
    assert_eq!(Evaluation::mate_in(2).to_text(), "M1");
    assert_eq!(Evaluation::mate_in(3).to_text(), "M2");
    assert_eq!(Evaluation::mated_in(4).to_text(), "-M2");
    assert_eq!(Evaluation::mated_in(0).to_text(), "-M0");
    assert_eq!(EvaluationKind::MateIn(255).to_text(), "M128");
    assert_eq!(EvaluationKind::Centipawn(i32::MIN).to_text(), "-21474836.48");
    assert_eq!(EvaluationKind::Centipawn(i32::MAX).to_text(), "21474836.47");
}

#[test]
fn kinds_change_at_the_thresholds() {
    assert_eq!(Evaluation::from_centipawns(0).kind(), EvaluationKind::Centipawn(0));
    assert_eq!(Evaluation::from_centipawns(-250).kind(), EvaluationKind::Centipawn(-250));
    assert_eq!(Evaluation::mate_in(0).kind(), EvaluationKind::MateIn(0));
    assert_eq!(Evaluation::mate_in(255).kind(), EvaluationKind::MateIn(255));
    assert_eq!(Evaluation::mated_in(0).kind(), EvaluationKind::MatedIn(0));
    assert_eq!(Evaluation::mated_in(255).kind(), EvaluationKind::MatedIn(255));
    let top = i32::MAX - 256;
    assert_eq!(Evaluation::from_centipawns(top).kind(), EvaluationKind::Centipawn(top));
    assert_eq!(Evaluation::from_centipawns(-top).kind(), EvaluationKind::Centipawn(-top));
    assert_eq!(Evaluation::from_centipawns(i32::MIN).kind(), EvaluationKind::MatedIn(255));
    assert_eq!(Evaluation::draw().kind(), EvaluationKind::Centipawn(0));
}

#[test]
fn bit_sets_hold_what_was_put_in() {
    assert_eq!(square_bit(0), 1);
    assert_eq!(square_bit(63), 1 << 63);
    assert!(holds(0b1010, 1));
    assert!(!holds(0b1010, 2));
    assert!(!holds(u64::MAX, 64));
    assert_eq!(popcount(0), 0);
    assert_eq!(popcount(u64::MAX), 64);
    assert_eq!(popcount(0xFF00), 8);
    assert_eq!(lowest_square(0), 64);
    assert_eq!(lowest_square(0b1000), 3);
}

#[test]
fn the_start_position_reads_as_expected() {
    let start = board(START);
    let p = start.position();
    assert_eq!(p.pieces(Piece::Pawn), 0x00FF_0000_0000_FF00);
    assert_eq!(p.pieces(Piece::King), (1 << 4) | (1 << 60));
    assert_eq!(p.color_combined(Color::White), 0xFFFF);
    assert_eq!(p.color_combined(Color::Black), 0xFFFF_0000_0000_0000);
    assert_eq!(p.combined(), 0xFFFF_0000_0000_FFFF);
    assert_eq!(p.side_to_move, Color::White);
    assert_eq!(p.piece_on(square("e1")), Some(Piece::King));
    assert_eq!(p.piece_on(square("d8")), Some(Piece::Queen));
    assert_eq!(p.piece_on(square("e4")), None);
    assert!(!p.in_check());
    assert_eq!(start.legal_moves().len(), 20);
    assert!(start.is_legal(mv("e2e4")));
    assert!(!start.is_legal(mv("e2e5")));
    assert!(Position::from_fen("not a position").is_none());
    assert!(Position::from_fen("8/8/8/8/8/8/8/8 w - - 0 1").is_none());
    assert!(Position::from_fen("8/8/8/4k3/8/8/8/8 w - - 0 1").is_none());
    assert!(Position::from_fen("8/8/8/4K3/8/8/8/8 w - - 0 1").is_none());
    assert!(Position::from_fen("k7/8/8/8/8/8/8/K7/Q7 w - - 0 1").is_none());
    assert!(Position::from_fen("4k3/8/8/8/8/8/8/4K2R w K - 0 1").is_some());
    // More than sixteen pieces of a colour are more than the move generator holds.
    assert!(Position::from_fen("NNNNNNNN/NNNNNNNN/NNNNNNNN/8/8/8/8/K6k w - - 0 1").is_none());
    assert!(Position::from_fen("k7/8/8/8/8/8/NNNNNNNN/KNNNNNNN w - - 0 1").is_some());
    assert!(Position::from_fen("k7/8/8/8/8/7N/NNNNNNNN/KNNNNNNN w - - 0 1").is_none());
    assert!(Position::from_fen("knnnnnnn/nnnnnnnn/n7/8/8/8/8/K7 w - - 0 1").is_none());
}

#[test]
fn a_move_changes_the_position() {
    let start = board(START);
    let after = start.make_move(mv("e2e4"));
    assert_ne!(after.hash(), start.hash());
    assert_eq!(after.position().side_to_move, Color::Black);
    assert_eq!(after.position().piece_on(square("e4")), Some(Piece::Pawn));
    assert_eq!(after.position().piece_on(square("e2")), None);
    assert_eq!(after.position(), board("rnbqkbnr/pppppppp/8/8/4P3/8/PPPP1PPP/RNBQKBNR b KQkq - 0 1").position());
    assert!(start.try_move(mv("e2e5")).is_none());
    assert_eq!(start.try_move(mv("g1f3")).unwrap().hash(), start.make_move(mv("g1f3")).hash());
}

#[test]
fn a_null_move_passes_the_turn() {
    let start = board(START);
    let passed = start.null_move().unwrap();
    assert_eq!(passed.position().side_to_move, Color::Black);
    assert_eq!(passed.position().combined(), start.position().combined());
    assert_ne!(passed.hash(), start.hash());
    let in_check = board("4k3/8/8/8/8/8/4r3/4K3 w - - 0 1");
    assert!(in_check.position().in_check());
    assert!(in_check.null_move().is_none());
}

#[test]
fn the_standard_values_are_the_usual_ones() {
    let evaluator = StandardEvaluator::default();
    assert_eq!(evaluator.piece_value(Piece::Pawn), Evaluation::from_centipawns(100));
    assert_eq!(evaluator.piece_value(Piece::Knight), Evaluation::from_centipawns(320));
    assert_eq!(evaluator.piece_value(Piece::Bishop), Evaluation::from_centipawns(330));
    assert_eq!(evaluator.piece_value(Piece::Rook), Evaluation::from_centipawns(500));
    assert_eq!(evaluator.piece_value(Piece::Queen), Evaluation::from_centipawns(900));
    assert_eq!(evaluator.piece_value(Piece::King), Evaluation::from_centipawns(0));
    assert_eq!(*evaluator.piece_values.get(Piece::Rook), 500);
    // Tables are written from black's side: the first row is the eighth rank.
    assert_eq!(evaluator.midgame_piece_tables.pawn.get(Color::Black, square("a7")), -37);
    assert_eq!(evaluator.midgame_piece_tables.pawn.get(Color::White, square("a2")), -37);
    assert_eq!(evaluator.midgame_piece_tables.knight.get(Color::White, square("a8")), -89);
    assert_eq!(evaluator.midgame_piece_tables.knight.get(Color::Black, square("a1")), -89);
    assert_eq!(evaluator.endgame_piece_tables.king.get(Color::White, square("h1")), -28);
}

#[test]
fn a_table_entry_can_be_set() {
    let mut table = PieceSquareTable([[0; 8]; 8]);
    table.set(Color::White, square("c2"), 7);
    assert_eq!(table.get(Color::White, square("c2")), 7);
    assert_eq!(table.get(Color::Black, square("c7")), 7);
    assert_eq!(table.0[6][2], 7);
    assert_eq!(table.get(Color::Black, square("c2")), 0);
}

#[test]
fn the_phase_runs_from_midgame_to_endgame() {
    assert_eq!(StandardEvaluator::game_phase(&board(START).position()), 0);
    assert_eq!(StandardEvaluator::game_phase(&board("8/8/8/4k3/8/8/4K3/8 w - - 0 1").position()), 256);
    // One rook left: 24 - 2 = 22, and (22 * 256 + 12) / 24 = 235.
    assert_eq!(StandardEvaluator::game_phase(&board("7k/8/5K2/8/8/8/8/6R1 w - - 0 1").position()), 235);
    // Nine queens weigh more than the start position does.
    assert_eq!(
        StandardEvaluator::game_phase(&board("QQQQQQQQ/8/8/8/8/k7/8/K6Q b - - 0 1").position()),
        0
    );
}

#[test]
fn evaluation_is_the_same_for_both_colours() {
    let evaluator = StandardEvaluator::default();
    assert_eq!(evaluator.evaluate(&board(START), 0), Evaluation::draw());
    let white = board("r1bqkbnr/pppp1ppp/2n5/4p3/4P3/5N2/PPPP1PPP/RNBQKB1R w KQkq - 0 1");
    let black = board("rnbqkb1r/pppp1ppp/5n2/4p3/4P3/2N5/PPPP1PPP/R1BQKBNR b KQkq - 0 1");
    assert_eq!(evaluator.evaluate(&white, 0), evaluator.evaluate(&black, 0));
    assert_ne!(evaluator.evaluate(&white, 0), Evaluation::draw());
    let up = board("7k/8/8/8/3P4/8/8/7K w - - 0 1");
    let down = board("7k/8/8/8/3P4/8/8/7K b - - 0 1");
    assert_eq!(evaluator.evaluate(&up, 0), negate(evaluator.evaluate(&down, 0)));
}

#[test]
fn a_lone_pawn_is_worth_its_value_and_square() {
    let evaluator = StandardEvaluator::default();
    // Kings on h1 and h8 mirror each other, so only the pawn counts: 100 and
    // its endgame square value on d4, which is -2.
    let p = board("7k/8/8/8/3P4/8/8/7K w - - 0 1");
    assert_eq!(evaluator.evaluate(&p, 0), Evaluation::from_centipawns(98));
    assert_eq!(evaluator.evaluate_static(&p.position()), Evaluation::from_centipawns(98));
    assert_eq!(evaluator.evaluate_for_side(&p.position(), Color::White, 256), 98 - 28);
    assert_eq!(evaluator.evaluate_for_side(&p.position(), Color::Black, 256), -28);
    // With the midgame tables alone: the pawn is worth 100 + 18 on d4, the
    // king on h1 43.
    assert_eq!(evaluator.evaluate_for_side(&p.position(), Color::White, 0), 118 + 43);
}

#[test]
fn ended_games_are_scored_by_how_they_ended() {
    let evaluator = StandardEvaluator::default();
    let mated = board("rnb1kbnr/pppp1ppp/8/4p3/6Pq/5P2/PPPPP2P/RNBQKBNR w KQkq - 0 1");
    assert_eq!(evaluator.evaluate(&mated, 4), Evaluation::mated_in(4));
    let stalemated = board("7k/5Q2/6K1/8/8/8/8/8 b - - 0 1");
    assert_eq!(evaluator.evaluate(&stalemated, 4), Evaluation::draw());
    assert_eq!(
        evaluator.evaluate_known(&mated.position(), false, 2),
        Evaluation::mated_in(2)
    );
}

#[test]
fn exchanges_are_played_out() {
    let evaluator = StandardEvaluator::default();
    // A pawn takes an undefended pawn.
    let free = board("7k/8/8/4p3/3P4/8/8/7K w - - 0 1");
    assert_eq!(
        static_exchange_evaluation(&evaluator, &free.position(), mv("d4e5")),
        Evaluation::from_centipawns(100)
    );
    // A pawn takes a pawn that a pawn defends: 100 - 100.
    let defended = board("7k/8/3p4/4p3/3P4/8/8/7K w - - 0 1");
    assert_eq!(
        static_exchange_evaluation(&evaluator, &defended.position(), mv("d4e5")),
        Evaluation::from_centipawns(0)
    );
    // A rook takes a pawn that a pawn defends: 100 - 500.
    let losing = board("7k/8/3p4/4p3/8/8/8/4R2K w - - 0 1");
    assert_eq!(
        static_exchange_evaluation(&evaluator, &losing.position(), mv("e1e5")),
        Evaluation::from_centipawns(-400)
    );
    // A rook takes a defended pawn with a second rook behind it: the pawn
    // takes back, the second rook takes the pawn, 100 - 500 + 100.
    let battery = board("7k/8/3p4/4p3/8/8/4R3/4R2K w - - 0 1");
    assert_eq!(
        static_exchange_evaluation(&evaluator, &battery.position(), mv("e2e5")),
        Evaluation::from_centipawns(-300)
    );
    // A knight takes a queen that a pawn defends: 900 - 320.
    let rich = board("7k/8/3p4/4q3/8/3N4/8/7K w - - 0 1");
    assert_eq!(
        static_exchange_evaluation(&evaluator, &rich.position(), mv("d3e5")),
        Evaluation::from_centipawns(580)
    );
}

#[test]
fn every_kind_of_piece_takes_part_in_an_exchange() {
    let evaluator = StandardEvaluator::default();
    let see = |fen: &str, capture: &str| {
        static_exchange_evaluation(&evaluator, &board(fen).position(), mv(capture))
    };
    let cp = Evaluation::from_centipawns;
    // The rook takes a pawn that nothing defends.
    assert_eq!(see("7k/8/8/4p3/8/8/8/4R2K w - - 0 1", "e1e5"), cp(100));
    // A knight defends it.
    assert_eq!(see("7k/3n4/8/4p3/8/8/8/4R2K w - - 0 1", "e1e5"), cp(-400));
    // A bishop defends it from afar.
    assert_eq!(see("7k/8/8/4p3/8/8/1b6/4R2K w - - 0 1", "e1e5"), cp(-400));
    // The bishop is blocked.
    assert_eq!(see("7k/8/8/4p3/3P4/8/1b6/4R2K w - - 0 1", "e1e5"), cp(100));
    // A rook defends it along the file.
    assert_eq!(see("4r2k/8/8/4p3/8/8/8/4R2K w - - 0 1", "e1e5"), cp(-400));
    // A queen defends it along the diagonal.
    assert_eq!(see("7k/8/8/4p3/8/8/8/q3R2K w - - 0 1", "e1e5"), cp(-400));
    // The king defends it.
    assert_eq!(see("8/8/4k3/4p3/8/8/8/4R2K w - - 0 1", "e1e5"), cp(-400));
    // The exchange knows nothing of check: the king takes back although a
    // second rook stands behind the first, and a king is worth nothing to
    // the rook that takes it.
    assert_eq!(see("8/8/4k3/4p3/8/8/4R3/4R2K w - - 0 1", "e2e5"), cp(-400));
    // White pawns attack upwards, black pawns downwards: the pawn on f4 is
    // no defender of e5, the pawn on f6 is.
    assert_eq!(see("7k/8/8/4p3/5p2/8/8/4R2K w - - 0 1", "e1e5"), cp(100));
    assert_eq!(see("7k/8/5p2/4p3/8/8/8/4R2K w - - 0 1", "e1e5"), cp(-400));
    // Taking en passant counts as taking a pawn.
    assert_eq!(
        see("7k/8/8/3pP3/8/8/8/7K w - d6 0 1", "e5d6"),
        cp(100)
    );
}

#[test]
fn captures_come_best_first() {
    let evaluator = StandardEvaluator::default();
    let p = board("7k/8/3p4/2n1p3/3P4/8/8/4R2K w - - 0 1");
    let moves = p.legal_moves();
    let captures = quiescence_move_generator(&evaluator, &p.position(), &moves);
    assert_eq!(captures, vec![mv("d4c5"), mv("d4e5"), mv("e1e5")]);
    let quiet = board(START);
    assert!(quiescence_move_generator(&evaluator, &quiet.position(), &quiet.legal_moves()).is_empty());
}

#[test]
fn the_oracle_knows_dead_draws() {
    assert_eq!(oracle(&board("8/8/8/4k3/8/8/4K3/8 w - - 0 1")), Some(Evaluation::draw()));
    assert_eq!(oracle(&board("8/8/8/4k3/8/8/4K1B1/8 w - - 0 1")), Some(Evaluation::draw()));
    assert_eq!(oracle(&board("8/8/8/4k3/8/8/4K1n1/8 w - - 0 1")), Some(Evaluation::draw()));
    assert_eq!(oracle(&board("8/8/8/4k3/8/8/4K1R1/8 w - - 0 1")), None);
    assert_eq!(oracle(&board("8/8/8/4k3/8/8/4K1P1/8 w - - 0 1")), None);
    assert_eq!(oracle(&board("8/8/8/3nk3/8/8/4KN2/8 w - - 0 1")), Some(Evaluation::draw()));
    assert_eq!(oracle(&board("8/8/8/3nk3/8/8/5N2/4K3 w - - 0 1")), None);
    assert_eq!(oracle(&board("8/8/8/3bk3/8/8/4KB2/8 w - - 0 1")), None);
    assert_eq!(oracle(&board(START)), None);
}

#[test]
fn pawn_moves_and_captures_reset_the_clock() {
    let start = board(START).position();
    assert!(move_resets_fifty_move_rule(mv("e2e4"), &start));
    assert!(!move_resets_fifty_move_rule(mv("g1f3"), &start));
    let p = board("7k/8/8/4p3/8/8/8/4R2K w - - 0 1").position();
    assert!(move_resets_fifty_move_rule(mv("e1e5"), &p));
    assert!(!move_resets_fifty_move_rule(mv("e1e4"), &p));
    assert_eq!(child_clock(true, 37), 1);
    assert_eq!(child_clock(false, 37), 38);
    assert_eq!(child_clock(false, 0), 1);
    assert_eq!(child_clock(false, 255), 255);
}

#[test]
fn quiet_moves_take_and_promote_nothing() {
    let before = board("7k/4P3/8/4p3/8/8/8/4R2K w - - 0 1");
    let quiet = before.make_move(mv("e1e4"));
    let capture = before.make_move(mv("e1e5"));
    let promotion = before.make_move(Move::new(square("e7"), square("e8"), Some(Piece::Queen)));
    assert!(move_is_quiet(&before.position(), &quiet.position()));
    assert!(!move_is_quiet(&before.position(), &capture.position()));
    assert!(!move_is_quiet(&before.position(), &promotion.position()));
}

#[test]
fn the_status_tells_mate_from_stalemate() {
    let start = board(START);
    assert_eq!(board_status(&start.position(), &start.legal_moves()), BoardStatus::Ongoing);
    let mated = board("rnb1kbnr/pppp1ppp/8/4p3/6Pq/5P2/PPPPP2P/RNBQKBNR w KQkq - 0 1");
    assert_eq!(board_status(&mated.position(), &mated.legal_moves()), BoardStatus::Checkmate);
    let stalemated = board("7k/5Q2/6K1/8/8/8/8/8 b - - 0 1");
    assert_eq!(
        board_status(&stalemated.position(), &stalemated.legal_moves()),
        BoardStatus::Stalemate
    );
}

#[test]
fn the_fifty_move_rule_starts_at_a_hundred_plies() {
    let p = board(START).position();
    let history: Vec<u64> = (1..=120u64).collect();
    assert!(!draw_by_move_rule(&p, &history, 99));
    assert!(draw_by_move_rule(&p, &history, 100));
    assert!(draw_by_move_rule(&p, &history, 255));
}

#[test]
fn a_repetition_counts_on_ones_own_turn_and_within_the_clock() {
    let p = board(START).position();
    let h = p.hash;
    // The position itself is the last entry; two plies back does not count
    // when the clock is below four.
    assert!(!draw_by_move_rule(&p, &vec![h, 1, h], 3));
    assert!(draw_by_move_rule(&p, &vec![h, 1, h], 4));
    // Own turns only: an odd number of plies back is the other side's turn.
    assert!(!draw_by_move_rule(&p, &vec![h, 1, 2, h], 4));
    // Within the clock only: four plies back with a clock of four is too far.
    assert!(!draw_by_move_rule(&p, &vec![h, 1, 2, 3, h], 4));
    assert!(draw_by_move_rule(&p, &vec![h, 1, 2, 3, h], 5));
    // The third occurrence, found at the exact boundary.
    assert!(draw_by_move_rule(&p, &vec![h, 1, 2, 3, h, 5, 6, 7, h], 8));
    assert!(!draw_by_move_rule(&p, &vec![9, 1, 2, 3, 9, 5, 6, 7, h], 8));
    assert!(!draw_by_move_rule(&p, &vec![h], 50));
    assert!(!draw_by_move_rule(&p, &Vec::new(), 50));
}

#[test]
fn the_cache_prefers_depth_and_its_own_hash() {
    let mut table = TranspositionTable::with_rounded_entries(4);
    assert_eq!(table.capacity(), 4);
    assert_eq!(table.len(), 0);
    assert!(table.probe_hash(5).is_none());
    table.offer_hash(5, entry(TableEntryKind::Exact, 10, 3));
    assert_eq!(table.len(), 1);
    assert_eq!(table.probe_hash(5).unwrap().depth, 3);
    // Hash 9 falls into the same slot: a shallower entry does not get in.
    table.offer_hash(9, entry(TableEntryKind::Exact, 20, 2));
    assert!(table.probe_hash(9).is_none());
    assert_eq!(table.probe_hash(5).unwrap().value, Evaluation::from_centipawns(10));
    // Nor does one of the same depth.
    table.offer_hash(9, entry(TableEntryKind::Exact, 20, 3));
    assert!(table.probe_hash(9).is_none());
    // A deeper one does.
    table.offer_hash(9, entry(TableEntryKind::LowerBound, 30, 4));
    assert!(table.probe_hash(5).is_none());
    assert_eq!(table.probe_hash(9).unwrap().kind, TableEntryKind::LowerBound);
    assert_eq!(table.len(), 1);
    // The same hash always gets in, also with less depth.
    table.offer_hash(9, entry(TableEntryKind::UpperBound, 40, 1));
    assert_eq!(table.probe_hash(9).unwrap().depth, 1);
    assert_eq!(table.probe_hash(9).unwrap().value, Evaluation::from_centipawns(40));
    table.offer_hash(6, entry(TableEntryKind::Exact, 50, 0));
    assert_eq!(table.len(), 2);
}

#[test]
fn the_cache_is_sized_in_powers_of_two() {
    assert_eq!(TranspositionTable::with_rounded_entries(0).capacity(), 1);
    assert_eq!(TranspositionTable::with_rounded_entries(1).capacity(), 1);
    assert_eq!(TranspositionTable::with_rounded_entries(3).capacity(), 4);
    assert_eq!(TranspositionTable::with_rounded_entries(1024).capacity(), 1024);
    assert_eq!(TranspositionTable::with_rounded_entries(1025).capacity(), 2048);
    assert_eq!(TranspositionTable::with_rounded_size(0).capacity(), 1);
    assert_eq!(TranspositionTable::with_rounded_size(24 * 100).capacity(), 128);
    assert_eq!(TranspositionTable::with_rounded_size(1_000_000).capacity(), 65536);
}

#[test]
fn the_cache_finds_positions_by_their_hash() {
    let mut table = TranspositionTable::with_rounded_size(10_000);
    let start = board(START);
    let other = start.make_move(mv("e2e4"));
    assert!(table.get(&start).is_none());
    table.set(&start, entry(TableEntryKind::Exact, 12, 2));
    assert_eq!(table.get(&start).unwrap().value, Evaluation::from_centipawns(12));
    assert_eq!(table.probe_hash(start.hash()).unwrap().depth, 2);
    if (other.hash() ^ start.hash()) & (table.capacity() as u64 - 1) != 0 {
        assert!(table.get(&other).is_none());
    }
}

#[test]
fn a_cache_entry_narrows_the_window() {
    let alpha = Evaluation::from_centipawns(-50);
    let beta = Evaluation::from_centipawns(50);
    match probe_window(None, 3, alpha, beta) {
        Probe::Window(a, b) => assert_eq!((a, b), (alpha, beta)),
        Probe::Settled(..) => panic!("settled by nothing"),
    }
    match probe_window(Some(entry(TableEntryKind::Exact, 7, 2)), 3, alpha, beta) {
        Probe::Window(a, b) => assert_eq!((a, b), (alpha, beta)),
        Probe::Settled(..) => panic!("settled by a shallow entry"),
    }
    match probe_window(Some(entry(TableEntryKind::Exact, 7, 3)), 3, alpha, beta) {
        Probe::Settled(value, best) => {
            assert_eq!(value, Evaluation::from_centipawns(7));
            assert_eq!(best, mv("e2e4"));
        },
        Probe::Window(..) => panic!("an exact entry settles"),
    }
    match probe_window(Some(entry(TableEntryKind::LowerBound, 7, 4)), 3, alpha, beta) {
        Probe::Window(a, b) => assert_eq!((a, b), (Evaluation::from_centipawns(7), beta)),
        Probe::Settled(..) => panic!("the bounds do not meet"),
    }
    match probe_window(Some(entry(TableEntryKind::UpperBound, 7, 4)), 3, alpha, beta) {
        Probe::Window(a, b) => assert_eq!((a, b), (alpha, Evaluation::from_centipawns(7))),
        Probe::Settled(..) => panic!("the bounds do not meet"),
    }
    match probe_window(Some(entry(TableEntryKind::LowerBound, 50, 4)), 3, alpha, beta) {
        Probe::Settled(value, _) => assert_eq!(value, Evaluation::from_centipawns(50)),
        Probe::Window(..) => panic!("the bounds meet"),
    }
    match probe_window(Some(entry(TableEntryKind::UpperBound, -60, 4)), 3, alpha, beta) {
        Probe::Settled(value, _) => assert_eq!(value, Evaluation::from_centipawns(-60)),
        Probe::Window(..) => panic!("the bounds meet"),
    }
}

#[test]
fn late_quiet_moves_are_reduced() {
    let options = SearchOptions::default();
    let alpha = Evaluation::from_centipawns(10);
    let beta = Evaluation::from_centipawns(90);
    let narrowed = Evaluation::from_centipawns(11);
    assert_eq!(late_move_plan(&options, 3, 4, true, false, false, alpha, beta), (3, narrowed));
    assert_eq!(late_move_plan(&options, 2, 4, true, false, false, alpha, beta), (4, beta));
    assert_eq!(late_move_plan(&options, 3, 3, true, false, false, alpha, beta), (3, beta));
    assert_eq!(late_move_plan(&options, 3, 4, false, false, false, alpha, beta), (4, beta));
    assert_eq!(late_move_plan(&options, 3, 4, true, true, false, alpha, beta), (4, beta));
    assert_eq!(late_move_plan(&options, 3, 4, true, false, true, alpha, beta), (4, beta));
    let mut deep = options;
    deep.late_move_reduction = 9;
    assert_eq!(late_move_plan(&deep, 5, 6, true, false, false, alpha, beta), (1, narrowed));
    let mut none = options;
    none.late_move_reduction = 0;
    assert_eq!(late_move_plan(&none, 5, 6, true, false, false, alpha, beta), (6, narrowed));
}

#[test]
fn a_reduced_move_that_raises_alpha_is_searched_again() {
    let alpha = Evaluation::from_centipawns(10);
    let beta = Evaluation::from_centipawns(90);
    let narrowed = Evaluation::from_centipawns(11);
    let raised = Evaluation::from_centipawns(11);
    assert!(needs_full_search(raised, alpha, 3, 4, narrowed, beta));
    assert!(needs_full_search(raised, alpha, 4, 4, narrowed, beta));
    assert!(needs_full_search(raised, alpha, 3, 4, beta, beta));
    assert!(!needs_full_search(raised, alpha, 4, 4, beta, beta));
    assert!(!needs_full_search(alpha, alpha, 3, 4, narrowed, beta));
}

#[test]
fn the_null_move_is_searched_less_deep() {
    assert_eq!(null_move_depth(6, 2), 3);
    assert_eq!(null_move_depth(3, 2), 0);
    assert_eq!(null_move_depth(2, 2), 0);
    assert_eq!(null_move_depth(255, 255), 0);
    assert_eq!(null_move_depth(255, 0), 254);
}

#[test]
fn bounds_are_named_by_where_the_value_fell() {
    let alpha = Evaluation::from_centipawns(10);
    let beta = Evaluation::from_centipawns(90);
    assert_eq!(bound_kind(Evaluation::from_centipawns(10), alpha, beta), TableEntryKind::UpperBound);
    assert_eq!(bound_kind(Evaluation::from_centipawns(-5), alpha, beta), TableEntryKind::UpperBound);
    assert_eq!(bound_kind(Evaluation::from_centipawns(11), alpha, beta), TableEntryKind::Exact);
    assert_eq!(bound_kind(Evaluation::from_centipawns(89), alpha, beta), TableEntryKind::Exact);
    assert_eq!(bound_kind(Evaluation::from_centipawns(90), alpha, beta), TableEntryKind::LowerBound);
}

#[test]
fn the_first_move_and_every_better_one_become_the_best() {
    let start = Tally {
        value: Evaluation::lowest(),
        best_move: None,
        alpha: Evaluation::from_centipawns(0),
    };
    let first = take_in(start, mv("a2a3"), Evaluation::lowest());
    assert_eq!(first.best_move, Some(mv("a2a3")));
    assert_eq!(first.value, Evaluation::lowest());
    assert_eq!(first.alpha, Evaluation::from_centipawns(0));
    let second = take_in(first, mv("b2b3"), Evaluation::from_centipawns(-20));
    assert_eq!(second.best_move, Some(mv("b2b3")));
    assert_eq!(second.alpha, Evaluation::from_centipawns(0));
    let third = take_in(second, mv("c2c3"), Evaluation::from_centipawns(-20));
    assert_eq!(third.best_move, Some(mv("b2b3")));
    let fourth = take_in(third, mv("d2d4"), Evaluation::from_centipawns(35));
    assert_eq!(fourth.best_move, Some(mv("d2d4")));
    assert_eq!(fourth.value, Evaluation::from_centipawns(35));
    assert_eq!(fourth.alpha, Evaluation::from_centipawns(35));
}

#[test]
fn history_counters_rise_by_the_square_of_the_depth() {
    let mut history = HistoryTable::new();
    assert_eq!(history.get(Color::White, Piece::Knight, square("f3")), 0);
    history.bump(Color::White, Piece::Knight, square("f3"), 5);
    history.bump(Color::White, Piece::Knight, square("f3"), 3);
    assert_eq!(history.get(Color::White, Piece::Knight, square("f3")), 34);
    assert_eq!(history.get(Color::Black, Piece::Knight, square("f3")), 0);
    assert_eq!(history.get(Color::White, Piece::Bishop, square("f3")), 0);
    assert_eq!(history.get(Color::White, Piece::Knight, square("f4")), 0);
    assert_eq!(history.get(Color::White, Piece::Knight, 64), 0);
    for _ in 0..70_000 {
        history.bump(Color::Black, Piece::King, square("h8"), 255);
    }
    assert_eq!(history.get(Color::Black, Piece::King, square("h8")), u32::MAX);
}

#[test]
fn a_fixed_manager_counts_down() {
    let mut manager = FixedTimeManager::new(Duration::from_millis(1000));
    let draw = Evaluation::draw();
    assert_eq!(manager.update(result_with(draw), Duration::from_millis(300)), Duration::from_millis(700));
    assert_eq!(manager.update(result_with(draw), Duration::from_millis(300)), Duration::from_millis(400));
    assert_eq!(manager.update(result_with(draw), Duration::from_millis(400)), Duration::ZERO);
    assert_eq!(manager.update(result_with(draw), Duration::from_millis(400)), Duration::ZERO);
    assert_eq!(manager.update(result_with(draw), Duration::MAX), Duration::ZERO);
    let mut endless = FixedTimeManager::new(Duration::MAX);
    assert_eq!(
        endless.update(result_with(draw), Duration::new(1, 5)),
        Duration::MAX - Duration::new(1, 5)
    );
}

#[test]
fn a_percentage_manager_takes_its_share() {
    let draw = Evaluation::draw();
    let mut manager =
        PercentageTimeManager::new(Duration::from_secs(60), 5, Duration::from_millis(100));
    assert_eq!(manager.update(result_with(draw), Duration::from_secs(1)), Duration::from_secs(2));
    let mut floor = PercentageTimeManager::new(Duration::from_secs(1), 5, Duration::from_millis(100));
    assert_eq!(floor.update(result_with(draw), Duration::ZERO), Duration::from_millis(100));
    let mut none = PercentageTimeManager::new(Duration::from_secs(1), 0, Duration::ZERO);
    assert_eq!(none.update(result_with(draw), Duration::ZERO), Duration::ZERO);
    let mut huge = PercentageTimeManager::new(Duration::MAX, 200, Duration::ZERO);
    assert_eq!(huge.update(result_with(draw), Duration::ZERO), Duration::MAX);
}

#[test]
fn the_standard_manager_stops_on_a_mate() {
    let mut manager =
        StandardTimeManager::new(Duration::from_secs(60), 5, Duration::from_millis(100));
    assert_eq!(
        manager.update(result_with(Evaluation::from_centipawns(30)), Duration::from_secs(1)),
        Duration::from_secs(2)
    );
    assert_eq!(manager.update(result_with(Evaluation::mate_in(3)), Duration::from_secs(1)), Duration::ZERO);
    assert_eq!(manager.update(result_with(Evaluation::mated_in(4)), Duration::from_secs(1)), Duration::ZERO);
    // The two results with a mate did not count.
    assert_eq!(
        manager.update(result_with(Evaluation::from_centipawns(30)), Duration::from_millis(500)),
        Duration::from_millis(1500)
    );
}

#[test]
fn durations_are_made_from_nanoseconds() {
    assert_eq!(duration_of(0), Duration::ZERO);
    assert_eq!(duration_of(1_500_000_000), Duration::new(1, 500_000_000));
    assert_eq!(duration_of(18_446_744_073_709_551_615_999_999_999), Duration::MAX);
}

#[test]
fn the_defaults_are_the_documented_ones() {
    let options = SearchOptions::default();
    assert_eq!(options.late_move_reduction, 1);
    assert_eq!(options.late_move_leeway, 3);
    assert!(options.null_move_pruning);
    assert_eq!(options.null_move_reduction, 2);
    assert_eq!(options.max_depth, 64);
    assert_eq!(options.max_nodes, u32::MAX);
    assert_eq!(options.transposition_table_size, 16_000_000);
}

fn drain(generator: &mut SortedMoveGenerator, history: &HistoryTable) -> Vec<Move> {
    let mut moves = Vec::new();
    while let Some(next) = generator.next(history) {
        moves.push(next);
    }
    moves
}

#[test]
fn every_move_comes_once() {
    let evaluator = StandardEvaluator::default();
    let table = TranspositionTable::with_rounded_entries(16);
    let start = board(START);
    let mut generator = SortedMoveGenerator::new(
        &table,
        &evaluator,
        killers_of(&Vec::new()),
        start.position(),
        start.legal_moves(),
    );
    let mut handed = drain(&mut generator, &HistoryTable::new());
    let mut legal = start.legal_moves();
    assert_eq!(handed.len(), 20);
    let key = |m: &Move| (m.source, m.dest);
    handed.sort_by_key(key);
    legal.sort_by_key(key);
    assert_eq!(handed, legal);
    assert_eq!(generator.next(&HistoryTable::new()), None);
}

#[test]
fn moves_come_in_stages() {
    let evaluator = StandardEvaluator::default();
    // White can take a knight with a pawn (+320), a defended pawn with a
    // pawn (0) or with the rook (-400).
    let p = board("7k/8/3p4/2n1p3/3P4/8/8/4R2K w - - 0 1");
    let mut table = TranspositionTable::with_rounded_entries(16);
    table.set(&p, entry_with(mv("h1g1")));
    let killers = killers_of(&vec![mv("e1e2"), mv("d4d5"), mv("e1a1")]);
    assert_eq!(killer_moves(&killers), vec![mv("d4d5"), mv("e1a1")]);
    let mut history = HistoryTable::new();
    history.bump(Color::White, Piece::King, square("h2"), 3);
    history.bump(Color::White, Piece::Rook, square("e3"), 2);
    let mut generator =
        SortedMoveGenerator::new(&table, &evaluator, killers, p.position(), p.legal_moves());
    let handed = drain(&mut generator, &history);
    assert_eq!(handed.len(), p.legal_moves().len());
    // The move of the cache, the captures that lose nothing, the killers in
    // the order of the queue, the quiet moves by their counters.
    assert_eq!(
        &handed[0..7],
        &[
            mv("h1g1"),
            mv("d4c5"),
            mv("d4e5"),
            mv("d4d5"),
            mv("e1a1"),
            mv("h1h2"),
            mv("e1e3"),
        ]
    );
    // The losing capture comes last.
    assert_eq!(handed.last(), Some(&mv("e1e5")));
}

#[test]
fn a_cache_move_that_is_not_legal_is_left_out() {
    let evaluator = StandardEvaluator::default();
    let start = board(START);
    let mut table = TranspositionTable::with_rounded_entries(16);
    table.set(&start, entry_with(mv("e2e5")));
    let mut generator = SortedMoveGenerator::new(
        &table,
        &evaluator,
        killers_of(&vec![mv("a7a6")]),
        start.position(),
        start.legal_moves(),
    );
    let handed = drain(&mut generator, &HistoryTable::new());
    assert_eq!(handed.len(), 20);
    assert!(!handed.contains(&mv("e2e5")));
    assert!(!handed.contains(&mv("a7a6")));
}

fn entry_with(best_move: Move) -> TableEntry {
    TableEntry {
        kind: TableEntryKind::Exact,
        value: Evaluation::draw(),
        depth: 1,
        best_move,
    }
}

#[test]
fn the_killer_queue_keeps_the_last_two() {
    let mut killers = killers_of(&Vec::new());
    assert!(killer_moves(&killers).is_empty());
    add_killer(&mut killers, mv("a2a3"));
    assert_eq!(killer_moves(&killers), vec![mv("a2a3")]);
    add_killer(&mut killers, mv("b2b3"));
    assert_eq!(killer_moves(&killers), vec![mv("a2a3"), mv("b2b3")]);
    // A move that is in the queue moves to the back.
    add_killer(&mut killers, mv("a2a3"));
    assert_eq!(killer_moves(&killers), vec![mv("b2b3"), mv("a2a3")]);
    // A third move pushes the oldest out.
    add_killer(&mut killers, mv("c2c3"));
    assert_eq!(killer_moves(&killers), vec![mv("a2a3"), mv("c2c3")]);
    let promotion = Move::new(square("e7"), square("e8"), Some(Piece::Knight));
    add_killer(&mut killers, promotion);
    assert_eq!(killer_moves(&killers), vec![mv("c2c3"), promotion]);
}

#[test]
fn moves_are_read_in_coordinate_notation() {
    assert_eq!(parse_move("e2e4"), Some(mv("e2e4")));
    assert_eq!(parse_move("a1h8"), Some(Move::new(0, 63, None)));
    assert_eq!(parse_move("e7e8q"), Some(Move::new(52, 60, Some(Piece::Queen))));
    assert_eq!(parse_move("e7e8r"), Some(Move::new(52, 60, Some(Piece::Rook))));
    assert_eq!(parse_move("e7e8n"), Some(Move::new(52, 60, Some(Piece::Knight))));
    assert_eq!(parse_move("e7e8b"), Some(Move::new(52, 60, Some(Piece::Bishop))));
    assert_eq!(parse_move("e7e8k"), None);
    assert_eq!(parse_move("e2e"), None);
    assert_eq!(parse_move(""), None);
    assert_eq!(parse_move("i2e4"), None);
    assert_eq!(parse_move("e9e4"), None);
    assert_eq!(parse_move("e2e0"), None);
    assert_eq!(parse_move("E2E4"), None);
    assert_eq!(parse_move("e2e4 and more"), Some(mv("e2e4")));
}
