use lunatic::board::{Move, Piece, Position};
use lunatic::evaluation::{Evaluation, EvaluationKind};
use lunatic::search::game_helpers::draw_by_move_rule;
use lunatic::search::search_defs::{LunaticHandler, SearchError, SearchOptions, SearchResult};
use lunatic::search::LunaticSearchState;
use lunatic::standard::StandardEvaluator;

const START: &str = "rnbqkbnr/pppppppp/8/8/8/8/PPPPPPPP/RNBQKBNR w KQkq - 0 1";

struct Recorder {
    results: Vec<SearchResult>,
    stop_after_nodes: bool,
}

impl LunaticHandler for Recorder {
    fn time_up(&mut self) -> bool {
        self.stop_after_nodes
    }

    fn search_result(&mut self, search_result: SearchResult) {
        self.results.push(search_result);
    }
}

fn recorder() -> Recorder {
    Recorder { results: Vec::new(), stop_after_nodes: false }
}

fn square(name: &str) -> u8 {
    let bytes = name.as_bytes();
    (bytes[1] - b'1') * 8 + (bytes[0] - b'a')
}

fn mv(name: &str) -> Move {
    let promotion = match name.as_bytes().get(4) {
        Some(b'q') => Some(Piece::Queen),
        Some(b'r') => Some(Piece::Rook),
        Some(b'b') => Some(Piece::Bishop),
        Some(b'n') => Some(Piece::Knight),
        _ => None,
    };
    Move::new(square(&name[0..2]), square(&name[2..4]), promotion)
}

fn moves(names: &[&str]) -> Vec<Move> {
    names.iter().map(|name| mv(name)).collect()
}

fn options(max_depth: u8) -> SearchOptions {
    let mut options = SearchOptions::default();
    options.max_depth = max_depth;
    options.transposition_table_size = 1_000_000;
    options
}

fn run(fen: &str, played: &[&str], options: SearchOptions) -> (SearchError, Vec<SearchResult>) {
    let board = Position::from_fen(fen).expect("a valid position");
    let mut state =
        LunaticSearchState::try_new(recorder(), &board, moves(played), options).expect("legal moves");
    let end = state.search();
    (end, state.into_handler().results)
}

#[test]
fn back_rank_mate_is_found() {
    let (end, results) = run("6k1/5ppp/8/8/8/8/5PPP/R5K1 w - - 0 1", &[], options(6));
    assert_eq!(end, SearchError::MaxDepth);
    assert_eq!(results.len(), 6);
    let last = results.last().unwrap();
    assert_eq!(last.mv, mv("a1a8"));
    assert_eq!(last.value.kind(), EvaluationKind::MateIn(1));
    assert_eq!(last.depth, 6);
    assert_eq!(last.principal_variation[0], mv("a1a8"));
}

#[test]
fn fools_mate_is_answered() {
    let (_, results) = run(START, &["f2f3", "e7e5", "g2g4"], options(4));
    let last = results.last().unwrap();
    assert_eq!(last.mv, mv("d8h4"));
    assert_eq!(last.value.kind(), EvaluationKind::MateIn(1));
}

#[test]
fn bare_kings_are_drawn_at_depth_one() {
    let (end, results) = run("8/8/8/4k3/8/8/4K3/8 w - - 0 1", &[], options(1));
    assert_eq!(end, SearchError::MaxDepth);
    assert_eq!(results.len(), 1);
    assert_eq!(results[0].value, Evaluation::draw());
    assert_eq!(results[0].value.kind(), EvaluationKind::Centipawn(0));
    assert_eq!(results[0].depth, 1);
    // The root and its eight children, each settled at once.
    assert_eq!(results[0].nodes, 9);
}

#[test]
fn repeating_a_position_is_worth_a_draw_at_least() {
    let shuffle = ["g1f3", "g8f6", "f3g1", "f6g8", "g1f3", "g8f6", "f3g1", "f6g8"];
    let (_, results) = run(START, &shuffle, options(2));
    let last = results.last().unwrap();
    assert!(last.value >= Evaluation::draw());
}

#[test]
fn the_fourth_visit_of_a_position_is_a_draw_by_rule() {
    // After the knights went out and back twice, Nf3 reaches a position for
    // the third time, each time with black to move.
    let shuffle =
        ["g1f3", "g8f6", "f3g1", "f6g8", "g1f3", "g8f6", "f3g1", "f6g8", "g1f3"];
    let board = Position::from_fen(START).unwrap();
    let state =
        LunaticSearchState::try_new(recorder(), &board, moves(&shuffle), options(2)).unwrap();
    assert_eq!(state.halfmove_clock(), 9);
    assert_eq!(state.game_history().len(), 10);
    assert!(draw_by_move_rule(
        &state.board().position(),
        state.game_history(),
        state.halfmove_clock()
    ));
    // One visit before there was nothing to repeat it.
    let once = LunaticSearchState::try_new(recorder(), &board, moves(&shuffle[0..1]), options(2))
        .unwrap();
    assert!(!draw_by_move_rule(
        &once.board().position(),
        once.game_history(),
        once.halfmove_clock()
    ));
}

#[test]
fn a_hanging_pawn_is_taken() {
    let (_, results) = run("7k/8/8/4p3/3P4/8/8/7K w - - 0 1", &[], options(4));
    let last = results.last().unwrap();
    assert_eq!(last.mv, mv("d4e5"));
    match last.value.kind() {
        EvaluationKind::Centipawn(cp) => assert!(cp >= 50 && cp <= 400, "value {}", cp),
        other => panic!("not a centipawn value: {:?}", other),
    }
}

#[test]
fn late_move_reduction_keeps_the_root_value() {
    // Kf7 is quiet and the only move that mates in two.
    let fen = "7k/8/5K2/8/8/8/8/6R1 w - - 0 1";
    let reduced = options(5);
    let mut full = options(5);
    full.late_move_reduction = 0;
    full.late_move_leeway = 255;
    let (_, with_reduction) = run(fen, &[], reduced);
    let (_, without_reduction) = run(fen, &[], full);
    let a = with_reduction.last().unwrap();
    let b = without_reduction.last().unwrap();
    assert_eq!(a.value, b.value);
    assert_eq!(a.value.kind(), EvaluationKind::MateIn(3));
    assert_eq!(a.mv, mv("f6f7"));
}

#[test]
fn mate_in_two_is_found() {
    let (_, results) = run("7k/8/5K2/8/8/8/8/6R1 w - - 0 1", &[], options(4));
    let last = results.last().unwrap();
    assert_eq!(last.value.kind(), EvaluationKind::MateIn(3));
    assert_eq!(last.principal_variation.len() >= 3, true);
}

#[test]
fn a_mated_root_has_no_moves() {
    // Fool's mate: white is mated.
    let (end, results) = run(START, &["f2f3", "e7e5", "g2g4", "d8h4"], options(3));
    assert_eq!(end, SearchError::NoMoves);
    assert!(results.is_empty());
}

#[test]
fn a_stalemated_root_has_no_moves() {
    let (end, results) = run("7k/5Q2/6K1/8/8/8/8/8 b - - 0 1", &[], options(3));
    assert_eq!(end, SearchError::NoMoves);
    assert!(results.is_empty());
}

#[test]
fn stalemate_below_the_root_is_a_draw() {
    // Qf7 would stalemate black; the search must see that this is only a
    // draw and mate with Qf8 instead.
    let (_, results) = run("7k/8/6K1/8/8/8/8/5Q2 w - - 0 1", &[], options(3));
    let last = results.last().unwrap();
    assert_eq!(last.mv, mv("f1f8"));
    assert_eq!(last.value.kind(), EvaluationKind::MateIn(1));
}

#[test]
fn the_host_can_stop_the_search() {
    let board = Position::from_fen(START).unwrap();
    let handler = Recorder { results: Vec::new(), stop_after_nodes: true };
    let mut state = LunaticSearchState::try_new(handler, &board, Vec::new(), options(6)).unwrap();
    let end = state.search();
    assert_eq!(end, SearchError::Terminated);
    // The host is asked once in 4096 nodes, so the shallow iterations finish.
    assert!(state.into_handler().results.len() < 6);
}

#[test]
fn an_illegal_move_is_refused() {
    let board = Position::from_fen(START).unwrap();
    let state = LunaticSearchState::try_new(recorder(), &board, moves(&["e2e5"]), options(2));
    assert!(state.is_none());
}

#[test]
fn results_come_one_for_each_depth() {
    let (end, results) = run(START, &[], options(3));
    assert_eq!(end, SearchError::MaxDepth);
    let depths: Vec<u8> = results.iter().map(|r| r.depth).collect();
    assert_eq!(depths, vec![1, 2, 3]);
    for result in &results {
        assert!(result.transposition_table_entries <= result.transposition_table_size);
        assert!(result.transposition_table_size.is_power_of_two());
        assert_eq!(result.principal_variation[0], result.mv);
    }
}

#[test]
fn one_iteration_can_be_run_alone() {
    let board = Position::from_fen("6k1/5ppp/8/8/8/8/5PPP/R5K1 w - - 0 1").unwrap();
    let mut state = LunaticSearchState::try_new(recorder(), &board, Vec::new(), options(6)).unwrap();
    let mut nodes = 0;
    let first = state.deepen(1, &mut nodes).unwrap().unwrap();
    assert_eq!(first.depth, 1);
    assert_eq!(first.nodes, nodes);
    assert!(nodes > 0);
    let second = state.deepen(2, &mut nodes).unwrap().unwrap();
    assert_eq!(second.mv, mv("a1a8"));
    assert_eq!(second.value, Evaluation::mate_in(1));
    assert_eq!(second.principal_variation, vec![mv("a1a8")]);
    assert!(second.nodes >= first.nodes);
    // Nothing was handed to the host.
    assert!(state.handler().results.is_empty());
    let mated = Position::from_fen("R5k1/5ppp/8/8/8/8/5PPP/6K1 b - - 0 1").unwrap();
    let mut over = LunaticSearchState::try_new(recorder(), &mated, Vec::new(), options(6)).unwrap();
    assert_eq!(over.deepen(1, &mut nodes).err(), Some(SearchError::NoMoves));
}

#[test]
fn the_evaluator_can_be_replaced() {
    let mut evaluator = StandardEvaluator::default();
    evaluator.piece_values.pawn = 250;
    let board = Position::from_fen("7k/8/8/4p3/3P4/8/8/7K w - - 0 1").unwrap();
    let mut state = LunaticSearchState::try_new(recorder(), &board, Vec::new(), options(4))
        .unwrap()
        .with_evaluator(evaluator);
    state.search();
    let results = state.into_handler().results;
    let last = results.last().unwrap();
    assert_eq!(last.mv, mv("d4e5"));
    match last.value.kind() {
        EvaluationKind::Centipawn(cp) => assert!(cp >= 200, "value {}", cp),
        other => panic!("not a centipawn value: {:?}", other),
    }
}

#[test]
fn a_search_without_depth_does_nothing() {
    let (end, results) = run(START, &[], options(0));
    assert_eq!(end, SearchError::MaxDepth);
    assert!(results.is_empty());
}

#[test]
fn the_history_is_left_as_it_was_found() {
    let board = Position::from_fen(START).unwrap();
    let played = moves(&["g1f3", "g8f6", "f3g1"]);
    let mut state = LunaticSearchState::try_new(recorder(), &board, played, options(3)).unwrap();
    let before = state.game_history().clone();
    assert_eq!(before.len(), 4);
    assert_eq!(before[0], board.hash());
    assert_eq!(state.halfmove_clock(), 3);
    assert_eq!(state.search(), SearchError::MaxDepth);
    assert_eq!(state.game_history(), &before);
    assert_eq!(state.halfmove_clock(), 3);
    // Also when the host stops the search in the middle of an iteration.
    let stopper = Recorder { results: Vec::new(), stop_after_nodes: true };
    let mut stopped = LunaticSearchState::try_new(
        stopper,
        &board,
        moves(&["g1f3", "g8f6", "f3g1"]),
        options(30),
    )
    .unwrap();
    assert_eq!(stopped.search(), SearchError::Terminated);
    assert_eq!(stopped.game_history(), &before);
}

#[test]
fn a_move_that_resets_the_clock_clears_the_history() {
    let board = Position::from_fen(START).unwrap();
    let state =
        LunaticSearchState::try_new(recorder(), &board, moves(&["g1f3", "e7e5"]), options(1))
            .unwrap();
    assert_eq!(state.game_history().len(), 1);
    assert_eq!(state.game_history()[0], state.board().hash());
    assert_eq!(state.halfmove_clock(), 0);
    assert_eq!(state.search_options().max_depth, 1);
    let quiet = LunaticSearchState::try_new(
        recorder(),
        &board,
        moves(&["e2e4", "g8f6", "g1f3"]),
        options(1),
    )
    .unwrap();
    assert_eq!(quiet.game_history().len(), 3);
    assert_eq!(quiet.halfmove_clock(), 2);
}

#[test]
fn no_null_move_is_tried_without_a_slider() {
    // Kings, knights and pawns only: with or without null move pruning the
    // search is the same, node for node.
    let fen = "4k3/pp3n2/8/8/8/8/PP3N2/4K3 w - - 0 1";
    let with = options(5);
    let mut without = options(5);
    without.null_move_pruning = false;
    let (_, a) = run(fen, &[], with);
    let (_, b) = run(fen, &[], without);
    assert_eq!(a.len(), 5);
    for (x, y) in a.iter().zip(b.iter()) {
        assert_eq!(x.nodes, y.nodes);
        assert_eq!(x.value, y.value);
        assert_eq!(x.mv, y.mv);
    }
    // With rooks on the board the null move saves nodes.
    let sliders = "4k2r/pp3n2/8/8/8/8/PP3N2/4K2R w - - 0 1";
    let mut off = options(5);
    off.null_move_pruning = false;
    let (_, c) = run(sliders, &[], options(5));
    let (_, d) = run(sliders, &[], off);
    assert_ne!(c.last().unwrap().nodes, d.last().unwrap().nodes);
}

#[test]
fn a_line_that_repeats_is_a_draw_and_the_winning_side_avoids_it() {
    // White is a rook up. The kings shuffled, and Kg1 would bring the
    // position back; the search takes another move and keeps its advantage.
    let fen = "6k1/8/8/8/8/8/R7/7K w - - 0 1";
    let shuffle = ["h1g1", "g8h8", "g1h1", "h8g8", "h1g1", "g8h8", "g1h1", "h8g8"];
    let (_, results) = run(fen, &shuffle, options(3));
    let last = results.last().unwrap();
    assert_ne!(last.mv, mv("h1g1"));
    assert!(last.value > Evaluation::from_centipawns(300));
    // Black is the one who is a rook down, and takes the draw when it can
    // get one: after Kg1 the reply Kh8 repeats the position.
    let (_, results) = run(fen, &["h1g1", "g8h8", "g1h1", "h8g8", "h1g1"], options(2));
    let last = results.last().unwrap();
    assert_eq!(last.mv, mv("g8h8"));
    assert_eq!(last.value, Evaluation::draw());
}

#[test]
fn the_principal_variation_can_be_played() {
    // A position with castling, pins, promotions and captures en passant near.
    let fen = "r3k2r/p1ppqpb1/bn2pnp1/3PN3/1p2P3/2N2Q1p/PPPBBPPP/R3K2R w KQkq - 0 1";
    let (end, results) = run(fen, &[], options(4));
    assert_eq!(end, SearchError::MaxDepth);
    assert_eq!(results.len(), 4);
    for result in &results {
        let mut board = Position::from_fen(fen).unwrap();
        assert!(!result.principal_variation.is_empty());
        for step in &result.principal_variation {
            board = board.try_move(*step).expect("a legal move in the line");
        }
        assert!(result.sel_depth >= result.depth);
        assert!(result.nodes > 0);
    }
    let nodes: Vec<u32> = results.iter().map(|r| r.nodes).collect();
    assert!(nodes.windows(2).all(|pair| pair[0] < pair[1]));
}

#[test]
fn a_pawn_is_promoted() {
    let (_, results) = run("8/4P2k/8/8/8/8/8/K7 w - - 0 1", &[], options(3));
    let last = results.last().unwrap();
    assert_eq!(last.mv, Move::new(square("e7"), square("e8"), Some(Piece::Queen)));
    match last.value.kind() {
        EvaluationKind::Centipawn(cp) => assert!(cp > 700, "value {}", cp),
        other => panic!("not a centipawn value: {:?}", other),
    }
}
