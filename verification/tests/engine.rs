use std::str::FromStr;

use chess::{Board, ChessMove, Color, MoveGen, Piece, Square};
use play_chess::board::Position;
use play_chess::engine::{replay, Command, EngineState, Reply};
use play_chess::material::{evaluate, piece_value, MATERIAL_MAX};
use play_chess::score::Side;
use play_chess::search::{expand_move, recursiv_move_gen, RECURSION_DEPTH};
use play_chess::select::{choose_move, pick_index, select, SelectError};
use play_chess::tree::RecursiveResult;

fn position(board: Board) -> Position {
    Position {
        board,
        pawns: board.pieces(Piece::Pawn).0,
        knights: board.pieces(Piece::Knight).0,
        bishops: board.pieces(Piece::Bishop).0,
        rooks: board.pieces(Piece::Rook).0,
        queens: board.pieces(Piece::Queen).0,
        kings: board.pieces(Piece::King).0,
        white: board.color_combined(Color::White).0,
        black: board.color_combined(Color::Black).0,
        side_to_move: match board.side_to_move() {
            Color::White => Side::White,
            Color::Black => Side::Black,
        },
    }
}

fn from_fen(fen: &str) -> Position {
    position(Board::from_str(fen).expect("valid FEN"))
}

fn leaf(a: usize, b: usize) -> RecursiveResult {
    RecursiveResult::Last((a, b))
}

fn node_of(values: &[usize]) -> RecursiveResult {
    RecursiveResult::Branch(values.iter().map(|v| leaf(*v, 0)).collect())
}

const BACK_RANK_MATE: &str = "6k1/5ppp/8/8/8/8/5PPP/R5K1 w - - 0 1";

#[test]
fn start_position_material_is_symmetric() {
    let totals = evaluate(&position(Board::default()));
    assert_eq!(totals, (3600, 3600));
}

#[test]
fn depth_zero_search_is_the_evaluation() {
    let p = position(Board::default());
    let tree = recursiv_move_gen(&p, 0);
    assert_eq!(tree, RecursiveResult::Last(evaluate(&p)));
    assert_eq!(tree, leaf(3600, 3600));
}

#[test]
fn depth_zero_search_evaluates_without_legal_moves() {
    let p = from_fen("R5k1/5ppp/8/8/8/8/5PPP/6K1 b - - 0 1");
    assert_eq!(recursiv_move_gen(&p, 0), leaf(800, 300));
}

#[test]
fn evaluate_uses_the_value_table() {
    let p = from_fen("4k3/8/8/8/8/8/8/4K3 w - - 0 1");
    assert_eq!(evaluate(&p), (0, 0));
    let p = from_fen("4k3/p7/8/8/8/8/8/4K3 w - - 0 1");
    assert_eq!(evaluate(&p), (0, 100));
    let p = from_fen("4k3/8/8/8/8/8/8/1N2K3 w - - 0 1");
    assert_eq!(evaluate(&p), (225, 0));
    let p = from_fen("2b1k3/8/8/8/8/8/8/4K3 w - - 0 1");
    assert_eq!(evaluate(&p), (0, 225));
    let p = from_fen("4k3/8/8/8/8/8/8/R3K3 w - - 0 1");
    assert_eq!(evaluate(&p), (500, 0));
    let p = from_fen("3qk3/8/8/8/8/8/8/4K3 w - - 0 1");
    assert_eq!(evaluate(&p), (0, 900));
}

#[test]
fn evaluate_counts_promoted_pieces() {
    let p = from_fen("4k3/8/8/8/8/8/8/QQQQKQQQ w - - 0 1");
    assert_eq!(evaluate(&p), (6300, 0));
}

#[test]
fn swapping_colours_swaps_the_totals() {
    let p = from_fen("r3k3/pp6/8/8/8/8/PPPP4/RNBQK3 w - - 0 1");
    let (w, b) = evaluate(&p);
    assert_eq!((w, b), (400 + 500 + 225 + 225 + 900, 500 + 200));
    let swapped = Position { white: p.black, black: p.white, ..p };
    assert_eq!(evaluate(&swapped), (b, w));
}

#[test]
fn evaluate_stays_within_the_maximum() {
    let p = Position { pawns: u64::MAX, knights: u64::MAX, bishops: u64::MAX, rooks: u64::MAX,
        queens: u64::MAX, kings: u64::MAX, white: u64::MAX, black: 0, ..position(Board::default()) };
    assert_eq!(evaluate(&p), (MATERIAL_MAX, 0));
}

#[test]
fn evaluate_assigns_each_square_to_one_side() {
    let base = position(Board::default());
    let p = Position { pawns: 0b1011, knights: 0, bishops: 0, rooks: 0, queens: 0, kings: 0,
        white: 0b0011, black: 0b1000, ..base };
    assert_eq!(evaluate(&p), (200, 100));
    let p = Position { rooks: 1 << 63, pawns: 0, black: 1 << 63, white: 0, ..p };
    assert_eq!(evaluate(&p), (0, 500));
    // a square that neither side holds counts for nobody, one that both hold for white
    let p = Position { rooks: 0, queens: 0b11, white: 0b01, black: 0b01, ..p };
    assert_eq!(evaluate(&p), (900, 0));
    let p = Position { queens: u64::MAX, white: 0xffff, black: 0xffff_0000, ..p };
    assert_eq!(evaluate(&p), (16 * 900, 16 * 900));
}

#[test]
fn moves_len_counts_leaves() {
    assert_eq!(leaf(1, 2).moves_len(), 1);
    assert_eq!(RecursiveResult::Branch(vec![]).moves_len(), 0);
    let tree = RecursiveResult::Branch(vec![node_of(&[1, 2, 3]), leaf(0, 0), node_of(&[])]);
    assert_eq!(tree.moves_len(), 4);
    let p = position(Board::default());
    assert_eq!(recursiv_move_gen(&p, 1).moves_len(), 20);
    assert_eq!(recursiv_move_gen(&p, 2).moves_len(), 400);
}

#[test]
fn aggregate_of_a_leaf_takes_the_side_of_the_scorer() {
    assert_eq!(leaf(900, 500).aggregate(Side::White), 400);
    assert_eq!(leaf(900, 500).aggregate(Side::Black), -400);
    assert_eq!(leaf(0, 0).aggregate(Side::White), 0);
}

#[test]
fn aggregate_of_a_single_child_is_that_child() {
    assert_eq!(node_of(&[10]).aggregate(Side::White), 10);
    let inner = RecursiveResult::Branch(vec![leaf(3, 10)]);
    assert_eq!(inner.aggregate(Side::White), -7);
    assert_eq!(RecursiveResult::Branch(vec![inner]).aggregate(Side::White), -7);
}

#[test]
fn aggregate_is_the_mean_of_the_children() {
    assert_eq!(node_of(&[10, 20]).aggregate(Side::White), 15);
    assert_eq!(node_of(&[]).aggregate(Side::White), 0);
    assert_eq!(node_of(&[1, 2]).aggregate(Side::White), 1);
    assert_eq!(node_of(&[1, 2]).aggregate(Side::Black), -1);
    assert_eq!(node_of(&[7, 0, 0]).aggregate(Side::Black), -2);
    let nested = RecursiveResult::Branch(vec![node_of(&[10, 20]), node_of(&[]), leaf(6, 0)]);
    assert_eq!(nested.aggregate(Side::White), 7);
}

#[test]
fn calc_val_list_has_one_score_per_child_in_order() {
    let tree = RecursiveResult::Branch(vec![
        leaf(5, 0),
        node_of(&[10, 20]),
        node_of(&[]),
        leaf(0, 9),
        node_of(&[10]),
    ]);
    assert_eq!(tree.calc_val_list(Side::White), vec![5, 15, 0, -9, 10]);
    assert_eq!(tree.calc_val_list(Side::Black), vec![-5, -15, 0, 9, -10]);
    assert_eq!(RecursiveResult::Branch(vec![]).calc_val_list(Side::White), Vec::<i64>::new());
    assert_eq!(leaf(7, 3).calc_val_list(Side::White), vec![4]);
}

#[test]
fn calc_val_list_aligns_with_the_legal_moves() {
    let board = Board::from_str("4k3/8/8/3r4/8/8/8/3QK3 w - - 0 1").unwrap();
    let p = position(board);
    let moves: Vec<ChessMove> = MoveGen::new_legal(&board).collect();
    let tree = recursiv_move_gen(&p, 1);
    let scores = tree.calc_val_list(Side::White);
    assert_eq!(scores.len(), moves.len());
    let capture = ChessMove::new(Square::D1, Square::D5, None);
    for (i, m) in moves.iter().enumerate() {
        let expected = if *m == capture { 900 } else { 400 };
        assert_eq!(scores[i], expected);
    }
    assert!(moves.contains(&capture));
}

#[test]
fn expand_move_builds_the_tree_after_the_move() {
    let board = Board::from_str("4k3/8/8/3r4/8/8/8/3QK3 w - - 0 1").unwrap();
    let capture = ChessMove::new(Square::D1, Square::D5, None);
    assert_eq!(expand_move(&position(board), &capture, 0), leaf(900, 0));
    let after = position(board.make_move_new(capture));
    assert_eq!(expand_move(&position(board), &capture, 2), recursiv_move_gen(&after, 2));
}

#[test]
fn search_tree_follows_the_move_order() {
    let board = Board::from_str("4k3/8/8/3r4/8/8/8/3QK3 w - - 0 1").unwrap();
    let tree = recursiv_move_gen(&position(board), 3);
    let expected: Vec<RecursiveResult> = MoveGen::new_legal(&board)
        .map(|m| recursiv_move_gen(&position(board.make_move_new(m)), 2))
        .collect();
    assert_eq!(tree, RecursiveResult::Branch(expected));
}

#[test]
fn parallel_root_keeps_the_move_order() {
    let board = Board::from_str("4k3/8/8/8/8/8/4P3/4K3 w - - 0 1").unwrap();
    let tree = recursiv_move_gen(&position(board), RECURSION_DEPTH);
    let expected: Vec<RecursiveResult> = MoveGen::new_legal(&board)
        .map(|m| recursiv_move_gen(&position(board.make_move_new(m)), RECURSION_DEPTH - 1))
        .collect();
    assert!(expected.len() > 1);
    assert_eq!(tree, RecursiveResult::Branch(expected));
}

#[test]
fn pick_index_is_a_stable_argmax() {
    let mates = vec![false, false, false, false];
    assert_eq!(pick_index(&mates, &vec![5, 9, 9, 3]), Ok(1));
    assert_eq!(pick_index(&mates, &vec![-5, -9, -5, -7]), Ok(0));
    assert_eq!(pick_index(&mates, &vec![0, 0, 0, 1]), Ok(3));
    assert_eq!(pick_index(&vec![false], &vec![i64::MIN]), Ok(0));
}

#[test]
fn pick_index_prefers_the_first_mate_over_any_score() {
    assert_eq!(pick_index(&vec![false, true, false, true], &vec![100, 1, 50, 70]), Ok(1));
    assert_eq!(pick_index(&vec![false, false, true], &vec![]), Ok(2));
}

#[test]
fn pick_index_reports_what_is_missing() {
    assert_eq!(pick_index(&vec![], &vec![]), Err(SelectError::NoLegalMoves));
    assert_eq!(pick_index(&vec![], &vec![1, 2]), Err(SelectError::NoLegalMoves));
    assert_eq!(pick_index(&vec![false, false], &vec![1]), Err(SelectError::ScoreMismatch));
    assert_eq!(pick_index(&vec![false], &vec![]), Err(SelectError::ScoreMismatch));
}

#[test]
fn select_returns_the_mating_move_despite_lower_score() {
    let board = Board::from_str(BACK_RANK_MATE).unwrap();
    let moves: Vec<ChessMove> = MoveGen::new_legal(&board).collect();
    let mate = ChessMove::new(Square::A1, Square::A8, None);
    let at = moves.iter().position(|m| *m == mate).unwrap();
    let scores: Vec<i64> = (0..moves.len()).map(|i| if i == at { -1000 } else { 1000 }).collect();
    assert_eq!(select(&position(board), &moves, &scores), Ok(mate));
}

#[test]
fn select_without_mate_takes_the_first_best_score() {
    let board = Board::default();
    let moves: Vec<ChessMove> = MoveGen::new_legal(&board).collect();
    let mut scores: Vec<i64> = vec![0; moves.len()];
    scores[0] = 5;
    scores[1] = 9;
    scores[2] = 9;
    scores[3] = 3;
    assert_eq!(select(&position(board), &moves, &scores), Ok(moves[1]));
    assert_eq!(
        select(&position(board), &moves, &vec![1, 2]),
        Err(SelectError::ScoreMismatch)
    );
    assert_eq!(select(&position(board), &vec![], &vec![]), Err(SelectError::NoLegalMoves));
}

#[test]
fn one_move_from_mate_selects_the_mating_move() {
    let p = from_fen(BACK_RANK_MATE);
    let mate = ChessMove::new(Square::A1, Square::A8, None);
    assert_eq!(choose_move(&p, 1), Ok(mate));
    assert_eq!(choose_move(&p, 2), Ok(mate));
    assert_eq!(choose_move(&p, 3), Ok(mate));
}

#[test]
fn choose_move_takes_the_capture() {
    let p = from_fen("4k3/8/8/3r4/8/8/8/3QK3 w - - 0 1");
    assert_eq!(choose_move(&p, 1), Ok(ChessMove::new(Square::D1, Square::D5, None)));
}

#[test]
fn choose_move_without_legal_moves_fails() {
    let mated = from_fen("R5k1/5ppp/8/8/8/8/5PPP/6K1 b - - 0 1");
    assert_eq!(choose_move(&mated, 1), Err(SelectError::NoLegalMoves));
    let stalemate = from_fen("7k/5Q2/6K1/8/8/8/8/8 b - - 0 1");
    assert_eq!(choose_move(&stalemate, 2), Err(SelectError::NoLegalMoves));
}

#[test]
fn choose_move_at_depth_zero_has_one_score_only() {
    let p = position(Board::default());
    assert_eq!(choose_move(&p, 0), Err(SelectError::ScoreMismatch));
}

#[test]
fn piece_values_follow_the_table() {
    let values: Vec<usize> = (0u8..7).map(piece_value).collect();
    assert_eq!(values, vec![100, 225, 225, 500, 900, 0, 0]);
}

fn mv(from: Square, to: Square) -> ChessMove {
    ChessMove::new(from, to, None)
}

#[test]
fn new_engine_starts_at_the_initial_position() {
    let start = position(Board::default());
    let state = EngineState::new(start, 3);
    assert_eq!(state.initial, start);
    assert_eq!(state.current, start);
    assert_eq!(state.depth, 3);
}

#[test]
fn replay_plays_the_moves_in_order() {
    let start = position(Board::default());
    let e4 = mv(Square::E2, Square::E4);
    let e5 = mv(Square::E7, Square::E5);
    let expected = Board::default().make_move_new(e4).make_move_new(e5);
    assert_eq!(replay(&start, &vec![e4, e5]), Some(position(expected)));
    assert_eq!(replay(&start, &vec![]), Some(start));
}

#[test]
fn replay_rejects_a_move_that_is_not_legal() {
    let start = position(Board::default());
    let e4 = mv(Square::E2, Square::E4);
    assert_eq!(replay(&start, &vec![mv(Square::E2, Square::E5)]), None);
    assert_eq!(replay(&start, &vec![e4, e4]), None);
    assert_eq!(replay(&start, &vec![mv(Square::E4, Square::E5), e4]), None);
}

#[test]
fn step_answers_handshake_and_readiness() {
    let start = position(Board::default());
    let mut state = EngineState::new(start, 1);
    assert_eq!(state.step(&Command::Handshake), Reply::Identify);
    assert_eq!(state.step(&Command::IsReady), Reply::Ready);
    assert_eq!(state.step(&Command::Ignored), Reply::Silent);
    assert_eq!(state.step(&Command::Unknown), Reply::Info);
    assert_eq!(state.step(&Command::Quit), Reply::End);
    assert_eq!(state.current, start);
}

#[test]
fn step_sets_and_resets_the_position() {
    let start = position(Board::default());
    let e4 = mv(Square::E2, Square::E4);
    let e5 = mv(Square::E7, Square::E5);
    let mut state = EngineState::new(start, 1);
    let set = Command::SetPosition { startpos: true, moves: vec![e4] };
    assert_eq!(state.step(&set), Reply::Silent);
    let after_e4 = position(Board::default().make_move_new(e4));
    assert_eq!(state.current, after_e4);
    // without `startpos` the moves continue from the current position
    let more = Command::SetPosition { startpos: false, moves: vec![e5] };
    assert_eq!(state.step(&more), Reply::Silent);
    assert_eq!(state.current, position(Board::default().make_move_new(e4).make_move_new(e5)));
    // a list with a move that is not legal leaves the position as it was
    let bad = Command::SetPosition { startpos: true, moves: vec![e5] };
    let before = state.current;
    assert_eq!(state.step(&bad), Reply::Info);
    assert_eq!(state.current, before);
    assert_eq!(state.step(&set), Reply::Silent);
    assert_eq!(state.current, after_e4);
    assert_eq!(state.step(&Command::NewGame), Reply::Ready);
    assert_eq!(state.current, start);
    assert_eq!(state.initial, start);
}

#[test]
fn step_go_answers_with_the_chosen_move() {
    let mut state = EngineState::new(from_fen(BACK_RANK_MATE), 2);
    let before = state.current;
    assert_eq!(state.step(&Command::Go), Reply::BestMove(mv(Square::A1, Square::A8)));
    assert_eq!(state.current, before);
    let mut mated = EngineState::new(from_fen("R5k1/5ppp/8/8/8/8/5PPP/6K1 b - - 0 1"), 2);
    assert_eq!(mated.step(&Command::Go), Reply::NoMove);
}

#[test]
fn step_go_falls_back_to_the_first_legal_move() {
    let board = Board::default();
    let first = MoveGen::new_legal(&board).next().unwrap();
    let mut state = EngineState::new(position(board), 0);
    assert_eq!(state.step(&Command::Go), Reply::BestMove(first));
}

#[test]
fn step_go_at_full_depth_finds_the_mate() {
    let mut state = EngineState::new(from_fen("k7/8/1K6/8/8/8/8/7R w - - 0 1"), RECURSION_DEPTH);
    assert_eq!(state.step(&Command::Go), Reply::BestMove(mv(Square::H1, Square::H8)));
}
