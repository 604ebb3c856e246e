//! Positions and the rules of chess.
//!
//! Move generation, move application and mate detection are the work of the
//! `chess` crate. A [`Position`] carries that crate's board together with the
//! occupancy masks that material counting reads, all as plain integers.

use vstd::prelude::*;
use chess::{Color, Piece};
use crate::score::Side;

verus! {

/// `chess::Board`, carried as a value of which nothing is known.
#[verifier::external_type_specification]
#[verifier::external_body]
pub struct ExBoard(chess::Board);

/// `chess::ChessMove`, carried as a value of which nothing is known.
#[verifier::external_type_specification]
#[verifier::external_body]
pub struct ExChessMove(chess::ChessMove);

/// A chess position. Bit `s` of a mask stands for square `s`, counted from a1
/// (0) along the ranks to h8 (63). Whoever builds a position reads the masks
/// and the side to move from the board.
#[derive(Clone, Copy, Debug, PartialEq, Eq)]
pub struct Position {
    /// The position as the rules engine holds it.
    pub board: chess::Board,
    /// Squares that hold a pawn.
    pub pawns: u64,
    /// Squares that hold a knight.
    pub knights: u64,
    /// Squares that hold a bishop.
    pub bishops: u64,
    /// Squares that hold a rook.
    pub rooks: u64,
    /// Squares that hold a queen.
    pub queens: u64,
    /// Squares that hold a king.
    pub kings: u64,
    /// Squares that hold a white piece.
    pub white: u64,
    /// Squares that hold a black piece.
    pub black: u64,
    /// The side that moves next.
    pub side_to_move: Side,
}

/// No square holds a piece of both colours.
pub open spec fn well_formed(p: Position) -> bool {
    p.white & p.black == 0
}

/// The legal moves of a position, in the order in which the rules engine
/// generates them.
pub uninterp spec fn legal_moves_of(p: Position) -> Seq<chess::ChessMove>;

/// The position that a move leads to.
pub uninterp spec fn position_after(p: Position, m: chess::ChessMove) -> Position;

/// Whether the side to move is checkmated.
pub uninterp spec fn checkmate_in(p: Position) -> bool;

/// Calls `chess::MoveGen::new_legal` on the board and collects what it
/// yields. The moves and their order are a function of the position alone.
#[verifier::external_body]
pub(crate) fn legal_moves(p: &Position) -> (moves: Vec<chess::ChessMove>)
    ensures
        moves@ == legal_moves_of(*p),
{
    chess::MoveGen::new_legal(&p.board).collect()
}

/// Calls `chess::Board::make_move_new` and reads the masks and the side to
/// move of the board that it returns. That function is defined for legal
/// moves only, and its result is a function of the position and the move.
#[verifier::external_body]
pub(crate) fn apply(p: &Position, m: chess::ChessMove) -> (next: Position)
    requires
        legal_moves_of(*p).contains(m),
    ensures
        next == position_after(*p, m),
{
    let b = p.board.make_move_new(m);
    Position {
        board: b,
        pawns: b.pieces(Piece::Pawn).0,
        knights: b.pieces(Piece::Knight).0,
        bishops: b.pieces(Piece::Bishop).0,
        rooks: b.pieces(Piece::Rook).0,
        queens: b.pieces(Piece::Queen).0,
        kings: b.pieces(Piece::King).0,
        white: b.color_combined(Color::White).0,
        black: b.color_combined(Color::Black).0,
        side_to_move: match b.side_to_move() { Color::White => Side::White, _ => Side::Black },
    }
}

/// Calls `chess::Board::legal`, which looks the move up among the legal moves
/// that `chess::MoveGen::new_legal` generates for the board.
#[verifier::external_body]
pub(crate) fn is_legal(p: &Position, m: chess::ChessMove) -> (legal: bool)
    ensures
        legal == legal_moves_of(*p).contains(m),
{
    p.board.legal(m)
}

/// Calls `chess::Board::status` and tells whether it reports checkmate.
#[verifier::external_body]
pub(crate) fn is_checkmate(p: &Position) -> (mate: bool)
    ensures
        mate == checkmate_in(*p),
{
    matches!(p.board.status(), chess::BoardStatus::Checkmate)
}

} // verus!
