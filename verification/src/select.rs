//! Choosing the move to play from the scores of the root moves.

use vstd::prelude::*;
use crate::board::{
    apply, checkmate_in, is_checkmate, legal_moves, legal_moves_of, position_after, Position,
};
use crate::score::root_scores;
use crate::search::{recursiv_move_gen, tree_of};

verus! {

/// Why no move was chosen.
#[derive(Clone, Copy, Debug, PartialEq, Eq)]
pub enum SelectError {
    /// The position has no legal move.
    NoLegalMoves,
    /// No move mates, and there is not exactly one score per move.
    ScoreMismatch,
}

/// `i` is the first index at which `flags` holds `true`.
pub open spec fn is_first_set(flags: Seq<bool>, i: int) -> bool {
    &&& 0 <= i < flags.len()
    &&& flags[i]
    &&& forall|j: int| 0 <= j < i ==> !flags[j]
}

/// No flag is set.
pub open spec fn none_set(flags: Seq<bool>) -> bool {
    forall|j: int| 0 <= j < flags.len() ==> !flags[j]
}

/// `i` is the first index at which `scores` holds its maximum.
pub open spec fn is_first_max(scores: Seq<i64>, i: int) -> bool {
    &&& 0 <= i < scores.len()
    &&& forall|j: int| 0 <= j < scores.len() ==> scores[j] <= scores[i]
    &&& forall|j: int| 0 <= j < i ==> scores[j] < scores[i]
}

/// What `pick_index` owes for `mates` and `scores`.
pub open spec fn picked(mates: Seq<bool>, scores: Seq<i64>, r: Result<usize, SelectError>) -> bool {
    match r {
        Ok(i) => is_first_set(mates, i as int) || (none_set(mates) && scores.len() == mates.len()
            && is_first_max(scores, i as int)),
        Err(SelectError::NoLegalMoves) => mates.len() == 0,
        Err(SelectError::ScoreMismatch) => mates.len() > 0 && none_set(mates) && scores.len()
            != mates.len(),
    }
}

/// The mate flags of the first `n` of `moves` from `p`.
pub open spec fn mate_flags(p: Position, moves: Seq<chess::ChessMove>) -> Seq<bool> {
    Seq::new(moves.len(), |i: int| checkmate_in(position_after(p, moves[i])))
}

/// At most one index is the first set flag.
pub proof fn lemma_first_set_unique(flags: Seq<bool>, i: int, j: int)
    requires
        is_first_set(flags, i),
        is_first_set(flags, j),
    ensures
        i == j,
{
    if i < j {
        assert(!flags[i]);
    } else if j < i {
        assert(!flags[j]);
    }
}

/// At most one index is the first maximum.
pub proof fn lemma_first_max_unique(scores: Seq<i64>, i: int, j: int)
    requires
        is_first_max(scores, i),
        is_first_max(scores, j),
    ensures
        i == j,
{
    if i < j {
        assert(scores[i] < scores[j]);
        assert(scores[j] <= scores[i]);
    } else if j < i {
        assert(scores[j] < scores[i]);
        assert(scores[i] <= scores[j]);
    }
}

/// A mating move is chosen whatever the scores are: the choice is the same
/// for any two score lists.
pub proof fn lemma_mate_overrides(
    mates: Seq<bool>,
    a: Seq<i64>,
    b: Seq<i64>,
    ra: Result<usize, SelectError>,
    rb: Result<usize, SelectError>,
)
    requires
        !none_set(mates),
        picked(mates, a, ra),
        picked(mates, b, rb),
    ensures
        ra == rb,
        ra is Ok,
        is_first_set(mates, ra->Ok_0 as int),
{
}

/// Picks the index of the move to play. `mates[i]` tells whether move `i`
/// mates at once, `scores[i]` is its score. The first mating move wins
/// whatever the scores are; without one, the first move with the highest score wins.
pub fn pick_index(mates: &Vec<bool>, scores: &Vec<i64>) -> (r: Result<usize, SelectError>)
    ensures
        picked(mates@, scores@, r),
{
    if mates.len() == 0 {
        return Err(SelectError::NoLegalMoves);
    }
    let mut i: usize = 0;
    while i < mates.len()
        invariant
            i <= mates.len(),
            forall|j: int| 0 <= j < i ==> !mates@[j],
        decreases mates.len() - i,
    {
        if mates[i] {
            return Ok(i);
        }
        i = i + 1;
    }
    if scores.len() != mates.len() {
        return Err(SelectError::ScoreMismatch);
    }
    let mut best: usize = 0;
    let mut k: usize = 1;
    while k < scores.len()
        invariant
            1 <= k <= scores.len(),
            best < k,
            forall|j: int| 0 <= j < k ==> scores@[j] <= scores@[best as int],
            forall|j: int| 0 <= j < best ==> scores@[j] < scores@[best as int],
        decreases scores.len() - k,
    {
        if scores[k] > scores[best] {
            best = k;
        }
        k = k + 1;
    }
    Ok(best)
}

/// What `select` owes for `moves` and `scores` in position `p`.
pub open spec fn selected(
    p: Position,
    moves: Seq<chess::ChessMove>,
    scores: Seq<i64>,
    r: Result<chess::ChessMove, SelectError>,
) -> bool {
    match r {
        Ok(m) => exists|i: usize|
            i < moves.len() && m == moves[i as int] && #[trigger] picked(
                mate_flags(p, moves),
                scores,
                Ok::<usize, SelectError>(i),
            ),
        Err(e) => picked(mate_flags(p, moves), scores, Err::<usize, SelectError>(e)),
    }
}

/// Where a move mates at once, the first such move is selected, whatever the
/// scores are and however many there are.
pub proof fn lemma_mate_is_selected(
    p: Position,
    moves: Seq<chess::ChessMove>,
    scores: Seq<i64>,
    r: Result<chess::ChessMove, SelectError>,
    at: int,
)
    requires
        selected(p, moves, scores, r),
        is_first_set(mate_flags(p, moves), at),
    ensures
        r == Ok::<chess::ChessMove, SelectError>(moves[at]),
{
    let flags = mate_flags(p, moves);
    assert(flags[at]);
    match r {
        Ok(m) => {
            let i = choose|i: usize|
                i < moves.len() && m == moves[i as int] && #[trigger] picked(
                    flags,
                    scores,
                    Ok::<usize, SelectError>(i),
                );
            lemma_first_set_unique(flags, i as int, at);
        },
        Err(_) => {},
    }
}

/// Where no move mates at once and there is one score per move, the first
/// move with the highest score is selected.
pub proof fn lemma_best_score_is_selected(
    p: Position,
    moves: Seq<chess::ChessMove>,
    scores: Seq<i64>,
    r: Result<chess::ChessMove, SelectError>,
    at: int,
)
    requires
        selected(p, moves, scores, r),
        none_set(mate_flags(p, moves)),
        scores.len() == moves.len(),
        is_first_max(scores, at),
    ensures
        r == Ok::<chess::ChessMove, SelectError>(moves[at]),
{
    let flags = mate_flags(p, moves);
    match r {
        Ok(m) => {
            let i = choose|i: usize|
                i < moves.len() && m == moves[i as int] && #[trigger] picked(
                    flags,
                    scores,
                    Ok::<usize, SelectError>(i),
                );
            assert(!flags[i as int]);
            lemma_first_max_unique(scores, i as int, at);
        },
        Err(_) => {},
    }
}

/// Chooses among `moves`, which are legal in `position`: the first that mates
/// at once, else the first with the highest score.
pub fn select(position: &Position, moves: &Vec<chess::ChessMove>, scores: &Vec<i64>) -> (r: Result<
    chess::ChessMove,
    SelectError,
>)
    requires
        forall|i: int| 0 <= i < moves@.len() ==> legal_moves_of(*position).contains(#[trigger] moves@[i]),
    ensures
        selected(*position, moves@, scores@, r),
{
    let mut mates: Vec<bool> = Vec::new();
    let mut i: usize = 0;
    while i < moves.len()
        invariant
            i <= moves.len(),
            mates@.len() == i,
            forall|j: int| 0 <= j < moves@.len() ==> legal_moves_of(*position).contains(#[trigger] moves@[j]),
            forall|j: int|
                0 <= j < i ==> #[trigger] mates@[j] == checkmate_in(
                    position_after(*position, moves@[j]),
                ),
        decreases moves.len() - i,
    {
        let next = apply(position, moves[i]);
        mates.push(is_checkmate(&next));
        i = i + 1;
    }
    assert(mates@ =~= mate_flags(*position, moves@));
    match pick_index(&mates, scores) {
        Ok(at) => Ok(moves[at]),
        Err(e) => Err(e),
    }
}

/// The scores of the root moves of `p` after a search to `depth`, for the side
/// to move.
pub open spec fn search_scores(p: Position, depth: nat) -> Seq<i64> {
    let exact = root_scores(tree_of(p, depth), p.side_to_move);
    Seq::new(exact.len(), |i: int| exact[i] as i64)
}

/// Searches `position` to `depth` plies and chooses the move to play, scoring
/// for the side to move. A search of no ply has a single score, that of the
/// position itself, whatever the number of legal moves.
pub fn choose_move(position: &Position, depth: usize) -> (r: Result<chess::ChessMove, SelectError>)
    ensures
        selected(
            *position,
            legal_moves_of(*position),
            search_scores(*position, depth as nat),
            r,
        ),
{
    let moves = legal_moves(position);
    let tree = recursiv_move_gen(position, depth);
    let scores = tree.calc_val_list(position.side_to_move);
    let r = select(position, &moves, &scores);
    assert(scores@ =~= search_scores(*position, depth as nat));
    r
}

} // verus!
