//! Material counting.
//!
//! Each piece on the board adds the value of its kind to the total of the
//! side that owns it. A square belongs to white if the white mask holds it,
//! else to black if the black mask holds it, else to nobody.
//!
//! The pieces are first listed kind by kind, each kind from the lowest square
//! up, and the list is then summed.

use vstd::prelude::*;
use vstd::std_specs::bits::{axiom_u64_trailing_zeros, u64_trailing_zeros};
use crate::board::{well_formed, Position};
use crate::pieces::{held, list_get, list_len, list_push, new_list, PieceList};
use crate::score::Side;

verus! {

/// Index of the pawn among the kinds of pieces.
pub const PAWN: u8 = 0;

/// Index of the knight.
pub const KNIGHT: u8 = 1;

/// Index of the bishop.
pub const BISHOP: u8 = 2;

/// Index of the rook.
pub const ROOK: u8 = 3;

/// Index of the queen.
pub const QUEEN: u8 = 4;

/// Index of the king.
pub const KING: u8 = 5;

/// Value of a pawn.
pub const PAWN_VALUE: usize = 100;

/// Value of a knight.
pub const KNIGHT_VALUE: usize = 225;

/// Value of a bishop.
pub const BISHOP_VALUE: usize = 225;

/// Value of a rook.
pub const ROOK_VALUE: usize = 500;

/// Value of a queen.
pub const QUEEN_VALUE: usize = 900;

/// Value of a king: kings are never traded.
pub const KING_VALUE: usize = 0;

/// The most that one side's material can come to: each of the six kinds on
/// all 64 squares.
pub const MATERIAL_MAX: usize = 124_800;

/// Whether `mask` holds square `sq`.
pub open spec fn bit(mask: u64, sq: u64) -> bool {
    (mask >> sq) & 1 == 1
}

/// Number of squares below `n` that `mask` holds.
pub open spec fn count_below(mask: u64, n: nat) -> nat
    decreases n,
{
    if n == 0 {
        0
    } else {
        count_below(mask, (n - 1) as nat) + if bit(mask, (n - 1) as u64) {
            1nat
        } else {
            0nat
        }
    }
}

/// Number of squares that `mask` holds.
pub open spec fn popcount(mask: u64) -> nat {
    count_below(mask, 64)
}

/// The squares that count for `side`, given the masks of the two colours.
pub open spec fn owned_mask(white: u64, black: u64, side: Side) -> u64 {
    match side {
        Side::White => white,
        Side::Black => black & !white,
    }
}

/// The squares of `p` that count for `side`.
pub open spec fn owned(p: Position, side: Side) -> u64 {
    owned_mask(p.white, p.black, side)
}

/// The value of a piece of the kind with index `kind`.
pub open spec fn value_of(kind: u8) -> nat {
    if kind == PAWN {
        PAWN_VALUE as nat
    } else if kind == KNIGHT {
        KNIGHT_VALUE as nat
    } else if kind == BISHOP {
        BISHOP_VALUE as nat
    } else if kind == ROOK {
        ROOK_VALUE as nat
    } else if kind == QUEEN {
        QUEEN_VALUE as nat
    } else {
        KING_VALUE as nat
    }
}

/// The material total of `side`.
pub open spec fn material(p: Position, side: Side) -> nat {
    let own = owned(p, side);
    value_of(PAWN) * popcount(p.pawns & own) + value_of(KNIGHT) * popcount(p.knights & own)
        + value_of(BISHOP) * popcount(p.bishops & own) + value_of(ROOK) * popcount(p.rooks & own)
        + value_of(QUEEN) * popcount(p.queens & own) + value_of(KING) * popcount(p.kings & own)
}

/// The position with the colours of all pieces exchanged.
pub open spec fn colors_swapped(p: Position) -> Position {
    Position { white: p.black, black: p.white, ..p }
}

/// The pieces of one kind on the squares below `n` that `mask` holds, from
/// the lowest square up.
pub open spec fn tagged(kind: u8, mask: u64, n: nat) -> Seq<(u8, u8)>
    decreases n,
{
    if n == 0 {
        Seq::empty()
    } else if bit(mask, (n - 1) as u64) {
        tagged(kind, mask, (n - 1) as nat).push((kind, (n - 1) as u8))
    } else {
        tagged(kind, mask, (n - 1) as nat)
    }
}

/// What a listed piece adds to the total of `side`.
pub open spec fn worth(item: (u8, u8), white: u64, black: u64, side: Side) -> nat {
    if item.1 < 64 && bit(owned_mask(white, black, side), item.1 as u64) {
        value_of(item.0)
    } else {
        0
    }
}

/// What the listed pieces add up to for `side`.
pub open spec fn total(items: Seq<(u8, u8)>, white: u64, black: u64, side: Side) -> nat
    decreases items.len(),
{
    if items.len() == 0 {
        0
    } else {
        total(items.drop_last(), white, black, side) + worth(items.last(), white, black, side)
    }
}

/// At most `n` squares lie below `n`.
pub proof fn lemma_count_below_le(mask: u64, n: nat)
    ensures
        count_below(mask, n) <= n,
    decreases n,
{
    if n > 0 {
        lemma_count_below_le(mask, (n - 1) as nat);
    }
}

/// At most `n` pieces stand on the squares below `n`.
pub proof fn lemma_tagged_len(kind: u8, mask: u64, n: nat)
    ensures
        tagged(kind, mask, n).len() <= n,
    decreases n,
{
    if n > 0 {
        lemma_tagged_len(kind, mask, (n - 1) as nat);
    }
}

/// Squares that `mask` does not hold add no piece.
pub proof fn lemma_tagged_skip(kind: u8, mask: u64, k: nat, n: nat)
    requires
        k <= n <= 64,
        forall|i: u64| k <= i < n ==> !#[trigger] bit(mask, i),
    ensures
        tagged(kind, mask, n) == tagged(kind, mask, k),
    decreases n,
{
    if k < n {
        lemma_tagged_skip(kind, mask, k, (n - 1) as nat);
        assert(!bit(mask, (n - 1) as u64));
    }
}

/// A piece pushed behind a list adds its worth to the list's total.
pub proof fn lemma_total_push(items: Seq<(u8, u8)>, item: (u8, u8), white: u64, black: u64, side: Side)
    ensures
        total(items.push(item), white, black, side) == total(items, white, black, side) + worth(
            item,
            white,
            black,
            side,
        ),
{
    assert(items.push(item).drop_last() =~= items);
}

proof fn lemma_bit_of_and(mask: u64, own: u64, i: u64)
    by (bit_vector)
    requires
        i < 64,
    ensures
        (((mask & own) >> i) & 1 == 1) == ((mask >> i) & 1 == 1 && (own >> i) & 1 == 1),
{
}

proof fn lemma_bit_after_clear(bb: u64, p: u64, i: u64)
    by (bit_vector)
    requires
        p < 64,
        i < 64,
        (bb >> p) & 1 == 1,
    ensures
        (((bb ^ (1u64 << p)) >> i) & 1 == 1) == ((bb >> i) & 1 == 1 && i != p),
        bb ^ (1u64 << p) < bb,
{
}

/// The pieces of one kind, listed behind `base`, add the value of the kind
/// for each square that the kind's mask and the side's squares share.
pub proof fn lemma_total_tagged(
    base: Seq<(u8, u8)>,
    kind: u8,
    mask: u64,
    white: u64,
    black: u64,
    side: Side,
    n: nat,
)
    requires
        n <= 64,
    ensures
        total(base + tagged(kind, mask, n), white, black, side) == total(base, white, black, side)
            + value_of(kind) * count_below(mask & owned_mask(white, black, side), n),
    decreases n,
{
    let own = owned_mask(white, black, side);
    if n == 0 {
        assert(base + tagged(kind, mask, n) =~= base);
    } else {
        let m = (n - 1) as nat;
        let i = m as u64;
        lemma_total_tagged(base, kind, mask, white, black, side, m);
        lemma_bit_of_and(mask, own, i);
        let before = count_below(mask & own, m);
        if bit(mask, i) {
            let item = (kind, m as u8);
            assert(base + tagged(kind, mask, m).push(item) =~= (base + tagged(kind, mask, m)).push(
                item,
            ));
            lemma_total_push(base + tagged(kind, mask, m), item, white, black, side);
            assert(item.1 as u64 == i);
            assert(value_of(kind) * (before + 1) == value_of(kind) * before + value_of(kind))
                by (nonlinear_arith);
        }
    }
}

/// The value of a piece of the kind with index `kind`.
pub fn piece_value(kind: u8) -> (value: usize)
    ensures
        value == value_of(kind),
        value <= QUEEN_VALUE,
{
    if kind == PAWN {
        PAWN_VALUE
    } else if kind == KNIGHT {
        KNIGHT_VALUE
    } else if kind == BISHOP {
        BISHOP_VALUE
    } else if kind == ROOK {
        ROOK_VALUE
    } else if kind == QUEEN {
        QUEEN_VALUE
    } else {
        KING_VALUE
    }
}

/// Lists the pieces of one kind behind those already listed, by taking the
/// lowest square out of the kind's mask until none is left.
fn collect_kind(list: &mut PieceList, kind: u8, mask: u64)
    ensures
        held(*final(list)) == held(*old(list)) + tagged(kind, mask, 64),
{
    let ghost base = held(*list);
    let ghost mut k: nat = 0;
    let mut bb: u64 = mask;
    proof {
        assert(base + tagged(kind, mask, 0) =~= base);
    }
    loop
        invariant
            k <= 64,
            held(*list) == base + tagged(kind, mask, k),
            forall|i: u64| i < 64 ==> #[trigger] bit(bb, i) == (i >= k && bit(mask, i)),
        ensures
            held(*list) == base + tagged(kind, mask, 64),
        decreases bb,
    {
        let sq: u32 = bb.trailing_zeros();
        proof {
            axiom_u64_trailing_zeros(bb);
        }
        if sq >= 64 {
            proof {
                assert forall|i: u64| k <= i < 64 implies !#[trigger] bit(mask, i) by {
                    assert((0u64 >> i) & 1 == 0) by (bit_vector);
                    assert(!bit(bb, i));
                }
                lemma_tagged_skip(kind, mask, k, 64);
            }
            break ;
        }
        let p: u64 = sq as u64;
        let next: u64 = bb ^ (1u64 << p);
        proof {
            assert(bit(bb, p));
            assert forall|i: u64| k <= i < p implies !#[trigger] bit(mask, i) by {
                assert((bb >> i) & 1 == 0);
                assert(!bit(bb, i));
            }
            lemma_tagged_skip(kind, mask, k, p as nat);
            lemma_bit_after_clear(bb, p, p);
            assert forall|i: u64| i < 64 implies #[trigger] bit(next, i) == (i >= p + 1 && bit(
                mask,
                i,
            )) by {
                lemma_bit_after_clear(bb, p, i);
                assert(bit(bb, i) == (i >= k && bit(mask, i)));
                if i < p {
                    assert((bb >> i) & 1 == 0);
                }
            }
        }
        list_push(list, (kind, p as u8));
        proof {
            let item = (kind, p as u8);
            assert(tagged(kind, mask, (p + 1) as nat) == tagged(kind, mask, p as nat).push(item));
            assert((base + tagged(kind, mask, p as nat)).push(item) =~= base + tagged(
                kind,
                mask,
                (p + 1) as nat,
            ));
            k = (p + 1) as nat;
        }
        bb = next;
    }
}

/// Sums what the listed pieces are worth to white and to black.
fn sum_list(list: &PieceList, white: u64, black: u64) -> (totals: (usize, usize))
    requires
        held(*list).len() <= 384,
    ensures
        totals.0 == total(held(*list), white, black, Side::White),
        totals.1 == total(held(*list), white, black, Side::Black),
{
    let ghost items = held(*list);
    let n = list_len(list);
    let mut w: usize = 0;
    let mut b: usize = 0;
    let mut i: usize = 0;
    proof {
        assert(items.take(0) =~= Seq::<(u8, u8)>::empty());
    }
    while i < n
        invariant
            i <= n,
            n == items.len(),
            n <= 384,
            items == held(*list),
            w == total(items.take(i as int), white, black, Side::White),
            b == total(items.take(i as int), white, black, Side::Black),
            w <= QUEEN_VALUE * i,
            b <= QUEEN_VALUE * i,
        decreases n - i,
    {
        let item = list_get(list, i);
        let value = piece_value(item.0);
        proof {
            assert(items.take(i + 1) =~= items.take(i as int).push(item));
            lemma_total_push(items.take(i as int), item, white, black, Side::White);
            lemma_total_push(items.take(i as int), item, white, black, Side::Black);
        }
        if item.1 < 64 {
            let sq: u64 = item.1 as u64;
            proof {
                assert((((black & !white) >> sq) & 1 == 1) == ((black >> sq) & 1 == 1 && (white
                    >> sq) & 1 != 1)) by (bit_vector)
                    requires
                        sq < 64,
                ;
            }
            if (white >> sq) & 1 == 1 {
                w = w + value;
            } else if (black >> sq) & 1 == 1 {
                b = b + value;
            }
        }
        i = i + 1;
    }
    proof {
        assert(items.take(n as int) =~= items);
    }
    (w, b)
}

/// Sums the material of both sides: white's total first, black's second.
pub fn evaluate(p: &Position) -> (totals: (usize, usize))
    ensures
        totals.0 == material(*p, Side::White),
        totals.1 == material(*p, Side::Black),
        totals.0 <= MATERIAL_MAX,
        totals.1 <= MATERIAL_MAX,
{
    let mut list = new_list();
    let ghost h0 = held(list);
    collect_kind(&mut list, PAWN, p.pawns);
    let ghost h1 = held(list);
    collect_kind(&mut list, KNIGHT, p.knights);
    let ghost h2 = held(list);
    collect_kind(&mut list, BISHOP, p.bishops);
    let ghost h3 = held(list);
    collect_kind(&mut list, ROOK, p.rooks);
    let ghost h4 = held(list);
    collect_kind(&mut list, QUEEN, p.queens);
    let ghost h5 = held(list);
    collect_kind(&mut list, KING, p.kings);
    proof {
        lemma_tagged_len(PAWN, p.pawns, 64);
        lemma_tagged_len(KNIGHT, p.knights, 64);
        lemma_tagged_len(BISHOP, p.bishops, 64);
        lemma_tagged_len(ROOK, p.rooks, 64);
        lemma_tagged_len(QUEEN, p.queens, 64);
        lemma_tagged_len(KING, p.kings, 64);
        lemma_listed_total(*p, h0, h1, h2, h3, h4, h5, held(list), Side::White);
        lemma_listed_total(*p, h0, h1, h2, h3, h4, h5, held(list), Side::Black);
        lemma_material_range(*p, Side::White);
        lemma_material_range(*p, Side::Black);
    }
    sum_list(&list, p.white, p.black)
}

/// A list that holds the pieces of a position kind by kind adds up to the
/// position's material.
proof fn lemma_listed_total(
    p: Position,
    h0: Seq<(u8, u8)>,
    h1: Seq<(u8, u8)>,
    h2: Seq<(u8, u8)>,
    h3: Seq<(u8, u8)>,
    h4: Seq<(u8, u8)>,
    h5: Seq<(u8, u8)>,
    h6: Seq<(u8, u8)>,
    side: Side,
)
    requires
        h0 == Seq::<(u8, u8)>::empty(),
        h1 == h0 + tagged(PAWN, p.pawns, 64),
        h2 == h1 + tagged(KNIGHT, p.knights, 64),
        h3 == h2 + tagged(BISHOP, p.bishops, 64),
        h4 == h3 + tagged(ROOK, p.rooks, 64),
        h5 == h4 + tagged(QUEEN, p.queens, 64),
        h6 == h5 + tagged(KING, p.kings, 64),
    ensures
        total(h6, p.white, p.black, side) == material(p, side),
{
    lemma_total_tagged(h0, PAWN, p.pawns, p.white, p.black, side, 64);
    lemma_total_tagged(h1, KNIGHT, p.knights, p.white, p.black, side, 64);
    lemma_total_tagged(h2, BISHOP, p.bishops, p.white, p.black, side, 64);
    lemma_total_tagged(h3, ROOK, p.rooks, p.white, p.black, side, 64);
    lemma_total_tagged(h4, QUEEN, p.queens, p.white, p.black, side, 64);
    lemma_total_tagged(h5, KING, p.kings, p.white, p.black, side, 64);
}

/// Material totals are never negative and never exceed `MATERIAL_MAX`.
pub proof fn lemma_material_range(p: Position, side: Side)
    ensures
        0 <= material(p, side) <= MATERIAL_MAX,
{
    let own = owned(p, side);
    lemma_kind_range(PAWN, p.pawns & own);
    lemma_kind_range(KNIGHT, p.knights & own);
    lemma_kind_range(BISHOP, p.bishops & own);
    lemma_kind_range(ROOK, p.rooks & own);
    lemma_kind_range(QUEEN, p.queens & own);
    lemma_kind_range(KING, p.kings & own);
}

/// The pieces of one kind are worth at most 64 times the value of the kind.
pub proof fn lemma_kind_range(kind: u8, mask: u64)
    ensures
        value_of(kind) * popcount(mask) <= value_of(kind) * 64,
{
    lemma_count_below_le(mask, 64);
    let v = value_of(kind);
    let c = popcount(mask);
    assert(v * c <= v * 64) by (nonlinear_arith)
        requires
            c <= 64,
    ;
}

/// Exchanging the colours of all pieces of a well-formed position exchanges
/// the two material totals.
pub proof fn lemma_swap_colors(p: Position)
    requires
        well_formed(p),
    ensures
        well_formed(colors_swapped(p)),
        material(colors_swapped(p), Side::White) == material(p, Side::Black),
        material(colors_swapped(p), Side::Black) == material(p, Side::White),
{
    let w = p.white;
    let b = p.black;
    assert(b & !w == b && w & !b == w && b & w == 0) by (bit_vector)
        requires
            w & b == 0,
    ;
}

} // verus!
