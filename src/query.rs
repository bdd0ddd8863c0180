//! Queries for a player's move: the legal destinations of one piece, and
//! committing a chosen move.
use vstd::prelude::*;
use crate::bits::{is_square, lemma_square_in};
use crate::board::{Board, Kind, Side, other};
use crate::movegen::{
    Candidate, MoveGen, candidates_from, gen_next, lemma_gen_next, unfinished,
};

verus! {

/// The kind of the piece on square `sq`: the first of pawn, knight, bishop,
/// rook, queen whose mask holds it, else king.
pub open spec fn kind_at(b: Board, sq: u64) -> Kind {
    if b.pawns & sq != 0 {
        Kind::Pawn
    } else if b.knights & sq != 0 {
        Kind::Knight
    } else if b.bishops & sq != 0 {
        Kind::Bishop
    } else if b.rooks & sq != 0 {
        Kind::Rook
    } else if b.queens & sq != 0 {
        Kind::Queen
    } else {
        Kind::King
    }
}

/// The side of the piece on square `sq`.
pub open spec fn side_at(b: Board, sq: u64) -> Side {
    if b.whites & sq != 0 {
        Side::White
    } else {
        Side::Black
    }
}

/// The union of the destinations of `s`.
pub open spec fn destinations(s: Seq<Candidate>) -> u64
    decreases s.len(),
{
    if s.len() == 0 {
        0
    } else {
        destinations(s.drop_last()) | s.last().to
    }
}

/// Every move of the single piece on `origin`, in generation order.
pub open spec fn origin_moves(b: Board, origin: u64) -> Seq<Candidate> {
    let k = kind_at(b, origin);
    let s = side_at(b, origin);
    candidates_from(b, k, s, b.kind_mask(k) & b.side_mask(s) & !origin, 0)
}

/// The square on file `file` (1 for the a-file up to 8 for the h-file) and
/// rank `rank` (1 to 8); `None` off the board.
pub fn square_of(file: u32, rank: u32) -> (r: Option<u64>)
    ensures
        1 <= file <= 8 && 1 <= rank <= 8 <==> r is Some,
        r matches Some(m) ==> m == 1u64 << ((8 * (rank - 1) + 8 - file) as u64),
{
    if 1 <= file && file <= 8 && 1 <= rank && rank <= 8 {
        Some(1u64 << ((8 * (rank - 1) + 8 - file) as u64))
    } else {
        None
    }
}

pub fn kind_on(b: &Board, sq: u64) -> (r: Kind)
    ensures
        r == kind_at(*b, sq),
{
    if b.pawns & sq != 0 {
        Kind::Pawn
    } else if b.knights & sq != 0 {
        Kind::Knight
    } else if b.bishops & sq != 0 {
        Kind::Bishop
    } else if b.rooks & sq != 0 {
        Kind::Rook
    } else if b.queens & sq != 0 {
        Kind::Queen
    } else {
        Kind::King
    }
}

/// An occupied square holds a piece of the kind and side that `kind_at` and
/// `side_at` name.
proof fn lemma_piece_at(b: Board, sq: u64)
    requires
        b.wf(),
        is_square(sq),
        sq & b.occupied() != 0,
    ensures
        sq & b.kind_mask(kind_at(b, sq)) != 0,
        sq & b.side_mask(side_at(b, sq)) != 0,
{
    lemma_square_in(sq, b.whites, b.blacks);
    lemma_square_in(sq, b.kings, b.queens);
    lemma_square_in(sq, b.kings | b.queens, b.rooks);
    lemma_square_in(sq, b.kings | b.queens | b.rooks, b.bishops);
    lemma_square_in(sq, b.kings | b.queens | b.rooks | b.bishops, b.knights);
    lemma_square_in(sq, b.kings | b.queens | b.rooks | b.bishops | b.knights, b.pawns);
    lemma_square_in(sq, b.pawns, 0);
    lemma_square_in(sq, b.knights, 0);
    lemma_square_in(sq, b.bishops, 0);
    lemma_square_in(sq, b.rooks, 0);
    lemma_square_in(sq, b.queens, 0);
}

/// The legal destinations of the piece on `origin`: the union of the
/// destinations its generator yields until it is exhausted; 0 when `origin`
/// is not a single occupied square.
pub fn possible_moves(b: &Board, origin: u64) -> (r: u64)
    requires
        b.wf(),
    ensures
        r == if is_square(origin) && origin & b.occupied() != 0 {
            destinations(origin_moves(*b, origin))
        } else {
            0
        },
{
    if origin == 0 || origin & (origin - 1) != 0 || origin & (b.whites | b.blacks) == 0 {
        return 0;
    }
    let k = kind_on(b, origin);
    let s = if b.whites & origin != 0 {
        Side::White
    } else {
        Side::Black
    };
    let pieces = b.kind_mask_of(k) & b.side_mask_of(s);
    let mut g = MoveGen::for_origin(k, s, pieces, origin);
    let mut moves: u64 = 0;
    let ghost mut taken: Seq<Candidate> = seq![];
    loop
        invariant
            b.wf(),
            g.kind == k,
            g.side == s,
            is_square(origin),
            origin & b.occupied() != 0,
            taken + candidates_from(*b, k, s, g.done, g.seen) == origin_moves(*b, origin),
            moves == destinations(taken),
        decreases unfinished(*b, k, s, g.done), !g.seen,
    {
        let ghost before = g;
        proof {
            lemma_gen_next(*b, k, s, g.done, g.seen);
        }
        match g.next(b) {
            None => {
                assert(candidates_from(*b, k, s, before.done, before.seen) =~= seq![]);
                assert(taken =~= origin_moves(*b, origin));
                return moves;
            },
            Some(c) => {
                proof {
                    let rest = candidates_from(*b, k, s, g.done, g.seen);
                    assert(candidates_from(*b, k, s, before.done, before.seen) == seq![c] + rest);
                    assert(taken + (seq![c] + rest) =~= taken.push(c) + rest);
                    assert(taken.push(c).drop_last() =~= taken);
                    taken = taken.push(c);
                }
                moves = moves | c.to;
            },
        }
    }
}

/// Commits the move of the piece on `from` to `to`, removing the enemy
/// piece that stands on `to`, if any.
pub fn move_piece(b: &Board, from: u64, to: u64) -> (r: Board)
    requires
        b.wf(),
        is_square(from),
        from & b.occupied() != 0,
        is_square(to),
        to & b.side_mask(side_at(*b, from)) == 0,
    ensures
        r == b.moved(
            kind_at(*b, from),
            side_at(*b, from),
            from,
            to,
            if to & b.side_mask(other(side_at(*b, from))) != 0 {
                to
            } else {
                0
            },
        ),
        r.wf(),
{
    let k = kind_on(b, from);
    let (s, enemy) = if b.whites & from != 0 {
        (Side::White, b.blacks)
    } else {
        (Side::Black, b.whites)
    };
    let captured = if to & enemy != 0 {
        to
    } else {
        0
    };
    proof {
        lemma_piece_at(*b, from);
        lemma_square_in(to, b.whites, b.blacks);
    }
    b.apply_move(k, s, from, to, captured)
}

} // verus!
