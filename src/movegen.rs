//! Resumable move generators: each call yields the next move of one piece
//! kind for one side, or reports that none is left.
use vstd::prelude::*;
use crate::bits::{
    is_square, lowest, lemma_add_square, lemma_inside, lemma_lowest, lemma_remove_origin,
    lemma_square_in, lemma_zero_masks,
};
use crate::board::{Board, Kind, Side, lemma_moved_wf, other};
use crate::pieces::{
    king_step, king_target, knight_step, knight_target, lemma_king_target, lemma_knight_target,
    lemma_pawn_target, pawn_step, pawn_target, target_ok,
};
use crate::rays::{lemma_slide_target, slide, slide_target};

verus! {

/// A generated move: the origin, the destination, and the position after it.
#[derive(Clone, Copy, Debug, PartialEq, Eq, Structural)]
pub struct Candidate {
    pub from: u64,
    pub to: u64,
    pub board: Board,
}

/// The cursor of one enumeration: origins already finished, and the
/// destinations already yielded for the current origin.
#[derive(Clone, Copy, Debug, PartialEq, Eq, Structural)]
pub struct MoveGen {
    pub kind: Kind,
    pub side: Side,
    pub done: u64,
    pub seen: u64,
}

/// Origins (pieces of kind `k` and side `s`) not yet finished.
pub open spec fn unfinished(b: Board, k: Kind, s: Side, done: u64) -> u64 {
    b.kind_mask(k) & b.side_mask(s) & !done
}

/// A destination with the square it captures: itself when an enemy stands there.
pub open spec fn with_capture(b: Board, s: Side, d: u64) -> (u64, u64) {
    (d, if d & b.side_mask(other(s)) != 0 { d } else { 0 })
}

/// The next destination (and captured square) of the piece of kind `k` on
/// `o`, skipping `seen`; (0, 0) when none is left. Bishops walk the diagonal
/// rays, rooks the orthogonal ones, queens all eight.
pub open spec fn target(b: Board, k: Kind, s: Side, o: u64, seen: u64) -> (u64, u64) {
    let own = b.side_mask(s);
    let enemy = b.side_mask(other(s));
    match k {
        Kind::Pawn => pawn_target(b, s, o, seen),
        Kind::Knight => with_capture(b, s, knight_target(o, own, seen, 0)),
        Kind::Bishop => with_capture(b, s, slide_target(o, own, enemy, seen, 0, 4)),
        Kind::Rook => with_capture(b, s, slide_target(o, own, enemy, seen, 4, 8)),
        Kind::Queen => with_capture(b, s, slide_target(o, own, enemy, seen, 0, 8)),
        Kind::King => with_capture(b, s, king_target(o, own, seen, 0)),
    }
}

/// One call of the generator: origins are taken lowest first; the lowest
/// unfinished origin yields its next destination, or is finished (and the
/// seen destinations forgotten) when it has none. The result is (origin,
/// destination, captured square, finished origins, seen destinations).
pub open spec fn gen_next(b: Board, k: Kind, s: Side, done: u64, seen: u64) -> Option<
    (u64, u64, u64, u64, u64),
>
    decreases b.kind_mask(k) & b.side_mask(s) & !done,
    via gen_next_decreases
{
    let rest = b.kind_mask(k) & b.side_mask(s) & !done;
    if rest == 0 {
        None
    } else {
        let o = lowest(rest);
        let (d, c) = target(b, k, s, o, seen);
        if d != 0 {
            Some((o, d, c, done, seen | d))
        } else {
            gen_next(b, k, s, done | o, 0)
        }
    }
}

#[via_fn]
proof fn gen_next_decreases(b: Board, k: Kind, s: Side, done: u64, seen: u64) {
    if b.kind_mask(k) & b.side_mask(s) & !done != 0 {
        lemma_remove_origin(b.kind_mask(k), b.side_mask(s), done);
    }
}

/// Every move that repeated calls yield from the cursor (`done`, `seen`), in order.
pub open spec fn candidates_from(b: Board, k: Kind, s: Side, done: u64, seen: u64) -> Seq<Candidate>
    decreases b.kind_mask(k) & b.side_mask(s) & !done, !seen,
    via candidates_decreases
{
    if b.wf() {
        match gen_next(b, k, s, done, seen) {
            None => Seq::empty(),
            Some((o, d, c, done2, seen2)) => seq![
                Candidate { from: o, to: d, board: b.moved(k, s, o, d, c) },
            ] + candidates_from(b, k, s, done2, seen2),
        }
    } else {
        Seq::empty()
    }
}

#[via_fn]
proof fn candidates_decreases(b: Board, k: Kind, s: Side, done: u64, seen: u64) {
    if b.wf() {
        lemma_gen_next(b, k, s, done, seen);
    }
}

/// Every move of kind `k` for side `s`, in generation order.
pub open spec fn candidates(b: Board, k: Kind, s: Side) -> Seq<Candidate> {
    candidates_from(b, k, s, 0, 0)
}

/// Every move of side `s`, kind by kind: pawns, knights, bishops, rooks,
/// queens, king.
pub open spec fn successors(b: Board, s: Side) -> Seq<Candidate> {
    candidates(b, Kind::Pawn, s) + candidates(b, Kind::Knight, s) + candidates(b, Kind::Bishop, s)
        + candidates(b, Kind::Rook, s) + candidates(b, Kind::Queen, s) + candidates(
        b,
        Kind::King,
        s,
    )
}

/// The cursor advanced: either more origins are finished, or the origins
/// are the same and one more destination is seen.
pub open spec fn advanced(
    b: Board,
    k: Kind,
    s: Side,
    done: u64,
    seen: u64,
    done2: u64,
    seen2: u64,
) -> bool {
    ||| unfinished(b, k, s, done2) < unfinished(b, k, s, done)
    ||| (done2 == done && !seen2 < !seen)
}

/// A target is a legal move that avoids the seen destinations.
pub proof fn lemma_target(b: Board, k: Kind, s: Side, o: u64, seen: u64)
    requires
        b.wf(),
        is_square(o),
    ensures
        ({
            let (d, c) = target(b, k, s, o, seen);
            target_ok(b, s, o, seen, d, c)
        }),
{
    let own = b.side_mask(s);
    let enemy = b.side_mask(other(s));
    let d = target(b, k, s, o, seen).0;
    match k {
        Kind::Pawn => lemma_pawn_target(b, s, o, seen),
        Kind::Knight => lemma_knight_target(b, s, o, seen, 0),
        Kind::King => lemma_king_target(b, s, o, seen, 0),
        Kind::Bishop => lemma_slide_target(o, own, enemy, seen, 0, 4),
        Kind::Rook => lemma_slide_target(o, own, enemy, seen, 4, 8),
        Kind::Queen => lemma_slide_target(o, own, enemy, seen, 0, 8),
    }
    if d != 0 {
        lemma_square_in(d, b.whites, b.blacks);
    }
}

/// What one call of the generator yields: a legal move from the lowest
/// unfinished origin, and an advanced cursor.
pub proof fn lemma_gen_next(b: Board, k: Kind, s: Side, done: u64, seen: u64)
    requires
        b.wf(),
    ensures
        match gen_next(b, k, s, done, seen) {
            None => true,
            Some((o, d, c, done2, seen2)) => {
                &&& b.move_ok(k, s, o, d, c)
                &&& advanced(b, k, s, done, seen, done2, seen2)
                &&& o == lowest(unfinished(b, k, s, done2))
                &&& unfinished(b, k, s, done2) != 0
                &&& d & seen2 != 0
                &&& (done2 == done ==> seen2 == seen | d && d & seen == 0)
                &&& unfinished(b, k, s, done2) & !unfinished(b, k, s, done) == 0
                &&& (done2 != done ==> lowest(unfinished(b, k, s, done)) & unfinished(
                    b,
                    k,
                    s,
                    done2,
                ) == 0)
            },
        },
    decreases unfinished(b, k, s, done),
{
    let rest = unfinished(b, k, s, done);
    if rest != 0 {
        let o = lowest(rest);
        lemma_remove_origin(b.kind_mask(k), b.side_mask(s), done);
        lemma_target(b, k, s, o, seen);
        let (d, c) = target(b, k, s, o, seen);
        if d != 0 {
            lemma_zero_masks(rest);
            lemma_add_square(seen, d);
            assert(d & (seen | d) != 0) by (bit_vector)
                requires
                    d != 0,
            ;
        } else {
            lemma_gen_next(b, k, s, done | o, 0);
            if let Some((_, _, _, done2, _)) = gen_next(b, k, s, done | o, 0) {
                let r1 = unfinished(b, k, s, done | o);
                let r2 = unfinished(b, k, s, done2);
                lemma_inside(o, r2, r1, rest);
            }
        }
    }
}

/// Every position that an enumeration yields is well formed.
pub proof fn lemma_candidates_wf(b: Board, k: Kind, s: Side, done: u64, seen: u64)
    requires
        b.wf(),
    ensures
        forall|i: int|
            0 <= i < candidates_from(b, k, s, done, seen).len() ==> (#[trigger] candidates_from(
                b,
                k,
                s,
                done,
                seen,
            )[i]).board.wf(),
    decreases unfinished(b, k, s, done), !seen,
{
    lemma_gen_next(b, k, s, done, seen);
    if let Some((o, d, c, done2, seen2)) = gen_next(b, k, s, done, seen) {
        lemma_moved_wf(b, k, s, o, d, c);
        lemma_candidates_wf(b, k, s, done2, seen2);
        let all = candidates_from(b, k, s, done, seen);
        let tail = candidates_from(b, k, s, done2, seen2);
        assert forall|i: int| 0 <= i < all.len() implies (#[trigger] all[i]).board.wf() by {
            if i > 0 {
                assert(all[i] == tail[i - 1]);
            }
        }
    }
}

/// Every move of side `s` leads to a well-formed position: the sides stay
/// disjoint and together cover exactly the squares the kinds occupy.
pub proof fn lemma_successors_wf(b: Board, s: Side)
    requires
        b.wf(),
    ensures
        forall|i: int|
            0 <= i < successors(b, s).len() ==> (#[trigger] successors(b, s)[i]).board.wf(),
{
    lemma_candidates_wf(b, Kind::Pawn, s, 0, 0);
    lemma_candidates_wf(b, Kind::Knight, s, 0, 0);
    lemma_candidates_wf(b, Kind::Bishop, s, 0, 0);
    lemma_candidates_wf(b, Kind::Rook, s, 0, 0);
    lemma_candidates_wf(b, Kind::Queen, s, 0, 0);
    lemma_candidates_wf(b, Kind::King, s, 0, 0);
    let (p, n, bi, r, q, k) = (
        candidates(b, Kind::Pawn, s),
        candidates(b, Kind::Knight, s),
        candidates(b, Kind::Bishop, s),
        candidates(b, Kind::Rook, s),
        candidates(b, Kind::Queen, s),
        candidates(b, Kind::King, s),
    );
    lemma_concat_wf(p, n);
    lemma_concat_wf(p + n, bi);
    lemma_concat_wf(p + n + bi, r);
    lemma_concat_wf(p + n + bi + r, q);
    lemma_concat_wf(p + n + bi + r + q, k);
}

proof fn lemma_concat_wf(a: Seq<Candidate>, b: Seq<Candidate>)
    requires
        forall|i: int| 0 <= i < a.len() ==> (#[trigger] a[i]).board.wf(),
        forall|i: int| 0 <= i < b.len() ==> (#[trigger] b[i]).board.wf(),
    ensures
        forall|i: int| 0 <= i < (a + b).len() ==> (#[trigger] (a + b)[i]).board.wf(),
{
    assert forall|i: int| 0 <= i < (a + b).len() implies (#[trigger] (a + b)[i]).board.wf() by {
        if i >= a.len() {
            assert((a + b)[i] == b[i - a.len()]);
        }
    }
}

/// Every move still to come from the cursor starts from an unfinished
/// origin, and those from the current origin avoid the seen destinations.
proof fn lemma_candidates_origins(b: Board, k: Kind, s: Side, done: u64, seen: u64)
    requires
        b.wf(),
    ensures
        forall|i: int|
            0 <= i < candidates_from(b, k, s, done, seen).len() ==> {
                let x = #[trigger] candidates_from(b, k, s, done, seen)[i];
                &&& x.from & unfinished(b, k, s, done) != 0
                &&& (x.from == lowest(unfinished(b, k, s, done)) ==> x.to & seen == 0)
            },
    decreases unfinished(b, k, s, done), !seen,
{
    lemma_gen_next(b, k, s, done, seen);
    if let Some((o, d, c, done2, seen2)) = gen_next(b, k, s, done, seen) {
        lemma_candidates_origins(b, k, s, done2, seen2);
        let all = candidates_from(b, k, s, done, seen);
        let tail = candidates_from(b, k, s, done2, seen2);
        let r = unfinished(b, k, s, done);
        let r2 = unfinished(b, k, s, done2);
        lemma_lowest(r2);
        lemma_inside(o, r2, r, 0);
        assert forall|i: int| 0 <= i < all.len() implies {
            let x = #[trigger] all[i];
            &&& x.from & r != 0
            &&& (x.from == lowest(r) ==> x.to & seen == 0)
        } by {
            if i > 0 {
                let y = tail[i - 1];
                assert(all[i] == y);
                lemma_inside(y.from, r2, r, 0);
                lemma_inside(y.to, seen, seen, d);
            }
        }
    }
}

/// An enumeration never yields the same (origin, destination) pair twice.
pub proof fn lemma_candidates_distinct(b: Board, k: Kind, s: Side, done: u64, seen: u64)
    requires
        b.wf(),
    ensures
        ({
            let all = candidates_from(b, k, s, done, seen);
            forall|i: int, j: int|
                0 <= i < j < all.len() ==> (#[trigger] all[i]).from != (#[trigger] all[j]).from
                    || all[i].to != all[j].to
        }),
    decreases unfinished(b, k, s, done), !seen,
{
    lemma_gen_next(b, k, s, done, seen);
    if let Some((o, d, c, done2, seen2)) = gen_next(b, k, s, done, seen) {
        lemma_candidates_distinct(b, k, s, done2, seen2);
        lemma_candidates_origins(b, k, s, done2, seen2);
        let all = candidates_from(b, k, s, done, seen);
        let tail = candidates_from(b, k, s, done2, seen2);
        assert forall|i: int, j: int| 0 <= i < j < all.len() implies (#[trigger] all[i]).from
            != (#[trigger] all[j]).from || all[i].to != all[j].to by {
            assert(all[j] == tail[j - 1]);
            if i > 0 {
                assert(all[i] == tail[i - 1]);
            }
        }
    }
}

/// The generator's law: each call that yields a move strictly advances the
/// cursor (`advanced`, a well-founded order, so the enumeration ends), and
/// a full enumeration yields no (origin, destination) pair twice.
pub proof fn lemma_generator_enumerates_once(b: Board, k: Kind, s: Side, done: u64, seen: u64)
    requires
        b.wf(),
    ensures
        gen_next(b, k, s, done, seen) matches Some((o, d, c, done2, seen2)) ==> advanced(
            b,
            k,
            s,
            done,
            seen,
            done2,
            seen2,
        ),
        ({
            let all = candidates(b, k, s);
            forall|i: int, j: int|
                0 <= i < j < all.len() ==> (#[trigger] all[i]).from != (#[trigger] all[j]).from
                    || all[i].to != all[j].to
        }),
{
    lemma_gen_next(b, k, s, done, seen);
    lemma_candidates_distinct(b, k, s, 0, 0);
}

impl MoveGen {
    /// A fresh enumeration of the moves of kind `k` for side `s`.
    pub fn new(k: Kind, s: Side) -> (r: MoveGen)
        ensures
            r == (MoveGen { kind: k, side: s, done: 0, seen: 0 }),
    {
        MoveGen { kind: k, side: s, done: 0, seen: 0 }
    }

    /// A fresh enumeration of the moves of the single piece on `origin`
    /// among the pieces `pieces` (every other piece counts as finished).
    pub fn for_origin(k: Kind, s: Side, pieces: u64, origin: u64) -> (r: MoveGen)
        ensures
            r == (MoveGen { kind: k, side: s, done: pieces & !origin, seen: 0 }),
    {
        MoveGen { kind: k, side: s, done: pieces & !origin, seen: 0 }
    }

    /// Yields the next move, or `None` when the enumeration is over.
    pub fn next(&mut self, b: &Board) -> (r: Option<Candidate>)
        requires
            b.wf(),
        ensures
            final(self).kind == old(self).kind,
            final(self).side == old(self).side,
            match gen_next(*b, old(self).kind, old(self).side, old(self).done, old(self).seen) {
                None => r.is_none(),
                Some((o, d, c, done2, seen2)) => {
                    &&& r == Some(
                        Candidate {
                            from: o,
                            to: d,
                            board: b.moved(old(self).kind, old(self).side, o, d, c),
                        },
                    )
                    &&& final(self).done == done2
                    &&& final(self).seen == seen2
                    &&& b.moved(old(self).kind, old(self).side, o, d, c).wf()
                },
            },
    {
        let k = self.kind;
        let s = self.side;
        let pieces = b.kind_mask_of(k) & b.side_mask_of(s);
        let ghost start = *self;
        loop
            invariant
                b.wf(),
                self.kind == k,
                self.side == s,
                start == *old(self),
                start.kind == k,
                start.side == s,
                pieces == b.kind_mask(k) & b.side_mask(s),
                gen_next(*b, k, s, self.done, self.seen) == gen_next(
                    *b,
                    k,
                    s,
                    start.done,
                    start.seen,
                ),
            decreases pieces & !self.done,
        {
            let rest = pieces & !self.done;
            if rest == 0 {
                return None;
            }
            let o = rest ^ (rest & (rest - 1));
            proof {
                lemma_remove_origin(b.kind_mask(k), b.side_mask(s), self.done);
                lemma_gen_next(*b, k, s, self.done, self.seen);
            }
            let (d, c) = target_of(b, k, s, o, self.seen);
            if d != 0 {
                self.seen = self.seen | d;
                let nb = b.apply_move(k, s, o, d, c);
                return Some(Candidate { from: o, to: d, board: nb });
            }
            self.done = self.done | o;
            self.seen = 0;
        }
    }
}

/// The next destination (and captured square) of the piece of kind `k` on `o`.
pub fn target_of(b: &Board, k: Kind, s: Side, o: u64, seen: u64) -> (r: (u64, u64))
    ensures
        r == target(*b, k, s, o, seen),
{
    let own = b.side_mask_of(s);
    let enemy = match s {
        Side::White => b.blacks,
        Side::Black => b.whites,
    };
    let d = match k {
        Kind::Pawn => {
            return pawn_step(b, s, o, seen);
        },
        Kind::Knight => knight_step(o, own, seen),
        Kind::Bishop => slide(o, own, enemy, seen, 0, 4),
        Kind::Rook => slide(o, own, enemy, seen, 4, 8),
        Kind::Queen => slide(o, own, enemy, seen, 0, 8),
        Kind::King => king_step(o, own, seen),
    };
    if d & enemy != 0 {
        (d, d)
    } else {
        (d, 0)
    }
}

} // verus!
