//! Fixed-depth search: the engine (Black) picks the move whose value is
//! highest, where White is assumed to answer with the reply that scores
//! lowest.
use vstd::prelude::*;
use crate::board::{Board, Kind, Side};
use crate::movegen::{
    Candidate, MoveGen, advanced, candidates, candidates_from, gen_next, lemma_gen_next,
    successors, unfinished,
};

verus! {

/// The evaluator's score as stored in a position.
pub open spec fn eval_of(b: Board) -> i16 {
    b.score() as i16
}

/// The position with its score recorded.
pub open spec fn scored(b: Board) -> Board {
    Board { eval: eval_of(b), ..b }
}

/// Keeps the lower of the best so far and `c`; ties keep the earlier one.
pub open spec fn keep_lower(best: Option<Board>, c: Board) -> Option<Board> {
    match best {
        None => Some(c),
        Some(p) => if c.eval < p.eval {
            Some(c)
        } else {
            best
        },
    }
}

/// Keeps the higher of the best so far and `c`; ties take the later one.
pub open spec fn keep_higher(best: Option<Board>, c: Board) -> Option<Board> {
    match best {
        None => Some(c),
        Some(p) => if c.eval >= p.eval {
            Some(c)
        } else {
            best
        },
    }
}

/// Scores each candidate with the evaluator and keeps the lowest, starting
/// from `acc`.
pub open spec fn pick_low(acc: Option<Board>, s: Seq<Candidate>) -> Option<Board>
    decreases s.len(),
{
    if s.len() == 0 {
        acc
    } else {
        keep_lower(pick_low(acc, s.drop_last()), scored(s.last().board))
    }
}

/// White's reply that scores lowest (the first such one), scored.
pub open spec fn best_response(b: Board) -> Option<Board> {
    pick_low(None, successors(b, Side::White))
}

/// The value of Black's candidate `c` searched `depth` more plies: at depth
/// 0 its score; else the value of Black's best move, `depth - 1` deep, after
/// White's lowest reply (the reply's score when Black has no move, and `c`'s
/// own score when White has none).
pub open spec fn move_value(c: Board, depth: nat) -> i16
    decreases depth, 0nat, 0nat,
{
    if depth == 0 {
        eval_of(c)
    } else {
        match best_response(c) {
            None => eval_of(c),
            Some(r) => match best_move(r, (depth - 1) as nat) {
                None => r.eval,
                Some(m) => m.eval,
            },
        }
    }
}

/// Values each candidate `depth` deep and keeps the highest, starting from `acc`.
pub open spec fn pick_high(acc: Option<Board>, s: Seq<Candidate>, depth: nat) -> Option<Board>
    decreases depth, 1nat, s.len(),
{
    if s.len() == 0 {
        acc
    } else {
        let c = s.last().board;
        keep_higher(pick_high(acc, s.drop_last(), depth), Board { eval: move_value(c, depth), ..c })
    }
}

/// Black's move of highest value (the last such one), with its value recorded.
pub open spec fn best_move(b: Board, depth: nat) -> Option<Board>
    decreases depth, 2nat, 0nat,
{
    pick_high(None, successors(b, Side::Black), depth)
}

pub proof fn lemma_pick_low_concat(acc: Option<Board>, s1: Seq<Candidate>, s2: Seq<Candidate>)
    ensures
        pick_low(pick_low(acc, s1), s2) == pick_low(acc, s1 + s2),
    decreases s2.len(),
{
    if s2.len() > 0 {
        assert((s1 + s2).drop_last() =~= s1 + s2.drop_last());
        assert((s1 + s2).last() == s2.last());
        lemma_pick_low_concat(acc, s1, s2.drop_last());
    } else {
        assert(s1 + s2 =~= s1);
    }
}

pub proof fn lemma_pick_high_concat(
    acc: Option<Board>,
    s1: Seq<Candidate>,
    s2: Seq<Candidate>,
    depth: nat,
)
    ensures
        pick_high(pick_high(acc, s1, depth), s2, depth) == pick_high(acc, s1 + s2, depth),
    decreases s2.len(),
{
    if s2.len() > 0 {
        assert((s1 + s2).drop_last() =~= s1 + s2.drop_last());
        assert((s1 + s2).last() == s2.last());
        lemma_pick_high_concat(acc, s1, s2.drop_last(), depth);
    } else {
        assert(s1 + s2 =~= s1);
    }
}

/// The kept reply scores at most as much as every candidate, and is one of
/// them, scored.
pub proof fn lemma_pick_low_is_minimum(s: Seq<Candidate>)
    ensures
        pick_low(None, s) is None <==> s.len() == 0,
        pick_low(None, s) matches Some(x) ==> {
            &&& forall|j: int| 0 <= j < s.len() ==> x.eval <= eval_of(#[trigger] s[j].board)
            &&& exists|i: int| 0 <= i < s.len() && x == scored(#[trigger] s[i].board)
        },
    decreases s.len(),
{
    if s.len() > 0 {
        let t = s.drop_last();
        lemma_pick_low_is_minimum(t);
        let x = pick_low(None, s).unwrap();
        assert forall|j: int| 0 <= j < s.len() implies x.eval <= eval_of(#[trigger] s[j].board) by {
            if j < s.len() - 1 {
                assert(s[j] == t[j]);
            }
        }
        if x == scored(s.last().board) {
            assert(x == scored(s[s.len() - 1].board));
        } else {
            let i = choose|i: int|
                0 <= i < t.len() && pick_low(None, t) == Some(scored(#[trigger] t[i].board));
            assert(x == scored(s[i].board));
        }
    }
}

/// The kept move is valued at least as high as every candidate, and is one
/// of them with its value recorded.
pub proof fn lemma_pick_high_is_maximum(s: Seq<Candidate>, depth: nat)
    ensures
        pick_high(None, s, depth) is None <==> s.len() == 0,
        pick_high(None, s, depth) matches Some(x) ==> {
            &&& forall|j: int|
                0 <= j < s.len() ==> x.eval >= move_value(#[trigger] s[j].board, depth)
            &&& exists|i: int|
                0 <= i < s.len() && x == Board {
                    eval: move_value(s[i].board, depth),
                    ..#[trigger] s[i].board
                }
        },
    decreases s.len(),
{
    if s.len() > 0 {
        let t = s.drop_last();
        lemma_pick_high_is_maximum(t, depth);
        let x = pick_high(None, s, depth).unwrap();
        assert forall|j: int| 0 <= j < s.len() implies x.eval >= move_value(
            #[trigger] s[j].board,
            depth,
        ) by {
            if j < s.len() - 1 {
                assert(s[j] == t[j]);
            }
        }
        let last = s.last().board;
        if x == (Board { eval: move_value(last, depth), ..last }) {
            assert(x == Board { eval: move_value(s[s.len() - 1].board, depth), ..s[s.len() - 1].board });
        } else {
            let i = choose|i: int|
                0 <= i < t.len() && pick_high(None, t, depth) == Some(
                    Board { eval: move_value(t[i].board, depth), ..#[trigger] t[i].board },
                );
            assert(s[i] == t[i]);
        }
    }
}

/// White's chosen reply scores no more than any other reply White has.
pub proof fn lemma_best_response_is_minimum(b: Board)
    ensures
        best_response(b) matches Some(x) ==> forall|j: int|
            0 <= j < successors(b, Side::White).len() ==> x.eval <= eval_of(
                #[trigger] successors(b, Side::White)[j].board,
            ),
{
    lemma_pick_low_is_minimum(successors(b, Side::White));
}

/// At depth 0, the engine's chosen move scores no less than any other move
/// the engine has.
pub proof fn lemma_best_move_is_maximum(b: Board)
    ensures
        best_move(b, 0) matches Some(x) ==> forall|j: int|
            0 <= j < successors(b, Side::Black).len() ==> x.eval >= eval_of(
                #[trigger] successors(b, Side::Black)[j].board,
            ),
{
    let s = successors(b, Side::Black);
    lemma_pick_high_is_maximum(s, 0);
    assert forall|j: int| 0 <= j < s.len() implies move_value(#[trigger] s[j].board, 0) == eval_of(
        s[j].board,
    ) by {}
}

/// Scores `new_board` and keeps it when it scores lower than the best so far.
pub fn compare_boards_negative(best: &mut Option<Board>, new_board: Board)
    ensures
        *final(best) == keep_lower(*old(best), scored(new_board)),
{
    let mut nb = new_board;
    let eval = nb.evaluate_position();
    match *best {
        None => *best = Some(nb),
        Some(p) => {
            if eval < p.eval {
                *best = Some(nb);
            }
        },
    }
}

/// Folds White's moves of kind `k` into the lowest-scoring reply so far.
fn scan_low(b: &Board, k: Kind, best: &mut Option<Board>)
    requires
        b.wf(),
        *old(best) matches Some(x) ==> x.wf(),
    ensures
        *final(best) == pick_low(*old(best), candidates(*b, k, Side::White)),
        *final(best) matches Some(x) ==> x.wf(),
{
    let mut g = MoveGen::new(k, Side::White);
    let ghost start = *best;
    let ghost mut taken: Seq<Candidate> = seq![];
    loop
        invariant
            b.wf(),
            g.kind == k,
            g.side == Side::White,
            taken + candidates_from(*b, k, Side::White, g.done, g.seen) == candidates(
                *b,
                k,
                Side::White,
            ),
            start == *old(best),
            *best == pick_low(start, taken),
            *best matches Some(x) ==> x.wf(),
        decreases unfinished(*b, k, Side::White, g.done), !g.seen,
    {
        let ghost before = g;
        proof {
            lemma_gen_next(*b, k, Side::White, g.done, g.seen);
        }
        match g.next(b) {
            None => {
                assert(candidates_from(*b, k, Side::White, before.done, before.seen) =~= seq![]);
                assert(taken =~= candidates(*b, k, Side::White));
                return;
            },
            Some(c) => {
                proof {
                    let rest = candidates_from(*b, k, Side::White, g.done, g.seen);
                    assert(candidates_from(*b, k, Side::White, before.done, before.seen) == seq![
                        c,
                    ] + rest);
                    assert(taken + (seq![c] + rest) =~= taken.push(c) + rest);
                    assert(taken.push(c).drop_last() =~= taken);
                    taken = taken.push(c);
                }
                compare_boards_negative(best, c.board);
            },
        }
    }
}

/// White's reply that scores lowest for the engine, scored; `None` when
/// White has no move.
pub fn find_best_response(b: &Board) -> (r: Option<Board>)
    requires
        b.wf(),
    ensures
        r == best_response(*b),
        r is None <==> successors(*b, Side::White).len() == 0,
        r matches Some(x) ==> x.wf(),
{
    let mut best: Option<Board> = None;
    scan_low(b, Kind::Pawn, &mut best);
    scan_low(b, Kind::Knight, &mut best);
    scan_low(b, Kind::Bishop, &mut best);
    scan_low(b, Kind::Rook, &mut best);
    scan_low(b, Kind::Queen, &mut best);
    scan_low(b, Kind::King, &mut best);
    proof {
        let w = Side::White;
        let (p, n, bi, r, q, k) = (
            candidates(*b, Kind::Pawn, w),
            candidates(*b, Kind::Knight, w),
            candidates(*b, Kind::Bishop, w),
            candidates(*b, Kind::Rook, w),
            candidates(*b, Kind::Queen, w),
            candidates(*b, Kind::King, w),
        );
        lemma_pick_low_concat(None, p, n);
        lemma_pick_low_concat(None, p + n, bi);
        lemma_pick_low_concat(None, p + n + bi, r);
        lemma_pick_low_concat(None, p + n + bi + r, q);
        lemma_pick_low_concat(None, p + n + bi + r + q, k);
        lemma_pick_low_is_minimum(successors(*b, w));
    }
    best
}

/// Values `new_board` `depth` plies deep (see `move_value`), records the
/// value in it, and keeps it when the value is at least the best so far.
pub fn compare_boards(best: &mut Option<Board>, new_board: Board, depth: u32)
    requires
        new_board.wf(),
        *old(best) matches Some(x) ==> x.wf(),
    ensures
        *final(best) == keep_higher(
            *old(best),
            Board { eval: move_value(new_board, depth as nat), ..new_board },
        ),
        *final(best) matches Some(x) ==> x.wf(),
    decreases depth, 0nat,
{
    let mut nb = new_board;
    let eval: i16;
    if depth != 0 {
        match find_best_response(&nb) {
            None => {
                eval = nb.evaluate_position();
            },
            Some(r) => match find_best_move(&r, depth - 1) {
                None => {
                    eval = r.eval;
                },
                Some(m) => {
                    eval = m.eval;
                },
            },
        }
        nb.eval = eval;
    } else {
        eval = nb.evaluate_position();
    }
    match *best {
        None => *best = Some(nb),
        Some(p) => {
            if eval >= p.eval {
                *best = Some(nb);
            }
        },
    }
}

/// Folds Black's moves of kind `k` into the highest-valued move so far.
fn scan_high(b: &Board, k: Kind, depth: u32, best: &mut Option<Board>)
    requires
        b.wf(),
        *old(best) matches Some(x) ==> x.wf(),
    ensures
        *final(best) == pick_high(*old(best), candidates(*b, k, Side::Black), depth as nat),
        *final(best) matches Some(x) ==> x.wf(),
    decreases depth, 1nat,
{
    let mut g = MoveGen::new(k, Side::Black);
    let ghost start = *best;
    let ghost mut taken: Seq<Candidate> = seq![];
    loop
        invariant
            b.wf(),
            g.kind == k,
            g.side == Side::Black,
            taken + candidates_from(*b, k, Side::Black, g.done, g.seen) == candidates(
                *b,
                k,
                Side::Black,
            ),
            start == *old(best),
            *best == pick_high(start, taken, depth as nat),
            *best matches Some(x) ==> x.wf(),
        decreases unfinished(*b, k, Side::Black, g.done), !g.seen,
    {
        let ghost before = g;
        proof {
            lemma_gen_next(*b, k, Side::Black, g.done, g.seen);
        }
        match g.next(b) {
            None => {
                assert(candidates_from(*b, k, Side::Black, before.done, before.seen) =~= seq![]);
                assert(taken =~= candidates(*b, k, Side::Black));
                return;
            },
            Some(c) => {
                proof {
                    let rest = candidates_from(*b, k, Side::Black, g.done, g.seen);
                    assert(candidates_from(*b, k, Side::Black, before.done, before.seen) == seq![
                        c,
                    ] + rest);
                    assert(taken + (seq![c] + rest) =~= taken.push(c) + rest);
                    assert(taken.push(c).drop_last() =~= taken);
                    taken = taken.push(c);
                }
                compare_boards(best, c.board, depth);
            },
        }
    }
}

/// The engine's move of highest value `depth` plies deep, with that value
/// recorded; `None` when the engine has no move.
pub fn find_best_move(b: &Board, depth: u32) -> (r: Option<Board>)
    requires
        b.wf(),
    ensures
        r == best_move(*b, depth as nat),
        r is None <==> successors(*b, Side::Black).len() == 0,
        r matches Some(x) ==> x.wf(),
    decreases depth, 2nat,
{
    let mut best: Option<Board> = None;
    scan_high(b, Kind::Pawn, depth, &mut best);
    scan_high(b, Kind::Knight, depth, &mut best);
    scan_high(b, Kind::Bishop, depth, &mut best);
    scan_high(b, Kind::Rook, depth, &mut best);
    scan_high(b, Kind::Queen, depth, &mut best);
    scan_high(b, Kind::King, depth, &mut best);
    proof {
        let bl = Side::Black;
        let d = depth as nat;
        let (p, n, bi, r, q, k) = (
            candidates(*b, Kind::Pawn, bl),
            candidates(*b, Kind::Knight, bl),
            candidates(*b, Kind::Bishop, bl),
            candidates(*b, Kind::Rook, bl),
            candidates(*b, Kind::Queen, bl),
            candidates(*b, Kind::King, bl),
        );
        lemma_pick_high_concat(None, p, n, d);
        lemma_pick_high_concat(None, p + n, bi, d);
        lemma_pick_high_concat(None, p + n + bi, r, d);
        lemma_pick_high_concat(None, p + n + bi + r, q, d);
        lemma_pick_high_concat(None, p + n + bi + r + q, k, d);
        lemma_pick_high_is_maximum(successors(*b, bl), d);
    }
    best
}

} // verus!
