use bitchess::bits::count_squares;
use bitchess::board::{Board, Kind, Side, NO_EN_PASSANT};
use bitchess::movegen::{Candidate, MoveGen};
use bitchess::pieces::pawn_step;
use bitchess::query::{move_piece, possible_moves, square_of};
use bitchess::rays::{cross, Direction};
use bitchess::search::{find_best_move, find_best_response};

/// Square mask from a name such as "e4".
fn sq(name: &str) -> u64 {
    let b = name.as_bytes();
    let file = (b[0] - b'a') as u64;
    let rank = (b[1] - b'1') as u64;
    1u64 << (8 * rank + (7 - file))
}

fn squares(names: &[&str]) -> u64 {
    names.iter().fold(0, |m, n| m | sq(n))
}

#[allow(clippy::too_many_arguments)]
fn board(
    kings: u64,
    queens: u64,
    rooks: u64,
    bishops: u64,
    knights: u64,
    pawns: u64,
    whites: u64,
    blacks: u64,
) -> Board {
    Board {
        kings,
        queens,
        rooks,
        bishops,
        knights,
        pawns,
        whites,
        blacks,
        castling: 0,
        fifty_rule: 0,
        en_passant: NO_EN_PASSANT,
        eval: 0,
    }
}

fn well_formed(b: &Board) -> bool {
    let kinds = [b.kings, b.queens, b.rooks, b.bishops, b.knights, b.pawns];
    for i in 0..6 {
        for j in (i + 1)..6 {
            if kinds[i] & kinds[j] != 0 {
                return false;
            }
        }
    }
    b.whites & b.blacks == 0 && b.whites | b.blacks == kinds.iter().fold(0, |m, k| m | k)
}

fn all_moves(b: &Board, side: Side) -> Vec<Candidate> {
    let mut out = Vec::new();
    for k in [Kind::Pawn, Kind::Knight, Kind::Bishop, Kind::Rook, Kind::Queen, Kind::King] {
        let mut g = MoveGen::new(k, side);
        while let Some(c) = g.next(b) {
            out.push(c);
        }
    }
    out
}

#[test]
fn initial_layout() {
    let b = Board::new();
    assert_eq!(b.kings, squares(&["e1", "e8"]));
    assert_eq!(b.queens, squares(&["d1", "d8"]));
    assert_eq!(b.rooks, squares(&["a1", "h1", "a8", "h8"]));
    assert_eq!(count_squares(b.whites), 16);
    assert_eq!(count_squares(b.blacks), 16);
    assert_eq!(count_squares(b.pawns), 16);
    assert!(well_formed(&b));
}

#[test]
fn count_squares_counts_bits() {
    assert_eq!(count_squares(0), 0);
    assert_eq!(count_squares(u64::MAX), 64);
    assert_eq!(count_squares(0x8000_0000_0000_0001), 2);
    assert_eq!(count_squares(0x1818_0000_00), 4);
}

#[test]
fn initial_position_scores_zero() {
    let mut b = Board::new();
    assert_eq!(b.evaluate_position(), 0);
    assert_eq!(b.eval, 0);
}

#[test]
fn material_weights() {
    // Black: king, queen. White: king, rook.
    let mut b = board(
        squares(&["e1", "e8"]),
        sq("d8"),
        sq("a1"),
        0,
        0,
        0,
        squares(&["e1", "a1"]),
        squares(&["e8", "d8"]),
    );
    assert_eq!(b.evaluate_position(), 4);
    assert_eq!(b.eval, 4);
}

#[test]
fn center_pawns_score_extra() {
    let mut b = board(
        squares(&["h1", "h8"]),
        0,
        0,
        0,
        0,
        sq("e5"),
        sq("h1"),
        squares(&["h8", "e5"]),
    );
    assert_eq!(b.evaluate_position(), 2);
    let mut w = board(
        squares(&["h1", "h8"]),
        0,
        0,
        0,
        0,
        sq("d4"),
        squares(&["h1", "d4"]),
        sq("h8"),
    );
    assert_eq!(w.evaluate_position(), -2);
}

#[test]
fn swapping_sides_negates_material() {
    let mut b = board(
        squares(&["e1", "e8"]),
        sq("d8"),
        sq("a1"),
        sq("c8"),
        0,
        sq("a2"),
        squares(&["e1", "a1", "a2"]),
        squares(&["e8", "d8", "c8"]),
    );
    let mut swapped = Board { whites: b.blacks, blacks: b.whites, ..b };
    let s = b.evaluate_position();
    assert_eq!(s, 9 + 3 - 5 - 1);
    assert_eq!(swapped.evaluate_position(), -s);
}

#[test]
fn take_clears_the_piece() {
    let mut b = Board::new();
    let t = sq("d8");
    b.take(t);
    assert_eq!(b.queens, sq("d1"));
    assert_eq!(b.blacks & t, 0);
    assert_eq!(b.whites, 0xffff);
    assert!(well_formed(&b));
}

#[test]
fn apply_move_with_capture() {
    let b = Board::new();
    let r = b.apply_move(Kind::Knight, Side::White, sq("g1"), sq("g7"), sq("g7"));
    assert_eq!(r.pawns & sq("g7"), 0);
    assert_ne!(r.knights & sq("g7"), 0);
    assert_ne!(r.whites & sq("g7"), 0);
    assert_eq!(r.blacks & sq("g7"), 0);
    assert_eq!(count_squares(r.whites | r.blacks), 31);
    assert!(well_formed(&r));
}

#[test]
fn white_has_twenty_opening_moves() {
    let b = Board::new();
    let moves = all_moves(&b, Side::White);
    assert_eq!(moves.len(), 20);
    for c in &moves {
        assert!(well_formed(&c.board));
        assert_eq!(c.board.en_passant, NO_EN_PASSANT);
    }
    let knights: Vec<u64> = moves
        .iter()
        .filter(|c| b.knights & c.from != 0)
        .map(|c| c.to)
        .collect();
    assert_eq!(knights.iter().fold(0, |m, t| m | t), squares(&["a3", "c3", "f3", "h3"]));
}

#[test]
fn generator_advances_and_never_repeats() {
    let mut b = Board::new();
    b.take(sq("d7"));
    b.take(sq("e2"));
    for side in [Side::White, Side::Black] {
        for k in [Kind::Pawn, Kind::Knight, Kind::Bishop, Kind::Rook, Kind::Queen, Kind::King] {
            let mut g = MoveGen::new(k, side);
            let mut pairs: Vec<(u64, u64)> = Vec::new();
            loop {
                let (done, seen) = (g.done, g.seen);
                match g.next(&b) {
                    None => break,
                    Some(c) => {
                        let more_done = g.done & done == done && g.done != done;
                        let more_seen =
                            g.done == done && g.seen & seen == seen && g.seen != seen;
                        assert!(more_done || more_seen);
                        assert!(!pairs.contains(&(c.from, c.to)));
                        pairs.push((c.from, c.to));
                    }
                }
            }
            assert!(g.next(&b).is_none());
        }
    }
}

#[test]
fn knight_in_corner_has_two_destinations() {
    let b = board(
        squares(&["a1", "a8"]),
        0,
        0,
        0,
        squares(&["h1", "h8"]),
        0,
        squares(&["a1", "h1", "h8"]),
        sq("a8"),
    );
    let h1 = possible_moves(&b, sq("h1"));
    assert_eq!(h1, squares(&["g3", "f2"]));
    let h8 = possible_moves(&b, sq("h8"));
    assert_eq!(h8, squares(&["g6", "f7"]));
}

#[test]
fn knight_in_center_has_eight_destinations() {
    let b = board(
        squares(&["h1", "a8"]),
        0,
        0,
        0,
        sq("d4"),
        0,
        squares(&["h1", "d4"]),
        sq("a8"),
    );
    let d4 = possible_moves(&b, sq("d4"));
    assert_eq!(count_squares(d4), 8);
    assert_eq!(d4, squares(&["c6", "e6", "b5", "f5", "b3", "f3", "c2", "e2"]));
}

#[test]
fn rook_ray_stops_at_blockers() {
    let b = board(
        squares(&["h1", "h8"]),
        0,
        sq("a1"),
        0,
        sq("d1"),
        sq("a3"),
        squares(&["h1", "a1", "a3"]),
        squares(&["h8", "d1"]),
    );
    let moves = possible_moves(&b, sq("a1"));
    assert_eq!(moves, squares(&["a2", "b1", "c1", "d1"]));
    assert_eq!(moves & sq("a1"), 0);
}

#[test]
fn ray_walk_skips_seen_squares() {
    let own = sq("a1");
    let enemy = sq("d1");
    assert_eq!(cross(Direction::East, sq("a1"), own, enemy, 0), sq("b1"));
    assert_eq!(cross(Direction::East, sq("a1"), own, enemy, sq("b1")), sq("c1"));
    assert_eq!(cross(Direction::East, sq("a1"), own, enemy, squares(&["b1", "c1"])), sq("d1"));
    assert_eq!(cross(Direction::East, sq("a1"), own, enemy, squares(&["b1", "c1", "d1"])), 0);
    // Leaving the a-file toward the west wraps, so the ray is empty.
    assert_eq!(cross(Direction::West, sq("a1"), own, enemy, 0), 0);
    assert_eq!(cross(Direction::South, sq("a1"), own, enemy, 0), 0);
}

#[test]
fn bishop_moves_diagonally_until_blocked() {
    let b = board(
        squares(&["h1", "a8"]),
        0,
        0,
        sq("c1"),
        0,
        sq("b2"),
        squares(&["h1", "c1", "b2"]),
        sq("a8"),
    );
    let moves = possible_moves(&b, sq("c1"));
    assert_eq!(moves, squares(&["d2", "e3", "f4", "g5", "h6"]));
}

#[test]
fn queen_and_king_moves() {
    let b = board(
        squares(&["e1", "e8"]),
        sq("d1"),
        0,
        0,
        0,
        0,
        squares(&["e1", "d1"]),
        sq("e8"),
    );
    let king = possible_moves(&b, sq("e1"));
    assert_eq!(king, squares(&["f1", "d2", "e2", "f2"]));
    let queen = possible_moves(&b, sq("d1"));
    assert_eq!(count_squares(queen), 3 + 3 + 7 + 4);
    assert_eq!(queen & sq("e1"), 0);
}

#[test]
fn pawn_push_double_push_and_capture() {
    let b = board(
        squares(&["h1", "h8"]),
        0,
        0,
        0,
        sq("d3"),
        sq("e2"),
        squares(&["h1", "e2"]),
        squares(&["h8", "d3"]),
    );
    assert_eq!(pawn_step(&b, Side::White, sq("e2"), 0), (sq("e3"), 0));
    assert_eq!(pawn_step(&b, Side::White, sq("e2"), sq("e3")), (sq("e4"), 0));
    assert_eq!(
        pawn_step(&b, Side::White, sq("e2"), squares(&["e3", "e4"])),
        (sq("d3"), sq("d3"))
    );
    assert_eq!(pawn_step(&b, Side::White, sq("e2"), squares(&["e3", "e4", "d3"])), (0, 0));
    assert_eq!(possible_moves(&b, sq("e2")), squares(&["e3", "e4", "d3"]));
}

#[test]
fn black_pawn_moves_down() {
    let b = Board::new();
    assert_eq!(pawn_step(&b, Side::Black, sq("e7"), 0), (sq("e6"), 0));
    assert_eq!(pawn_step(&b, Side::Black, sq("e7"), sq("e6")), (sq("e5"), 0));
    assert_eq!(possible_moves(&b, sq("a7")), squares(&["a6", "a5"]));
}

#[test]
fn no_destinations_from_empty_or_wide_origin() {
    let b = Board::new();
    assert_eq!(possible_moves(&b, sq("e4")), 0);
    assert_eq!(possible_moves(&b, 0), 0);
    assert_eq!(possible_moves(&b, squares(&["e2", "d2"])), 0);
}

#[test]
fn square_names() {
    assert_eq!(square_of(1, 1), Some(sq("a1")));
    assert_eq!(square_of(8, 1), Some(sq("h1")));
    assert_eq!(square_of(5, 4), Some(sq("e4")));
    assert_eq!(square_of(8, 8), Some(sq("h8")));
    assert_eq!(square_of(0, 4), None);
    assert_eq!(square_of(9, 4), None);
    assert_eq!(square_of(3, 0), None);
    assert_eq!(square_of(3, 9), None);
}

#[test]
fn pawn_en_passant() {
    let mut b = board(
        squares(&["h1", "h8"]),
        0,
        0,
        sq("e6"),
        0,
        squares(&["e5", "d5"]),
        squares(&["h1", "e5"]),
        squares(&["h8", "d5", "e6"]),
    );
    b.en_passant = 44;
    assert_eq!(pawn_step(&b, Side::White, sq("e5"), 0), (sq("d6"), sq("d5")));
    let mut g = MoveGen::new(Kind::Pawn, Side::White);
    let c = g.next(&b).unwrap();
    assert_eq!(c.to, sq("d6"));
    assert_eq!(c.board.pawns, sq("d6"));
    assert_eq!(c.board.blacks, squares(&["h8", "e6"]));
    assert_eq!(c.board.en_passant, NO_EN_PASSANT);
    assert!(well_formed(&c.board));
}

#[test]
fn commit_move_with_capture_removes_one_piece() {
    let b = board(
        squares(&["h1", "h8"]),
        0,
        sq("a1"),
        0,
        sq("d1"),
        sq("a3"),
        squares(&["h1", "a1", "a3"]),
        squares(&["h8", "d1"]),
    );
    let to = sq("d1");
    let r = move_piece(&b, sq("a1"), to);
    assert_eq!(count_squares(r.whites | r.blacks), count_squares(b.whites | b.blacks) - 1);
    assert_eq!(r.knights & to, 0);
    assert_eq!(r.pawns & to, 0);
    assert_eq!(r.kings & to, 0);
    assert_eq!(r.queens & to, 0);
    assert_eq!(r.bishops & to, 0);
    assert_eq!(r.rooks, to);
    assert_eq!(r.blacks, sq("h8"));
    assert_eq!(r.whites, squares(&["h1", "d1", "a3"]));
    assert!(well_formed(&r));
}

#[test]
fn commit_move_without_capture() {
    let b = Board::new();
    let r = move_piece(&b, sq("e2"), sq("e4"));
    assert_eq!(r.pawns, b.pawns ^ squares(&["e2", "e4"]));
    assert_eq!(r.whites, b.whites ^ squares(&["e2", "e4"]));
    assert_eq!(r.blacks, b.blacks);
    assert!(well_formed(&r));
}

#[test]
fn response_takes_the_queen() {
    let b = board(
        squares(&["h1", "h8"]),
        squares(&["d1", "d8"]),
        0,
        0,
        0,
        0,
        squares(&["h1", "d1"]),
        squares(&["h8", "d8"]),
    );
    let r = find_best_response(&b).unwrap();
    assert_eq!(r.queens, sq("d8"));
    assert_eq!(r.whites, squares(&["h1", "d8"]));
    assert_eq!(r.blacks, sq("h8"));
    assert_eq!(r.eval, -9);
    for c in all_moves(&b, Side::White) {
        let mut x = c.board;
        assert!(r.eval <= x.evaluate_position());
    }
}

#[test]
fn engine_takes_the_queen_at_depth_zero() {
    let b = board(
        squares(&["h1", "h8"]),
        squares(&["d1", "d8"]),
        0,
        0,
        0,
        0,
        squares(&["h1", "d1"]),
        squares(&["h8", "d8"]),
    );
    let m = find_best_move(&b, 0).unwrap();
    assert_eq!(m.queens, sq("d1"));
    assert_eq!(m.blacks, squares(&["h8", "d1"]));
    assert_eq!(m.eval, 9);
    for c in all_moves(&b, Side::Black) {
        let mut x = c.board;
        assert!(m.eval >= x.evaluate_position());
    }
}

#[test]
fn opening_move_at_depth_zero() {
    let b = Board::new();
    let m = find_best_move(&b, 0).unwrap();
    // The last of the best moves: d7-d5, a center pawn worth one point.
    assert_eq!(m.pawns, b.pawns ^ squares(&["d7", "d5"]));
    assert_eq!(m.blacks, b.blacks ^ squares(&["d7", "d5"]));
    assert_eq!(m.eval, 1);
    // A neutral pawn push, with no capture, scores 0.
    let mut g = MoveGen::new(Kind::Pawn, Side::Black);
    let first = g.next(&b).unwrap();
    assert_eq!((first.from, first.to), (sq("h7"), sq("h6")));
    let mut x = first.board;
    assert_eq!(x.evaluate_position(), 0);
}

#[test]
fn depth_one_search_keeps_the_capture() {
    let b = board(
        squares(&["h1", "h8"]),
        squares(&["d1", "d8"]),
        0,
        0,
        0,
        0,
        squares(&["h1", "d1"]),
        squares(&["h8", "d8"]),
    );
    let m = find_best_move(&b, 1).unwrap();
    assert!(m.eval >= 9);
    assert!(well_formed(&m));
}

#[test]
fn no_moves_gives_none() {
    // Black has nothing but a pawn blocked by a white pawn.
    let b = board(
        sq("h1"),
        0,
        0,
        0,
        0,
        squares(&["a4", "a3"]),
        squares(&["h1", "a3"]),
        sq("a4"),
    );
    assert!(find_best_move(&b, 0).is_none());
    assert!(find_best_move(&b, 2).is_none());
    assert!(find_best_response(&b).is_some());
}
