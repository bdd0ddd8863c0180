//! Next destinations of knights, kings and pawns.
use vstd::prelude::*;
use crate::bits::{is_square, lemma_shift_square, lemma_square_in};
use crate::board::{Board, Side, other};
use crate::rays::{direction, direction_at, edge_guard, guard, lemma_step_square, shift, step};

verus! {

/// Pawns that have not left White's starting rank.
pub const WHITE_PAWN_HOME: u64 = 0x0000_0000_0000_ff00;

/// Pawns that have not left Black's starting rank.
pub const BLACK_PAWN_HOME: u64 = 0x00ff_0000_0000_0000;

/// Squares a pawn may capture onto toward the a-file (all but the h-file).
pub const CAPTURE_LEFT_OK: u64 = 0xfefe_fefe_fefe_fefe;

/// Squares a pawn may capture onto toward the h-file (all but the a-file).
pub const CAPTURE_RIGHT_OK: u64 = 0x7f7f_7f7f_7f7f_7f7f;

/// The eight knight leaps: four shifts up, then the same four down.
pub open spec fn leap(o: u64, i: u64) -> u64 {
    if i == 0 {
        o << 17u64
    } else if i == 1 {
        o << 15u64
    } else if i == 2 {
        o << 10u64
    } else if i == 3 {
        o << 6u64
    } else if i == 4 {
        o >> 17u64
    } else if i == 5 {
        o >> 15u64
    } else if i == 6 {
        o >> 10u64
    } else {
        o >> 6u64
    }
}

/// Origins from which leap `i` would leave the board or wrap around it.
pub open spec fn leap_guard(i: u64) -> u64 {
    if i == 0 {
        0xffff_8080_8080_8080
    } else if i == 1 {
        0xffff_0101_0101_0101
    } else if i == 2 {
        0xffc0_c0c0_c0c0_c0c0
    } else if i == 3 {
        0xff03_0303_0303_0303
    } else if i == 4 {
        0x0101_0101_0101_ffff
    } else if i == 5 {
        0x8080_8080_8080_ffff
    } else if i == 6 {
        0x0303_0303_0303_03ff
    } else {
        0xc0c0_c0c0_c0c0_c0ff
    }
}

/// The first leap from `i` on that the origin allows and that lands neither
/// on `own` nor on `seen` (0: none).
pub open spec fn knight_target(o: u64, own: u64, seen: u64, i: u64) -> u64
    decreases 8 - i,
{
    if i >= 8 {
        0
    } else {
        let l = leap(o, i);
        if o & leap_guard(i) == 0 && l != 0 && l & (own | seen) == 0 {
            l
        } else {
            knight_target(o, own, seen, (i + 1) as u64)
        }
    }
}

/// The first single step, in table order from `i` on, that stays on the
/// board and lands neither on `own` nor on `seen` (0: none).
pub open spec fn king_target(o: u64, own: u64, seen: u64, i: u64) -> u64
    decreases 8 - i,
{
    if i >= 8 {
        0
    } else {
        let s = step(direction(i), o, 1);
        if s != 0 && s & guard(direction(i)) == 0 && s & (own | seen) == 0 {
            s
        } else {
            king_target(o, own, seen, (i + 1) as u64)
        }
    }
}

pub open spec fn forward(s: Side, x: u64, n: u64) -> u64 {
    match s {
        Side::White => x << n,
        Side::Black => x >> n,
    }
}

pub open spec fn pawn_home(s: Side) -> u64 {
    match s {
        Side::White => WHITE_PAWN_HOME,
        Side::Black => BLACK_PAWN_HOME,
    }
}

/// Diagonal capture square toward the a-file (0 when it would wrap).
pub open spec fn capture_left(s: Side, o: u64) -> u64 {
    match s {
        Side::White => (o << 9u64) & CAPTURE_LEFT_OK,
        Side::Black => (o >> 7u64) & CAPTURE_LEFT_OK,
    }
}

/// Diagonal capture square toward the h-file (0 when it would wrap).
pub open spec fn capture_right(s: Side, o: u64) -> u64 {
    match s {
        Side::White => (o << 7u64) & CAPTURE_RIGHT_OK,
        Side::Black => (o >> 9u64) & CAPTURE_RIGHT_OK,
    }
}

/// The pawn that an en-passant capture onto `t` removes.
pub open spec fn passed_pawn(s: Side, t: u64) -> u64 {
    match s {
        Side::White => t >> 8u64,
        Side::Black => t << 8u64,
    }
}

/// The next move of the pawn on `o` for side `s`, as (destination, captured
/// square), in priority order: single push, double push from the home rank,
/// capture toward the a-file, capture toward the h-file, en passant.
/// Destinations in `seen` are skipped; (0, 0): none left.
pub open spec fn pawn_target(b: Board, s: Side, o: u64, seen: u64) -> (u64, u64) {
    let enemy = b.side_mask(other(s));
    let push = forward(s, o, 8);
    let jump = forward(s, o, 16);
    let l = capture_left(s, o);
    let r = capture_right(s, o);
    let t = 1u64 << (b.en_passant as u64);
    if push != 0 && push & (b.occupied() | seen) == 0 {
        (push, 0)
    } else if o & pawn_home(s) != 0 && jump != 0 && jump & (b.occupied() | seen) == 0 {
        (jump, 0)
    } else if l & (enemy & !seen) != 0 {
        (l, l)
    } else if r & (enemy & !seen) != 0 {
        (r, r)
    } else if b.en_passant < 64 && (l | r) & t != 0 && t & (b.occupied() | seen) == 0
        && passed_pawn(s, t) & enemy != 0 {
        (t, passed_pawn(s, t))
    } else {
        (0, 0)
    }
}

/// What every generated destination `d` (with captured square `c`) obeys:
/// when nonzero, a legal move for `b.move_ok` that avoids `seen`.
pub open spec fn target_ok(b: Board, s: Side, o: u64, seen: u64, d: u64, c: u64) -> bool {
    d != 0 ==> {
        &&& is_square(d)
        &&& d & seen == 0
        &&& d & b.side_mask(s) == 0
        &&& (d & b.occupied() == 0 || d == c)
        &&& (c == 0 || (is_square(c) && c & b.side_mask(other(s)) != 0))
    }
}

pub fn leap_of(o: u64, i: u64) -> (r: (u64, u64))
    ensures
        r == (leap(o, i), leap_guard(i)),
{
    if i == 0 {
        (o << 17u64, 0xffff_8080_8080_8080)
    } else if i == 1 {
        (o << 15u64, 0xffff_0101_0101_0101)
    } else if i == 2 {
        (o << 10u64, 0xffc0_c0c0_c0c0_c0c0)
    } else if i == 3 {
        (o << 6u64, 0xff03_0303_0303_0303)
    } else if i == 4 {
        (o >> 17u64, 0x0101_0101_0101_ffff)
    } else if i == 5 {
        (o >> 15u64, 0x8080_8080_8080_ffff)
    } else if i == 6 {
        (o >> 10u64, 0x0303_0303_0303_03ff)
    } else {
        (o >> 6u64, 0xc0c0_c0c0_c0c0_c0ff)
    }
}

/// The next knight destination from `o`.
pub fn knight_step(o: u64, own: u64, seen: u64) -> (r: u64)
    ensures
        r == knight_target(o, own, seen, 0),
{
    let mut i: u64 = 0;
    while i < 8
        invariant
            i <= 8,
            knight_target(o, own, seen, i) == knight_target(o, own, seen, 0),
        decreases 8 - i,
    {
        let (l, g) = leap_of(o, i);
        if o & g == 0 && l != 0 && l & (own | seen) == 0 {
            return l;
        }
        i = i + 1;
    }
    0
}

/// The next king destination from `o`.
pub fn king_step(o: u64, own: u64, seen: u64) -> (r: u64)
    ensures
        r == king_target(o, own, seen, 0),
{
    let mut i: u64 = 0;
    while i < 8
        invariant
            i <= 8,
            king_target(o, own, seen, i) == king_target(o, own, seen, 0),
        decreases 8 - i,
    {
        let d = direction_at(i);
        let s = shift(d, o, 1);
        if s != 0 && s & edge_guard(d) == 0 && s & (own | seen) == 0 {
            return s;
        }
        i = i + 1;
    }
    0
}

/// The next move of the pawn on `o`, as (destination, captured square).
pub fn pawn_step(b: &Board, s: Side, o: u64, seen: u64) -> (r: (u64, u64))
    ensures
        r == pawn_target(*b, s, o, seen),
{
    let occupied = b.whites | b.blacks;
    let (enemy, push, jump, l, r, home) = match s {
        Side::White => (
            b.blacks,
            o << 8u64,
            o << 16u64,
            (o << 9u64) & CAPTURE_LEFT_OK,
            (o << 7u64) & CAPTURE_RIGHT_OK,
            WHITE_PAWN_HOME,
        ),
        Side::Black => (
            b.whites,
            o >> 8u64,
            o >> 16u64,
            (o >> 7u64) & CAPTURE_LEFT_OK,
            (o >> 9u64) & CAPTURE_RIGHT_OK,
            BLACK_PAWN_HOME,
        ),
    };
    if push != 0 && push & (occupied | seen) == 0 {
        (push, 0)
    } else if o & home != 0 && jump != 0 && jump & (occupied | seen) == 0 {
        (jump, 0)
    } else if l & (enemy & !seen) != 0 {
        (l, l)
    } else if r & (enemy & !seen) != 0 {
        (r, r)
    } else if b.en_passant < 64 {
        let t = 1u64 << (b.en_passant as u64);
        let victim = match s {
            Side::White => t >> 8u64,
            Side::Black => t << 8u64,
        };
        if (l | r) & t != 0 && t & (occupied | seen) == 0 && victim & enemy != 0 {
            (t, victim)
        } else {
            (0, 0)
        }
    } else {
        (0, 0)
    }
}

pub proof fn lemma_knight_target(b: Board, s: Side, o: u64, seen: u64, i: u64)
    requires
        b.wf(),
        is_square(o),
    ensures
        ({
            let d = knight_target(o, b.side_mask(s), seen, i);
            target_ok(b, s, o, seen, d, if d & b.side_mask(other(s)) != 0 { d } else { 0 })
        }),
    decreases 8 - i,
{
    if i < 8 {
        let l = leap(o, i);
        let own = b.side_mask(s);
        if o & leap_guard(i) == 0 && l != 0 && l & (own | seen) == 0 {
            let k: u64 = if i == 0 || i == 4 { 17 } else if i == 1 || i == 5 { 15 } else if i == 2
                || i == 6 { 10 } else { 6 };
            lemma_shift_square(o, k);
            lemma_square_in(l, own, seen);
            lemma_square_in(l, b.whites, b.blacks);
        } else {
            lemma_knight_target(b, s, o, seen, (i + 1) as u64);
        }
    }
}

pub proof fn lemma_king_target(b: Board, s: Side, o: u64, seen: u64, i: u64)
    requires
        b.wf(),
        is_square(o),
    ensures
        ({
            let d = king_target(o, b.side_mask(s), seen, i);
            target_ok(b, s, o, seen, d, if d & b.side_mask(other(s)) != 0 { d } else { 0 })
        }),
    decreases 8 - i,
{
    if i < 8 {
        let st = step(direction(i), o, 1);
        let own = b.side_mask(s);
        if st != 0 && st & guard(direction(i)) == 0 && st & (own | seen) == 0 {
            lemma_step_square(direction(i), o, 1);
            lemma_square_in(st, own, seen);
            lemma_square_in(st, b.whites, b.blacks);
        } else {
            lemma_king_target(b, s, o, seen, (i + 1) as u64);
        }
    }
}

pub proof fn lemma_pawn_target(b: Board, s: Side, o: u64, seen: u64)
    requires
        b.wf(),
        is_square(o),
    ensures
        ({
            let (d, c) = pawn_target(b, s, o, seen);
            target_ok(b, s, o, seen, d, c)
        }),
{
    let enemy = b.side_mask(other(s));
    let own = b.side_mask(s);
    let occ = b.occupied();
    let push = forward(s, o, 8);
    let jump = forward(s, o, 16);
    let l = capture_left(s, o);
    let r = capture_right(s, o);
    lemma_shift_square(o, 8);
    lemma_shift_square(o, 16);
    lemma_shift_square(o, 9);
    lemma_shift_square(o, 7);
    if push != 0 && push & (occ | seen) == 0 {
        lemma_square_in(push, occ, seen);
        lemma_square_in(push, b.whites, b.blacks);
    } else if o & pawn_home(s) != 0 && jump != 0 && jump & (occ | seen) == 0 {
        lemma_square_in(jump, occ, seen);
        lemma_square_in(jump, b.whites, b.blacks);
    } else if l & (enemy & !seen) != 0 {
        lemma_capture_square(s, o, l, enemy, own, seen, true);
    } else if r & (enemy & !seen) != 0 {
        lemma_capture_square(s, o, r, enemy, own, seen, false);
    } else if b.en_passant < 64 {
        let e = b.en_passant as u64;
        let t = 1u64 << e;
        let v = passed_pawn(s, t);
        if (l | r) & t != 0 && t & (occ | seen) == 0 && v & enemy != 0 {
            assert(is_square(t)) by (bit_vector)
                requires
                    t == 1u64 << e,
                    e < 64,
            ;
            lemma_shift_square(t, 8);
            lemma_square_in(t, occ, seen);
            lemma_square_in(t, b.whites, b.blacks);
        }
    }
}

/// A diagonal capture square met by `enemy & !seen` is a square of the
/// enemy outside `seen` and outside `own`.
proof fn lemma_capture_square(s: Side, o: u64, x: u64, enemy: u64, own: u64, seen: u64, left: bool)
    requires
        is_square(o),
        own & enemy == 0 || enemy & own == 0,
        x == (if left {
            capture_left(s, o)
        } else {
            capture_right(s, o)
        }),
        x & (enemy & !seen) != 0,
    ensures
        is_square(x),
        x & seen == 0,
        x & enemy != 0,
        x & own == 0,
{
    let shifted: u64 = match s {
        Side::White => if left { o << 9u64 } else { o << 7u64 },
        Side::Black => if left { o >> 7u64 } else { o >> 9u64 },
    };
    let ok: u64 = if left { CAPTURE_LEFT_OK } else { CAPTURE_RIGHT_OK };
    lemma_shift_square(o, 9);
    lemma_shift_square(o, 7);
    assert(x == shifted & ok);
    assert(is_square(x) && x & seen == 0 && x & enemy != 0 && x & own == 0) by (bit_vector)
        requires
            shifted == 0 || (shifted != 0 && shifted & ((shifted - 1) as u64) == 0),
            x == shifted & ok,
            x & (enemy & !seen) != 0,
            own & enemy == 0 || enemy & own == 0,
    ;
}

} // verus!
