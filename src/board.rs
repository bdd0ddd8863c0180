//! The position record, its invariant, the capture primitive, move
//! application and the static evaluator.
use vstd::prelude::*;
use crate::bits::{
    is_square, popcount, count_squares, lemma_square_in, lemma_zero_masks,
};

verus! {

/// The two sides. The engine plays `Black`.
#[derive(Clone, Copy, Debug, PartialEq, Eq, Structural)]
pub enum Side {
    White,
    Black,
}

/// The six piece kinds.
#[derive(Clone, Copy, Debug, PartialEq, Eq, Structural)]
pub enum Kind {
    King,
    Queen,
    Rook,
    Bishop,
    Knight,
    Pawn,
}

/// Marks a position without an en-passant target.
pub const NO_EN_PASSANT: u8 = 64;

/// The four center squares (d4, e4, d5, e5).
pub const CENTER: u64 = 0x0000_0018_1800_0000;

/// A position: one mask per piece kind, one per side, and bookkeeping.
#[derive(Clone, Copy, Debug, PartialEq, Eq, Structural)]
pub struct Board {
    pub kings: u64,
    pub queens: u64,
    pub rooks: u64,
    pub bishops: u64,
    pub knights: u64,
    pub pawns: u64,
    pub whites: u64,
    pub blacks: u64,
    /// Kings and rooks that keep the right to castle.
    pub castling: u64,
    /// Moves made without a capture or a pawn push.
    pub fifty_rule: u8,
    /// Square behind a pawn that just advanced two ranks; 64 or more: none.
    pub en_passant: u8,
    /// Score recorded by the evaluator or the search.
    pub eval: i16,
}

pub open spec fn other(s: Side) -> Side {
    match s {
        Side::White => Side::Black,
        Side::Black => Side::White,
    }
}

/// The mask invariant: kinds pairwise disjoint, sides disjoint, and the
/// sides together cover exactly the occupied squares.
pub open spec fn masks_wf(k: u64, q: u64, r: u64, b: u64, n: u64, p: u64, w: u64, bl: u64) -> bool {
    &&& k & q == 0 &&& k & r == 0 &&& k & b == 0 &&& k & n == 0 &&& k & p == 0
    &&& q & r == 0 &&& q & b == 0 &&& q & n == 0 &&& q & p == 0
    &&& r & b == 0 &&& r & n == 0 &&& r & p == 0
    &&& b & n == 0 &&& b & p == 0
    &&& n & p == 0
    &&& w & bl == 0
    &&& w | bl == k | q | r | b | n | p
}

impl Board {
    pub open spec fn wf(self) -> bool {
        masks_wf(
            self.kings,
            self.queens,
            self.rooks,
            self.bishops,
            self.knights,
            self.pawns,
            self.whites,
            self.blacks,
        )
    }

    pub open spec fn occupied(self) -> u64 {
        self.whites | self.blacks
    }

    pub open spec fn kind_mask(self, k: Kind) -> u64 {
        match k {
            Kind::King => self.kings,
            Kind::Queen => self.queens,
            Kind::Rook => self.rooks,
            Kind::Bishop => self.bishops,
            Kind::Knight => self.knights,
            Kind::Pawn => self.pawns,
        }
    }

    pub open spec fn side_mask(self, s: Side) -> u64 {
        match s {
            Side::White => self.whites,
            Side::Black => self.blacks,
        }
    }

    /// The position with square mask `t` removed from every mask.
    pub open spec fn cleared(self, t: u64) -> Board {
        Board {
            kings: self.kings & !t,
            queens: self.queens & !t,
            rooks: self.rooks & !t,
            bishops: self.bishops & !t,
            knights: self.knights & !t,
            pawns: self.pawns & !t,
            whites: self.whites & !t,
            blacks: self.blacks & !t,
            ..self
        }
    }

    /// The position with `m` toggled in the mask of kind `k` and side `s`.
    pub open spec fn toggled(self, k: Kind, s: Side, m: u64) -> Board {
        let kinds = match k {
            Kind::King => Board { kings: self.kings ^ m, ..self },
            Kind::Queen => Board { queens: self.queens ^ m, ..self },
            Kind::Rook => Board { rooks: self.rooks ^ m, ..self },
            Kind::Bishop => Board { bishops: self.bishops ^ m, ..self },
            Kind::Knight => Board { knights: self.knights ^ m, ..self },
            Kind::Pawn => Board { pawns: self.pawns ^ m, ..self },
        };
        match s {
            Side::White => Board { whites: kinds.whites ^ m, ..kinds },
            Side::Black => Board { blacks: kinds.blacks ^ m, ..kinds },
        }
    }

    /// A piece of kind `k` and side `s` goes from `from` to `to`; the piece on
    /// `captured` (none when 0) is removed first; the en-passant target lapses.
    pub open spec fn moved(self, k: Kind, s: Side, from: u64, to: u64, captured: u64) -> Board {
        let base = if captured == 0 {
            self
        } else {
            self.cleared(captured)
        };
        Board { en_passant: NO_EN_PASSANT, ..base.toggled(k, s, from | to) }
    }

    /// What `moved` asks of a move: `from` holds a piece of kind `k` and side
    /// `s`, `to` is a square that side does not hold, and `to` is empty unless
    /// it is the captured square; a captured square holds an enemy piece.
    pub open spec fn move_ok(self, k: Kind, s: Side, from: u64, to: u64, captured: u64) -> bool {
        &&& is_square(from)
        &&& from & self.kind_mask(k) != 0
        &&& from & self.side_mask(s) != 0
        &&& is_square(to)
        &&& to & self.side_mask(s) == 0
        &&& (to & self.occupied() == 0 || to == captured)
        &&& (captured == 0 || (is_square(captured) && captured & self.side_mask(other(s)) != 0))
    }

    /// Material: piece weights times Black's count minus White's.
    pub open spec fn material(self) -> int {
        let d = |m: u64| popcount(m & self.blacks) as int - popcount(m & self.whites) as int;
        d(self.pawns) + 3 * d(self.knights) + 3 * d(self.bishops) + 5 * d(self.rooks) + 9 * d(
            self.queens,
        ) + 200 * d(self.kings)
    }

    /// Black's pawns on the center squares minus White's.
    pub open spec fn center_bonus(self) -> int {
        popcount(self.pawns & self.blacks & CENTER) as int - popcount(
            self.pawns & self.whites & CENTER,
        ) as int
    }

    pub open spec fn score(self) -> int {
        self.material() + self.center_bonus()
    }

    /// The position with the two sides exchanged.
    pub open spec fn sides_swapped(self) -> Board {
        Board { whites: self.blacks, blacks: self.whites, ..self }
    }

    /// The standard initial layout.
    pub fn new() -> (r: Board)
        ensures
            r.wf(),
            r.kings == 0x0800_0000_0000_0008,
            r.queens == 0x1000_0000_0000_0010,
            r.rooks == 0x8100_0000_0000_0081,
            r.bishops == 0x2400_0000_0000_0024,
            r.knights == 0x4200_0000_0000_0042,
            r.pawns == 0x00ff_0000_0000_ff00,
            r.whites == 0xffff,
            r.blacks == 0xffff_0000_0000_0000,
            r.castling == 0x8900_0000_0000_0089,
            r.fifty_rule == 0,
            r.en_passant == NO_EN_PASSANT,
            r.eval == 0,
    {
        assert(masks_wf(
            0x0800_0000_0000_0008,
            0x1000_0000_0000_0010,
            0x8100_0000_0000_0081,
            0x2400_0000_0000_0024,
            0x4200_0000_0000_0042,
            0x00ff_0000_0000_ff00,
            0xffff,
            0xffff_0000_0000_0000,
        )) by (bit_vector);
        Board {
            kings: 0x0800_0000_0000_0008,
            queens: 0x1000_0000_0000_0010,
            rooks: 0x8100_0000_0000_0081,
            bishops: 0x2400_0000_0000_0024,
            knights: 0x4200_0000_0000_0042,
            pawns: 0x00ff_0000_0000_ff00,
            whites: 0xffff,
            blacks: 0xffff_0000_0000_0000,
            castling: 0x8900_0000_0000_0089,
            fifty_rule: 0,
            en_passant: NO_EN_PASSANT,
            eval: 0,
        }
    }

    /// Checks the mask invariant.
    pub fn well_formed(&self) -> (r: bool)
        ensures
            r == self.wf(),
    {
        let (k, q, r, b, n, p) = (
            self.kings,
            self.queens,
            self.rooks,
            self.bishops,
            self.knights,
            self.pawns,
        );
        k & q == 0 && k & r == 0 && k & b == 0 && k & n == 0 && k & p == 0 && q & r == 0 && q & b
            == 0 && q & n == 0 && q & p == 0 && r & b == 0 && r & n == 0 && r & p == 0 && b & n
            == 0 && b & p == 0 && n & p == 0 && self.whites & self.blacks == 0 && self.whites
            | self.blacks == k | q | r | b | n | p
    }

    pub fn kind_mask_of(&self, k: Kind) -> (r: u64)
        ensures
            r == self.kind_mask(k),
    {
        match k {
            Kind::King => self.kings,
            Kind::Queen => self.queens,
            Kind::Rook => self.rooks,
            Kind::Bishop => self.bishops,
            Kind::Knight => self.knights,
            Kind::Pawn => self.pawns,
        }
    }

    pub fn side_mask_of(&self, s: Side) -> (r: u64)
        ensures
            r == self.side_mask(s),
    {
        match s {
            Side::White => self.whites,
            Side::Black => self.blacks,
        }
    }

    /// Removes the piece on square `t`: clears it from its side's mask and
    /// from its kind's mask.
    pub fn take(&mut self, t: u64)
        requires
            old(self).wf(),
            is_square(t),
            t & old(self).occupied() != 0,
        ensures
            *final(self) == old(self).cleared(t),
            final(self).wf(),
    {
        proof {
            lemma_square_in(t, self.whites, self.blacks);
            lemma_square_in(t, self.blacks, self.whites);
            lemma_exclusive(
                self.kings,
                self.queens,
                self.rooks,
                self.bishops,
                self.knights,
                self.pawns,
                self.whites,
                self.blacks,
                t,
            );
            lemma_square_in(t, self.kings, 0);
            lemma_square_in(t, self.queens, 0);
            lemma_square_in(t, self.rooks, 0);
            lemma_square_in(t, self.bishops, 0);
            lemma_square_in(t, self.knights, 0);
            lemma_square_in(t, self.pawns, 0);
            lemma_clear_wf(
                self.kings,
                self.queens,
                self.rooks,
                self.bishops,
                self.knights,
                self.pawns,
                self.whites,
                self.blacks,
                t,
            );
        }
        if self.blacks & t != 0 {
            self.blacks = self.blacks ^ t;
        } else {
            self.whites = self.whites ^ t;
        }
        if self.pawns & t != 0 {
            self.pawns = self.pawns ^ t;
        } else if self.knights & t != 0 {
            self.knights = self.knights ^ t;
        } else if self.bishops & t != 0 {
            self.bishops = self.bishops ^ t;
        } else if self.rooks & t != 0 {
            self.rooks = self.rooks ^ t;
        } else if self.queens & t != 0 {
            self.queens = self.queens ^ t;
        } else if self.kings & t != 0 {
            self.kings = self.kings ^ t;
        }
    }

    /// Applies a move: removes the piece on `captured` (when nonzero), then
    /// moves the piece of kind `k` and side `s` from `from` to `to`.
    pub fn apply_move(&self, k: Kind, s: Side, from: u64, to: u64, captured: u64) -> (r: Board)
        requires
            self.wf(),
            self.move_ok(k, s, from, to, captured),
        ensures
            r == self.moved(k, s, from, to, captured),
            r.wf(),
    {
        let mut nb = *self;
        if captured != 0 {
            proof {
                lemma_square_in(captured, self.whites, self.blacks);
            }
            nb.take(captured);
        }
        let m = from | to;
        proof {
            lemma_moved_wf(*self, k, s, from, to, captured);
        }
        match k {
            Kind::King => nb.kings = nb.kings ^ m,
            Kind::Queen => nb.queens = nb.queens ^ m,
            Kind::Rook => nb.rooks = nb.rooks ^ m,
            Kind::Bishop => nb.bishops = nb.bishops ^ m,
            Kind::Knight => nb.knights = nb.knights ^ m,
            Kind::Pawn => nb.pawns = nb.pawns ^ m,
        }
        match s {
            Side::White => nb.whites = nb.whites ^ m,
            Side::Black => nb.blacks = nb.blacks ^ m,
        }
        nb.en_passant = NO_EN_PASSANT;
        nb
    }

    /// Scores the position (Black's material minus White's, plus the center
    /// pawn bonus), records the score and returns it.
    pub fn evaluate_position(&mut self) -> (r: i16)
        ensures
            r as int == old(self).score(),
            *final(self) == (Board { eval: r, ..*old(self) }),
    {
        let bl = self.blacks;
        let w = self.whites;
        let pawn = count_squares(self.pawns & bl) as i16 - count_squares(self.pawns & w) as i16;
        let knight = 3 * (count_squares(self.knights & bl) as i16 - count_squares(
            self.knights & w,
        ) as i16);
        let bishop = 3 * (count_squares(self.bishops & bl) as i16 - count_squares(
            self.bishops & w,
        ) as i16);
        let rook = 5 * (count_squares(self.rooks & bl) as i16 - count_squares(self.rooks & w) as i16);
        let queen = 9 * (count_squares(self.queens & bl) as i16 - count_squares(
            self.queens & w,
        ) as i16);
        let king = 200 * (count_squares(self.kings & bl) as i16 - count_squares(
            self.kings & w,
        ) as i16);
        let centre = count_squares(self.pawns & bl & CENTER) as i16 - count_squares(
            self.pawns & w & CENTER,
        ) as i16;
        let eval = pawn + knight + bishop + rook + queen + king + centre;
        self.eval = eval;
        eval
    }
}

/// Exchanging the sides negates the material part of the score (and the
/// center bonus with it).
pub proof fn lemma_material_antisymmetric(b: Board)
    ensures
        b.sides_swapped().material() == -b.material(),
        b.sides_swapped().center_bonus() == -b.center_bonus(),
        b.sides_swapped().score() == -b.score(),
{
}

/// A legal move keeps the invariant: kinds stay disjoint, sides stay
/// disjoint, and the sides still cover exactly the occupied squares.
pub proof fn lemma_moved_wf(b: Board, k: Kind, s: Side, from: u64, to: u64, captured: u64)
    requires
        b.wf(),
        b.move_ok(k, s, from, to, captured),
    ensures
        b.moved(k, s, from, to, captured).wf(),
{
    lemma_move_ok_cleared(b, k, s, from, to, captured);
    let c = if captured == 0 {
        b
    } else {
        b.cleared(captured)
    };
    lemma_toggle_wf(c, k, s, from, to);
}

/// A square inside one kind (or side) lies in no other kind (or side).
proof fn lemma_exclusive(k: u64, q: u64, r: u64, b: u64, n: u64, p: u64, w: u64, bl: u64, t: u64)
    requires
        masks_wf(k, q, r, b, n, p, w, bl),
        is_square(t),
        t & (w | bl) != 0,
    ensures
        t & bl == 0 ==> t & w != 0,
        t & bl != 0 ==> t & w == 0,
        t & p != 0 ==> t & n == 0 && t & b == 0 && t & r == 0 && t & q == 0 && t & k == 0,
        t & n != 0 ==> t & b == 0 && t & r == 0 && t & q == 0 && t & k == 0,
        t & b != 0 ==> t & r == 0 && t & q == 0 && t & k == 0,
        t & r != 0 ==> t & q == 0 && t & k == 0,
        t & q != 0 ==> t & k == 0,
{
    assert((t & bl == 0 ==> t & w != 0) && (t & bl != 0 ==> t & w == 0) && (t & p != 0 ==> t & n == 0 && t & b == 0 && t & r == 0
        && t & q == 0 && t & k == 0) && (t & n != 0 ==> t & b == 0 && t & r == 0 && t & q == 0
        && t & k == 0) && (t & b != 0 ==> t & r == 0 && t & q == 0 && t & k == 0) && (t & r
        != 0 ==> t & q == 0 && t & k == 0) && (t & q != 0 ==> t & k == 0)) by (bit_vector)
        requires
            masks_wf(k, q, r, b, n, p, w, bl),
            t != 0 && t & ((t - 1) as u64) == 0,
            t & (w | bl) != 0,
    ;
}

/// Clearing a mask from every mask keeps the invariant.
proof fn lemma_clear_wf(k: u64, q: u64, r: u64, b: u64, n: u64, p: u64, w: u64, bl: u64, t: u64)
    requires
        masks_wf(k, q, r, b, n, p, w, bl),
    ensures
        masks_wf(k & !t, q & !t, r & !t, b & !t, n & !t, p & !t, w & !t, bl & !t),
{
    assert(masks_wf(k & !t, q & !t, r & !t, b & !t, n & !t, p & !t, w & !t, bl & !t))
        by (bit_vector)
        requires
            masks_wf(k, q, r, b, n, p, w, bl),
    ;
}

/// Toggling `from | to` in one kind and one side, where `from` holds a piece
/// of both and `to` is empty, keeps the invariant. Exactly one of the kind
/// toggles and one of the side toggles is `from | to`, the others are 0.
proof fn lemma_toggle_masks(
    k: u64,
    q: u64,
    r: u64,
    b: u64,
    n: u64,
    p: u64,
    w: u64,
    bl: u64,
    mk: u64,
    mq: u64,
    mr: u64,
    mb: u64,
    mn: u64,
    mp: u64,
    mw: u64,
    mbl: u64,
    from: u64,
    to: u64,
)
    requires
        masks_wf(k, q, r, b, n, p, w, bl),
        from != 0 && from & ((from - 1) as u64) == 0,
        to != 0 && to & ((to - 1) as u64) == 0,
        to & (w | bl) == 0,
        mk == 0 || (mk == from | to && from & k != 0),
        mq == 0 || (mq == from | to && from & q != 0),
        mr == 0 || (mr == from | to && from & r != 0),
        mb == 0 || (mb == from | to && from & b != 0),
        mn == 0 || (mn == from | to && from & n != 0),
        mp == 0 || (mp == from | to && from & p != 0),
        mk | mq | mr | mb | mn | mp == from | to,
        mw == 0 || (mw == from | to && from & w != 0),
        mbl == 0 || (mbl == from | to && from & bl != 0),
        mw | mbl == from | to,
    ensures
        masks_wf(k ^ mk, q ^ mq, r ^ mr, b ^ mb, n ^ mn, p ^ mp, w ^ mw, bl ^ mbl),
{
    assert(masks_wf(k ^ mk, q ^ mq, r ^ mr, b ^ mb, n ^ mn, p ^ mp, w ^ mw, bl ^ mbl))
        by (bit_vector)
        requires
            masks_wf(k, q, r, b, n, p, w, bl),
            from != 0 && from & ((from - 1) as u64) == 0,
            to != 0 && to & ((to - 1) as u64) == 0,
            to & (w | bl) == 0,
            mk == 0 || (mk == from | to && from & k != 0),
            mq == 0 || (mq == from | to && from & q != 0),
            mr == 0 || (mr == from | to && from & r != 0),
            mb == 0 || (mb == from | to && from & b != 0),
            mn == 0 || (mn == from | to && from & n != 0),
            mp == 0 || (mp == from | to && from & p != 0),
            mk | mq | mr | mb | mn | mp == from | to,
            mw == 0 || (mw == from | to && from & w != 0),
            mbl == 0 || (mbl == from | to && from & bl != 0),
            mw | mbl == from | to,
    ;
}

/// After the capture, the piece still stands on `from` and `to` is empty.
proof fn lemma_move_ok_cleared(b: Board, k: Kind, s: Side, from: u64, to: u64, captured: u64)
    requires
        b.wf(),
        b.move_ok(k, s, from, to, captured),
    ensures
        ({
            let c = if captured == 0 {
                b
            } else {
                b.cleared(captured)
            };
            &&& c.wf()
            &&& from & c.kind_mask(k) != 0
            &&& from & c.side_mask(s) != 0
            &&& to & c.occupied() == 0
        }),
{
    let (w, bl) = (b.whites, b.blacks);
    if captured != 0 {
        lemma_clear_wf(b.kings, b.queens, b.rooks, b.bishops, b.knights, b.pawns, w, bl, captured);
        let km = b.kind_mask(k);
        let sm = b.side_mask(s);
        let om = b.side_mask(other(s));
        assert(from & km != 0 && from & sm != 0 && captured & om != 0 && w & bl == 0 && ((sm
            == w && om == bl) || (sm == bl && om == w)) && (to
            & (w | bl) == 0 || to == captured) ==> from & (km & !captured) != 0 && from & (sm
            & !captured) != 0 && to & ((w & !captured) | (bl & !captured)) == 0) by (bit_vector)
            requires
                from != 0 && from & ((from - 1) as u64) == 0,
                captured != 0 && captured & ((captured - 1) as u64) == 0,
        ;
    }
}

/// Moving a piece to an empty square keeps the invariant.
proof fn lemma_toggle_wf(c: Board, k: Kind, s: Side, from: u64, to: u64)
    requires
        c.wf(),
        is_square(from),
        is_square(to),
        from & c.kind_mask(k) != 0,
        from & c.side_mask(s) != 0,
        to & c.occupied() == 0,
    ensures
        c.toggled(k, s, from | to).wf(),
{
    let m = from | to;
    lemma_zero_masks(c.kings);
    lemma_zero_masks(c.queens);
    lemma_zero_masks(c.rooks);
    lemma_zero_masks(c.bishops);
    lemma_zero_masks(c.knights);
    lemma_zero_masks(c.pawns);
    lemma_zero_masks(c.whites);
    lemma_zero_masks(c.blacks);
    lemma_zero_masks(m);
    let mk = if k == Kind::King { m } else { 0 };
    let mq = if k == Kind::Queen { m } else { 0 };
    let mr = if k == Kind::Rook { m } else { 0 };
    let mb = if k == Kind::Bishop { m } else { 0 };
    let mn = if k == Kind::Knight { m } else { 0 };
    let mp = if k == Kind::Pawn { m } else { 0 };
    let mw = if s == Side::White { m } else { 0 };
    let mbl = if s == Side::Black { m } else { 0 };
    assert(mk | mq | mr | mb | mn | mp == m) by {
        lemma_or_one_of(mk, mq, mr, mb, mn, mp, m);
    }
    assert(mw | mbl == m) by {
        lemma_or_one_of(mw, mbl, 0, 0, 0, 0, m);
        lemma_zero_masks(mw | mbl);
    }
    lemma_toggle_masks(
        c.kings,
        c.queens,
        c.rooks,
        c.bishops,
        c.knights,
        c.pawns,
        c.whites,
        c.blacks,
        mk,
        mq,
        mr,
        mb,
        mn,
        mp,
        mw,
        mbl,
        from,
        to,
    );
}

/// Of six masks each 0 or `m`, one of them `m`: their union is `m`.
proof fn lemma_or_one_of(a: u64, b: u64, c: u64, d: u64, e: u64, f: u64, m: u64)
    requires
        a == 0 || a == m,
        b == 0 || b == m,
        c == 0 || c == m,
        d == 0 || d == m,
        e == 0 || e == m,
        f == 0 || f == m,
        a == m || b == m || c == m || d == m || e == m || f == m,
    ensures
        a | b | c | d | e | f == m,
{
    assert(a | b | c | d | e | f == m) by (bit_vector)
        requires
            a == 0 || a == m,
            b == 0 || b == m,
            c == 0 || c == m,
            d == 0 || d == m,
            e == 0 || e == m,
            f == 0 || f == m,
            a == m || b == m || c == m || d == m || e == m || f == m,
    ;
}

} // verus!
