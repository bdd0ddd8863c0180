//! Square masks: single-bit masks, the lowest set bit, and bit counting.
use vstd::prelude::*;

verus! {

/// `m` holds exactly one square.
pub open spec fn is_square(m: u64) -> bool {
    m != 0 && m & ((m - 1) as u64) == 0
}

/// The lowest square of `m` (0 when `m` is empty).
pub open spec fn lowest(m: u64) -> u64 {
    m ^ (m & ((m - 1) as u64))
}

/// Number of set bits among the `n` lowest positions of `m`.
pub open spec fn bits_below(m: u64, n: nat) -> nat
    decreases n,
{
    if n == 0 {
        0
    } else {
        bits_below(m, (n - 1) as nat) + ((m >> ((n - 1) as u64)) % 2) as nat
    }
}

/// Number of squares in `m`.
pub open spec fn popcount(m: u64) -> nat {
    bits_below(m, 64)
}

/// Counts the squares of `m`.
pub fn count_squares(m: u64) -> (r: u32)
    ensures
        r as nat == popcount(m),
        r <= 64,
{
    let mut c: u32 = 0;
    let mut i: u64 = 0;
    while i < 64
        invariant
            i <= 64,
            c as nat == bits_below(m, i as nat),
            c <= i,
        decreases 64 - i,
    {
        c = c + ((m >> i) % 2) as u32;
        i = i + 1;
    }
    c
}

/// The lowest square of a nonempty mask, and what is left without it.
pub proof fn lemma_lowest(m: u64)
    requires
        m != 0,
    ensures
        is_square(lowest(m)),
        lowest(m) & m == lowest(m),
        m & !lowest(m) == m & ((m - 1) as u64),
        m & ((m - 1) as u64) < m,
{
    assert(is_square(lowest(m)) && lowest(m) & m == lowest(m) && m & !lowest(m) == m & ((m
        - 1) as u64) && m & ((m - 1) as u64) < m) by (bit_vector)
        requires
            m != 0,
    ;
}

/// The lowest unfinished origin among the pieces `km & sm` outside `done`:
/// a square of both masks; finishing it leaves fewer unfinished origins.
pub proof fn lemma_remove_origin(km: u64, sm: u64, done: u64)
    requires
        km & sm & !done != 0,
    ensures
        is_square(lowest(km & sm & !done)),
        lowest(km & sm & !done) & km != 0,
        lowest(km & sm & !done) & sm != 0,
        lowest(km & sm & !done) & done == 0,
        km & sm & !(done | lowest(km & sm & !done)) < km & sm & !done,
        km & sm & !(done | lowest(km & sm & !done)) & !(km & sm & !done) == 0,
        lowest(km & sm & !done) & (km & sm & !(done | lowest(km & sm & !done))) == 0,
{
    let r = km & sm & !done;
    assert(is_square(lowest(r)) && lowest(r) & km != 0 && lowest(r) & sm != 0 && lowest(r) & done
        == 0 && km & sm & !(done | lowest(r)) < r && km & sm & !(done | lowest(r)) & !r == 0
        && lowest(r) & (km & sm & !(done | lowest(r))) == 0) by (bit_vector)
        requires
            r == km & sm & !done,
            r != 0,
    ;
}

/// Adding an unseen square to a mask makes its complement smaller.
pub proof fn lemma_add_square(seen: u64, d: u64)
    requires
        is_square(d),
        d & seen == 0,
    ensures
        !(seen | d) < !seen,
{
    assert(!(seen | d) < !seen) by (bit_vector)
        requires
            d != 0 && d & ((d - 1) as u64) == 0,
            d & seen == 0,
    ;
}

/// Shifting a square yields a square or nothing, and never the same square.
pub proof fn lemma_shift_square(o: u64, k: u64)
    requires
        is_square(o),
        1 <= k < 64,
    ensures
        (o << k) == 0 || is_square(o << k),
        (o >> k) == 0 || is_square(o >> k),
        (o << k) != o,
        (o >> k) != o,
{
    assert(((o << k) == 0 || is_square(o << k)) && ((o >> k) == 0 || is_square(o >> k)) && (o
        << k) != o && (o >> k) != o) by (bit_vector)
        requires
            o != 0 && o & ((o - 1) as u64) == 0,
            1 <= k < 64,
    ;
}

/// For a square `s`: meeting a mask means lying inside it.
pub proof fn lemma_square_in(s: u64, a: u64, c: u64)
    requires
        is_square(s),
    ensures
        s & a != 0 ==> s & a == s,
        s & a != 0 && a & c == 0 ==> s & c == 0,
        s & a == 0 ==> a & !s == a,
        s & a != 0 ==> a ^ s == a & !s,
        s & (a & !c) != 0 ==> s & c == 0,
        s & (a | c) == 0 <==> (s & a == 0 && s & c == 0),
        a & s == s & a,
{
    assert((s & a != 0 ==> s & a == s) && (s & a != 0 && a & c == 0 ==> s & c == 0) && (s & a
        == 0 ==> a & !s == a) && (s & a != 0 ==> a ^ s == a & !s) && (s & (a & !c) != 0 ==> s
        & c == 0) && (s & (a | c) == 0 <==> (s & a == 0 && s & c == 0)) && a & s == s & a) by (bit_vector)
        requires
            s != 0 && s & ((s - 1) as u64) == 0,
    ;
}

/// Facts on masks read as sets: `a & !b == 0` says `a` lies inside `b`.
pub proof fn lemma_inside(x: u64, a: u64, b: u64, c: u64)
    ensures
        a & !b == 0 && b & !c == 0 ==> a & !c == 0,
        x & b == 0 && a & !b == 0 ==> x & a == 0,
        x & a != 0 && a & !b == 0 ==> x & b != 0,
        x & (b | c) == 0 ==> x & b == 0,
{
    assert((a & !b == 0 && b & !c == 0 ==> a & !c == 0) && (x & b == 0 && a & !b == 0 ==> x & a
        == 0) && (x & a != 0 && a & !b == 0 ==> x & b != 0) && (x & (b | c) == 0 ==> x & b == 0))
        by (bit_vector);
}

pub proof fn lemma_zero_masks(a: u64)
    ensures
        a ^ 0 == a,
        a & !0u64 == a,
        a | 0 == a,
        a & 0 == 0,
        a & !a == 0,
{
    assert(a ^ 0 == a && a & !0u64 == a && a | 0 == a && a & 0 == 0 && a & !a == 0) by (bit_vector);
}

} // verus!
