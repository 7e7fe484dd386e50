//! Bitboards: a set of squares as a `u64`, square `s` being bit `s`.

use vstd::prelude::*;

verus! {

/// Whether square `sq` is in the set `bb`.
pub open spec fn on(bb: u64, sq: int) -> bool {
    0 <= sq < 64 && (bb >> (sq as u64)) & 1 == 1
}

/// How many of the squares below `n` are in `bb`.
pub open spec fn count_below(bb: u64, n: int) -> int
    decreases n,
{
    if n <= 0 {
        0
    } else {
        count_below(bb, n - 1) + if on(bb, n - 1) { 1int } else { 0int }
    }
}

/// How many squares are in `bb`.
pub open spec fn count(bb: u64) -> int {
    count_below(bb, 64)
}

/// The lowest square of `bb` at or above `from`, or 64 if there is none.
pub open spec fn lowest_from(bb: u64, from: int) -> int
    decreases 64 - from,
{
    if from >= 64 {
        64
    } else if on(bb, from) {
        from
    } else {
        lowest_from(bb, from + 1)
    }
}

/// The lowest square at or above `from` is in the set, unless it is 64, and
/// no square between `from` and it is.
pub proof fn lemma_lowest_from(bb: u64, from: int)
    requires
        0 <= from <= 64,
    ensures
        from <= lowest_from(bb, from) <= 64,
        lowest_from(bb, from) < 64 ==> on(bb, lowest_from(bb, from)),
        forall|s: int| from <= s < lowest_from(bb, from) ==> !on(bb, s),
    decreases 64 - from,
{
    if from < 64 && !on(bb, from) {
        lemma_lowest_from(bb, from + 1);
    }
}

/// The set that holds square `sq` alone.
pub fn square_bit(sq: u8) -> (r: u64)
    requires
        sq < 64,
    ensures
        r == 1u64 << (sq as u64),
        forall|s: int| on(r, s) <==> s == sq,
{
    let r: u64 = 1u64 << (sq as u64);
    proof {
        assert forall|s: int| on(r, s) <==> s == sq by {
            if 0 <= s < 64 {
                let a: u64 = sq as u64;
                let b: u64 = s as u64;
                assert(a < 64 && b < 64 ==> ((((1u64 << a) >> b) & 1 == 1) <==> a == b))
                    by (bit_vector);
            }
        }
    }
    r
}

/// Whether square `sq` is in `bb`; no set holds a square off the board.
pub fn holds(bb: u64, sq: u8) -> (r: bool)
    ensures
        r == on(bb, sq as int),
{
    sq < 64 && (bb >> (sq as u64)) & 1 == 1
}

/// The number of squares in `bb`.
pub fn popcount(bb: u64) -> (r: u32)
    ensures
        r == count(bb),
        r <= 64,
{
    let mut n: u32 = 0;
    let mut sq: u8 = 0;
    while sq < 64
        invariant
            sq <= 64,
            n == count_below(bb, sq as int),
            n <= sq,
        decreases 64 - sq,
    {
        if holds(bb, sq) {
            n = n + 1;
        }
        sq = sq + 1;
    }
    n
}

/// The lowest square in `bb`, or 64 where `bb` is empty.
pub fn lowest_square(bb: u64) -> (r: u8)
    ensures
        r == lowest_from(bb, 0),
        r <= 64,
        r < 64 ==> on(bb, r as int),
        forall|s: int| 0 <= s < r ==> !on(bb, s),
{
    let zeros: u32 = bb.trailing_zeros();
    proof {
        vstd::std_specs::bits::axiom_u64_trailing_zeros(bb);
        lemma_lowest_from(bb, 0);
        let lowest = lowest_from(bb, 0);
        if lowest < zeros {
            let j: u64 = lowest as u64;
            assert((bb >> j) & 1u64 == 0u64);
        }
        if zeros < 64 {
            assert(on(bb, zeros as int));
        }
    }
    zeros as u8
}

/// The empty set holds no square.
pub proof fn lemma_empty_has_none(sq: int)
    ensures
        !on(0u64, sq),
{
    if 0 <= sq < 64 {
        let b: u64 = sq as u64;
        assert(b < 64 ==> (0u64 >> b) & 1 == 0) by (bit_vector);
    }
}

/// A set that is not empty holds a square.
pub proof fn lemma_nonempty_has_one(bb: u64)
    requires
        bb != 0,
    ensures
        lowest_from(bb, 0) < 64,
{
    lemma_lowest_from(bb, 0);
    vstd::std_specs::bits::axiom_u64_trailing_zeros(bb);
    let t = vstd::std_specs::bits::u64_trailing_zeros(bb);
    assert(on(bb, t as int));
}

/// Two sets that hold the same squares are the same set.
pub proof fn lemma_same_squares(a: u64, b: u64)
    requires
        forall|sq: int| 0 <= sq < 64 ==> on(a, sq) == on(b, sq),
    ensures
        a == b,
{
    if a != b {
        let d: u64 = a ^ b;
        assert(a != b ==> a ^ b != 0) by (bit_vector);
        lemma_nonempty_has_one(d);
        lemma_lowest_from(d, 0);
        let t = lowest_from(d, 0);
        let s: u64 = t as u64;
        assert(s < 64 ==> ((((a ^ b) >> s) & 1 == 1) == (((a >> s) & 1 == 1) != ((b >> s) & 1
            == 1)))) by (bit_vector);
        assert(on(d, t));
        assert(on(a, t) != on(b, t));
    }
}

} // verus!
