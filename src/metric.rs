use vstd::prelude::*;

verus! {

/// The smaller of two naturals.
pub open spec fn min_nat(a: nat, b: nat) -> nat {
    if a <= b { a } else { b }
}

/// The larger of two naturals.
pub open spec fn max_nat(a: nat, b: nat) -> nat {
    if a >= b { a } else { b }
}

/// Whether the last two tokens of `x` are those of `y` in reverse order.
pub open spec fn swapped_tail<A>(x: Seq<A>, y: Seq<A>) -> bool {
    &&& x.len() >= 2
    &&& y.len() >= 2
    &&& x[x.len() - 1] == y[y.len() - 2]
    &&& x[x.len() - 2] == y[y.len() - 1]
}

/// Levenshtein distance: the fewest insertions, deletions and substitutions
/// of one token that turn `x` into `y`, by the recurrence on the last tokens.
pub open spec fn lev<A>(x: Seq<A>, y: Seq<A>) -> nat
    decreases x.len() + y.len(),
{
    if x.len() == 0 {
        y.len()
    } else if y.len() == 0 {
        x.len()
    } else if x.last() == y.last() {
        lev(x.drop_last(), y.drop_last())
    } else {
        1 + min_nat(
            min_nat(lev(x.drop_last(), y), lev(x, y.drop_last())),
            lev(x.drop_last(), y.drop_last()),
        )
    }
}

/// Optimal string alignment distance: Levenshtein's operations plus the swap
/// of two adjacent tokens, each swapped pair being left alone afterwards.
pub open spec fn osa<A>(x: Seq<A>, y: Seq<A>) -> nat
    decreases x.len() + y.len(),
{
    if x.len() == 0 {
        y.len()
    } else if y.len() == 0 {
        x.len()
    } else if x.last() == y.last() {
        osa(x.drop_last(), y.drop_last())
    } else {
        let edit = min_nat(
            min_nat(osa(x.drop_last(), y), osa(x, y.drop_last())),
            osa(x.drop_last(), y.drop_last()),
        );
        if swapped_tail(x, y) {
            1 + min_nat(edit, osa(x.subrange(0, x.len() - 2), y.subrange(0, y.len() - 2)))
        } else {
            1 + edit
        }
    }
}

/// A sequence is at distance zero from itself, under both metrics.
pub proof fn lemma_distance_to_self<A>(x: Seq<A>)
    ensures
        lev(x, x) == 0,
        osa(x, x) == 0,
    decreases x.len(),
{
    if x.len() > 0 {
        lemma_distance_to_self(x.drop_last());
    }
}

/// Both metrics are symmetric.
pub proof fn lemma_symmetric<A>(x: Seq<A>, y: Seq<A>)
    ensures
        lev(x, y) == lev(y, x),
        osa(x, y) == osa(y, x),
    decreases x.len() + y.len(),
{
    if x.len() > 0 && y.len() > 0 {
        lemma_symmetric(x.drop_last(), y.drop_last());
        lemma_symmetric(x.drop_last(), y);
        lemma_symmetric(x, y.drop_last());
        if x.len() >= 2 && y.len() >= 2 {
            lemma_symmetric(x.subrange(0, x.len() - 2), y.subrange(0, y.len() - 2));
        }
    }
}

/// Both distances lie between the difference of the lengths and the larger length.
pub proof fn lemma_length_bounds<A>(x: Seq<A>, y: Seq<A>)
    ensures
        lev(x, y) <= max_nat(x.len(), y.len()),
        osa(x, y) <= max_nat(x.len(), y.len()),
        lev(x, y) >= x.len() - y.len(),
        lev(x, y) >= y.len() - x.len(),
        osa(x, y) >= x.len() - y.len(),
        osa(x, y) >= y.len() - x.len(),
    decreases x.len() + y.len(),
{
    if x.len() > 0 && y.len() > 0 {
        lemma_length_bounds(x.drop_last(), y.drop_last());
        lemma_length_bounds(x.drop_last(), y);
        lemma_length_bounds(x, y.drop_last());
        if x.len() >= 2 && y.len() >= 2 {
            lemma_length_bounds(x.subrange(0, x.len() - 2), y.subrange(0, y.len() - 2));
        }
    }
}

/// The distance between a sequence and the empty one is the sequence's length.
pub proof fn lemma_distance_to_empty<A>(x: Seq<A>)
    ensures
        lev(x, Seq::empty()) == x.len(),
        osa(x, Seq::empty()) == x.len(),
        lev(Seq::empty(), x) == x.len(),
        osa(Seq::empty(), x) == x.len(),
{
}

/// Allowing adjacent swaps never raises the distance.
pub proof fn lemma_osa_le_lev<A>(x: Seq<A>, y: Seq<A>)
    ensures
        osa(x, y) <= lev(x, y),
    decreases x.len() + y.len(),
{
    if x.len() > 0 && y.len() > 0 {
        lemma_osa_le_lev(x.drop_last(), y.drop_last());
        lemma_osa_le_lev(x.drop_last(), y);
        lemma_osa_le_lev(x, y.drop_last());
    }
}

/// Under both metrics the distance is zero exactly when the sequences are equal.
pub proof fn lemma_zero_iff_equal<A>(x: Seq<A>, y: Seq<A>)
    ensures
        lev(x, y) == 0 <==> x == y,
        osa(x, y) == 0 <==> x == y,
    decreases x.len() + y.len(),
{
    lemma_distance_to_self(x);
    if x.len() == 0 && y.len() == 0 {
        assert(x =~= y);
    }
    if x.len() > 0 && y.len() > 0 {
        lemma_zero_iff_equal(x.drop_last(), y.drop_last());
        if x.drop_last() == y.drop_last() && x.last() == y.last() {
            assert(x =~= x.drop_last().push(x.last()));
            assert(y =~= y.drop_last().push(y.last()));
        }
    }
}

/// Adding or removing one token at the end of `w` moves its Levenshtein
/// distance from `u` by at most one.
proof fn lemma_lev_step<A>(u: Seq<A>, w: Seq<A>)
    requires
        w.len() > 0,
    ensures
        lev(u, w) <= lev(u, w.drop_last()) + 1,
        lev(u, w.drop_last()) <= lev(u, w) + 1,
    decreases u.len() + w.len(),
{
    if u.len() > 0 {
        let u1 = u.drop_last();
        let w1 = w.drop_last();
        lemma_lev_step(w1, u);
        lemma_symmetric(w1, u);
        lemma_symmetric(w1, u1);
        if u.last() != w.last() {
            lemma_lev_step(u1, w);
        }
    }
}

/// The Levenshtein recurrence holds with all three edits available, whether or
/// not the last tokens match.
proof fn lemma_lev_full<A>(x: Seq<A>, y: Seq<A>)
    requires
        x.len() > 0,
        y.len() > 0,
    ensures
        lev(x, y) <= lev(x.drop_last(), y) + 1,
        lev(x, y) <= lev(x, y.drop_last()) + 1,
        lev(x, y) <= lev(x.drop_last(), y.drop_last()) + if x.last() == y.last() { 0nat } else { 1 },
        lev(x, y) == lev(x.drop_last(), y) + 1 || lev(x, y) == lev(x, y.drop_last()) + 1 || lev(x, y)
            == lev(x.drop_last(), y.drop_last()) + if x.last() == y.last() { 0nat } else { 1 },
{
    lemma_lev_step(x, y);
    lemma_lev_step(y, x);
    lemma_symmetric(y, x);
    lemma_symmetric(y, x.drop_last());
}

/// Levenshtein distance obeys the triangle inequality.
pub proof fn lemma_lev_triangle<A>(x: Seq<A>, y: Seq<A>, z: Seq<A>)
    ensures
        lev(x, z) <= lev(x, y) + lev(y, z),
    decreases x.len() + y.len() + z.len(),
{
    lemma_length_bounds(x, y);
    lemma_length_bounds(y, z);
    lemma_length_bounds(x, z);
    if x.len() > 0 && y.len() > 0 && z.len() > 0 {
        let x1 = x.drop_last();
        let y1 = y.drop_last();
        let z1 = z.drop_last();
        lemma_lev_full(x, y);
        lemma_lev_full(y, z);
        lemma_lev_full(x, z);
        if lev(x, y) == lev(x1, y) + 1 {
            lemma_lev_triangle(x1, y, z);
        } else if lev(y, z) == lev(y, z1) + 1 {
            lemma_lev_triangle(x, y, z1);
        } else if lev(x, y) == lev(x, y1) + 1 {
            if lev(y, z) == lev(y1, z) + 1 {
                lemma_lev_triangle(x, y1, z);
            } else {
                lemma_lev_triangle(x, y1, z1);
            }
        } else {
            if lev(y, z) == lev(y1, z) + 1 {
                lemma_lev_triangle(x1, y1, z);
            } else {
                lemma_lev_triangle(x1, y1, z1);
            }
        }
    }
}

} // verus!
