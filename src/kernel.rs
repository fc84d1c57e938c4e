use vstd::prelude::*;
use vstd::laws_eq::obeys_view_eq;
use vstd::slice::slice_subrange;
use vstd::arithmetic::div_mod::lemma_fundamental_div_mod_converse;
use crate::metric::{lev, osa, lemma_length_bounds, swapped_tail};

verus! {

/// The views of a sequence of tokens.
pub open spec fn views<T: View>(s: Seq<T>) -> Seq<T::V> {
    s.map_values(|t: T| t@)
}

/// Marks a memo cell whose distance has not been computed yet.
pub const UNRESOLVED: usize = usize::MAX;

/// The length of the prefix of `x` whose distance memo cell `k` holds, in rows of `ny`.
pub open spec fn cell_row(k: int, ny: nat) -> int {
    k / (ny as int) + 1
}

/// The length of the prefix of `y` whose distance memo cell `k` holds, in rows of `ny`.
pub open spec fn cell_col(k: int, ny: nat) -> int {
    k % (ny as int) + 1
}

/// Levenshtein distance as a function value.
pub open spec fn lev_fn<V>() -> spec_fn(Seq<V>, Seq<V>) -> nat {
    |a: Seq<V>, b: Seq<V>| lev(a, b)
}

/// OSA distance as a function value.
pub open spec fn osa_fn<V>() -> spec_fn(Seq<V>, Seq<V>) -> nat {
    |a: Seq<V>, b: Seq<V>| osa(a, b)
}

/// Every memo cell for non-empty prefixes of `x` and `y` is unresolved or holds
/// `dist` of those prefixes.
pub open spec fn memo_ok<V>(
    memo: Seq<usize>,
    x: Seq<V>,
    y: Seq<V>,
    ny: nat,
    dist: spec_fn(Seq<V>, Seq<V>) -> nat,
) -> bool {
    forall|k: int|
        #![trigger memo[k]]
        0 <= k < memo.len() && 1 <= cell_row(k, ny) <= x.len() && 1 <= cell_col(k, ny) <= y.len()
            ==> memo[k] == UNRESOLVED || memo[k] == dist(
            x.take(cell_row(k, ny)),
            y.take(cell_col(k, ny)),
        )
}

/// The memo cells outside the prefixes of lengths up to `nx` and `my` are as they were.
pub open spec fn memo_frame(new: Seq<usize>, old: Seq<usize>, nx: nat, my: nat, ny: nat) -> bool {
    &&& new.len() == old.len()
    &&& forall|k: int|
        #![trigger new[k]]
        0 <= k < new.len() && !(1 <= cell_row(k, ny) <= nx && 1 <= cell_col(k, ny) <= my)
            ==> new[k] == old[k]
}

proof fn lemma_memo_restrict<V>(
    memo: Seq<usize>,
    x: Seq<V>,
    y: Seq<V>,
    x2: Seq<V>,
    y2: Seq<V>,
    ny: nat,
    dist: spec_fn(Seq<V>, Seq<V>) -> nat,
)
    requires
        memo_ok(memo, x, y, ny, dist),
        x2.len() <= x.len(),
        y2.len() <= y.len(),
        x2 == x.take(x2.len() as int),
        y2 == y.take(y2.len() as int),
    ensures
        memo_ok(memo, x2, y2, ny, dist),
{
    assert forall|k: int|
        #![trigger memo[k]]
        0 <= k < memo.len() && 1 <= cell_row(k, ny) <= x2.len() && 1 <= cell_col(k, ny)
            <= y2.len() implies memo[k] == UNRESOLVED || memo[k] == dist(
        x2.take(cell_row(k, ny)),
        y2.take(cell_col(k, ny)),
    ) by {
        assert(x2.take(cell_row(k, ny)) =~= x.take(cell_row(k, ny)));
        assert(y2.take(cell_col(k, ny)) =~= y.take(cell_col(k, ny)));
    }
}

proof fn lemma_memo_restore<V>(
    new: Seq<usize>,
    old: Seq<usize>,
    x: Seq<V>,
    y: Seq<V>,
    x2: Seq<V>,
    y2: Seq<V>,
    ny: nat,
    dist: spec_fn(Seq<V>, Seq<V>) -> nat,
)
    requires
        memo_ok(old, x, y, ny, dist),
        memo_ok(new, x2, y2, ny, dist),
        memo_frame(new, old, x2.len(), y2.len(), ny),
        x2.len() <= x.len(),
        y2.len() <= y.len(),
        x2 == x.take(x2.len() as int),
        y2 == y.take(y2.len() as int),
    ensures
        memo_ok(new, x, y, ny, dist),
{
    assert forall|k: int|
        #![trigger new[k]]
        0 <= k < new.len() && 1 <= cell_row(k, ny) <= x.len() && 1 <= cell_col(k, ny)
            <= y.len() implies new[k] == UNRESOLVED || new[k] == dist(
        x.take(cell_row(k, ny)),
        y.take(cell_col(k, ny)),
    ) by {
        if cell_row(k, ny) <= x2.len() && cell_col(k, ny) <= y2.len() {
            assert(x2.take(cell_row(k, ny)) =~= x.take(cell_row(k, ny)));
            assert(y2.take(cell_col(k, ny)) =~= y.take(cell_col(k, ny)));
        } else {
            assert(new[k] == old[k]);
        }
    }
}

proof fn lemma_frame_widen(
    m2: Seq<usize>,
    m1: Seq<usize>,
    m0: Seq<usize>,
    a: nat,
    b: nat,
    nx: nat,
    my: nat,
    ny: nat,
)
    requires
        memo_frame(m2, m1, a, b, ny),
        memo_frame(m1, m0, nx, my, ny),
        a <= nx,
        b <= my,
    ensures
        memo_frame(m2, m0, nx, my, ny),
{
    assert forall|k: int|
        #![trigger m2[k]]
        0 <= k < m2.len() && !(1 <= cell_row(k, ny) <= nx && 1 <= cell_col(k, ny) <= my)
            implies m2[k] == m0[k] by {
        assert(m2[k] == m1[k]);
        assert(m1[k] == m0[k]);
    }
}

/// The memo index of the prefixes of lengths `i` and `j` (both at least 1).
proof fn lemma_cell(i: int, j: int, ny: int)
    requires
        1 <= i,
        1 <= j <= ny,
    ensures
        0 <= (i - 1) * ny + j - 1 < i * ny,
        cell_row((i - 1) * ny + j - 1, ny as nat) == i,
        cell_col((i - 1) * ny + j - 1, ny as nat) == j,
{
    assert(0 <= (i - 1) * ny) by (nonlinear_arith)
        requires
            1 <= i,
            1 <= ny,
    ;
    assert((i - 1) * ny + ny == i * ny) by (nonlinear_arith);
    lemma_fundamental_div_mod_converse((i - 1) * ny + j - 1, ny, i - 1, j - 1);
}

proof fn lemma_views_prefix<T: View>(s: Seq<T>, n: int)
    requires
        0 <= n <= s.len(),
    ensures
        views(s.subrange(0, n)) == views(s).take(n),
        views(s.subrange(0, n)).len() == n,
        views(s).len() == s.len(),
        views(s).take(s.len() as int) == views(s),
{
    assert(views(s.subrange(0, n)) =~= views(s).take(n));
    assert(views(s).take(s.len() as int) =~= views(s));
}

/// Levenshtein distance of `x` and `y`, by memoized recursion over prefixes.
pub fn levenshtein_distance<T>(x: &[T], y: &[T]) -> (r: usize)
    where
        T: std::cmp::Eq + View,
    requires
        obeys_view_eq::<T>(),
        x@.len() * y@.len() <= usize::MAX,
    ensures
        r == lev(views(x@), views(y@)),
{
    let nx = x.len();
    let ny = y.len();
    let mut memo = vec![UNRESOLVED; nx * ny];
    proof {
        assert(x@.len() * y@.len() <= memo@.len());
    }
    levenshtein_distance_helper(x, y, &mut memo, ny)
}

/// Levenshtein distance of `x` and `y`, reading and filling `memo`, a table of
/// rows of `ny` cells indexed by the lengths of prefixes of the outermost inputs.
pub fn levenshtein_distance_helper<T>(x: &[T], y: &[T], memo: &mut Vec<usize>, ny: usize) -> (r: usize)
    where
        T: std::cmp::Eq + View,
    requires
        obeys_view_eq::<T>(),
        y@.len() <= ny,
        x@.len() * ny <= old(memo)@.len(),
        memo_ok(old(memo)@, views(x@), views(y@), ny as nat, lev_fn()),
    ensures
        r == lev(views(x@), views(y@)),
        memo_ok(final(memo)@, views(x@), views(y@), ny as nat, lev_fn()),
        memo_frame(final(memo)@, old(memo)@, x@.len(), y@.len(), ny as nat),
    decreases x@.len() + y@.len(),
{
    let ghost xv = views(x@);
    let ghost yv = views(y@);
    let ghost m0 = memo@;
    proof {
        lemma_views_prefix(x@, 0);
        lemma_views_prefix(y@, 0);
    }
    if x.len() == 0 || y.len() == 0 {
        return if x.len() >= y.len() { x.len() } else { y.len() };
    }
    let cells = memo.len();
    proof {
        lemma_cell(x@.len() as int, y@.len() as int, ny as int);
        lemma_length_bounds(xv, yv);
        lemma_length_bounds(xv.drop_last(), yv.drop_last());
        reveal(obeys_view_eq);
        assert(memo@.len() == cells);
        assert((x@.len() - 1) * ny <= (x@.len() - 1) * ny + y@.len() - 1);
    }
    let idx = (x.len() - 1) * ny + y.len() - 1;
    if memo[idx] != UNRESOLVED {
        return memo[idx];
    }
    let xs = slice_subrange(x, 0, x.len() - 1);
    let ys = slice_subrange(y, 0, y.len() - 1);
    proof {
        lemma_views_prefix(x@, x@.len() - 1);
        lemma_views_prefix(y@, y@.len() - 1);
        assert(xv.drop_last() == xv.take(xv.len() - 1));
        assert(yv.drop_last() == yv.take(yv.len() - 1));
    }
    let d = if x[x.len() - 1] == y[y.len() - 1] {
        proof {
            lemma_memo_restrict(memo@, xv, yv, views(xs@), views(ys@), ny as nat, lev_fn());
        }
        let d = levenshtein_distance_helper(xs, ys, memo, ny);
        proof {
            lemma_memo_restore(memo@, m0, xv, yv, views(xs@), views(ys@), ny as nat, lev_fn());
        }
        d
    } else {
        proof {
            lemma_memo_restrict(memo@, xv, yv, views(xs@), yv, ny as nat, lev_fn());
        }
        let insert = levenshtein_distance_helper(xs, y, memo, ny);
        let ghost m1 = memo@;
        proof {
            lemma_memo_restore(memo@, m0, xv, yv, views(xs@), yv, ny as nat, lev_fn());
            lemma_memo_restrict(memo@, xv, yv, xv, views(ys@), ny as nat, lev_fn());
        }
        let delete = levenshtein_distance_helper(x, ys, memo, ny);
        let ghost m2 = memo@;
        proof {
            lemma_memo_restore(memo@, m1, xv, yv, xv, views(ys@), ny as nat, lev_fn());
            lemma_frame_widen(m2, m1, m0, x@.len(), (y@.len() - 1) as nat, x@.len(), y@.len(), ny as nat);
            lemma_memo_restrict(memo@, xv, yv, views(xs@), views(ys@), ny as nat, lev_fn());
        }
        let replace = levenshtein_distance_helper(xs, ys, memo, ny);
        proof {
            lemma_memo_restore(memo@, m2, xv, yv, views(xs@), views(ys@), ny as nat, lev_fn());
            lemma_frame_widen(memo@, m2, m0, (x@.len() - 1) as nat, (y@.len() - 1) as nat, x@.len(), y@.len(), ny as nat);
        }
        let m = if insert <= delete { insert } else { delete };
        let m = if m <= replace { m } else { replace };
        m + 1
    };
    let ghost m3 = memo@;
    memo.set(idx, d);
    proof {
        assert(memo_frame(memo@, m3, x@.len(), y@.len(), ny as nat));
        lemma_frame_widen(memo@, m3, m0, x@.len(), y@.len(), x@.len(), y@.len(), ny as nat);
        assert(memo_ok(memo@, xv, yv, ny as nat, lev_fn())) by {
            assert forall|k: int|
                #![trigger memo@[k]]
                0 <= k < memo@.len() && 1 <= cell_row(k, ny as nat) <= xv.len() && 1 <= cell_col(k, ny as nat)
                    <= yv.len() implies memo@[k] == UNRESOLVED || memo@[k] == lev_fn()(
                xv.take(cell_row(k, ny as nat)),
                yv.take(cell_col(k, ny as nat)),
            ) by {
                if k != idx {
                    assert(memo@[k] == m3[k]);
                }
            }
        }
    }
    d
}

/// OSA distance of `x` and `y`, by memoized recursion over prefixes.
pub fn osa_distance<T>(x: &[T], y: &[T]) -> (r: usize)
    where
        T: std::cmp::Eq + View,
    requires
        obeys_view_eq::<T>(),
        x@.len() * y@.len() <= usize::MAX,
    ensures
        r == osa(views(x@), views(y@)),
{
    let nx = x.len();
    let ny = y.len();
    let mut memo = vec![UNRESOLVED; nx * ny];
    proof {
        assert(x@.len() * y@.len() <= memo@.len());
    }
    osa_distance_helper(x, y, &mut memo, ny)
}

/// OSA distance of `x` and `y`, reading and filling `memo`, a table of
/// rows of `ny` cells indexed by the lengths of prefixes of the outermost inputs.
pub fn osa_distance_helper<T>(x: &[T], y: &[T], memo: &mut Vec<usize>, ny: usize) -> (r: usize)
    where
        T: std::cmp::Eq + View,
    requires
        obeys_view_eq::<T>(),
        y@.len() <= ny,
        x@.len() * ny <= old(memo)@.len(),
        memo_ok(old(memo)@, views(x@), views(y@), ny as nat, osa_fn()),
    ensures
        r == osa(views(x@), views(y@)),
        memo_ok(final(memo)@, views(x@), views(y@), ny as nat, osa_fn()),
        memo_frame(final(memo)@, old(memo)@, x@.len(), y@.len(), ny as nat),
    decreases x@.len() + y@.len(),
{
    let ghost xv = views(x@);
    let ghost yv = views(y@);
    let ghost m0 = memo@;
    proof {
        lemma_views_prefix(x@, 0);
        lemma_views_prefix(y@, 0);
    }
    if x.len() == 0 || y.len() == 0 {
        return if x.len() >= y.len() { x.len() } else { y.len() };
    }
    let cells = memo.len();
    proof {
        lemma_cell(x@.len() as int, y@.len() as int, ny as int);
        lemma_length_bounds(xv, yv);
        lemma_length_bounds(xv.drop_last(), yv.drop_last());
        reveal(obeys_view_eq);
        assert(memo@.len() == cells);
        assert((x@.len() - 1) * ny <= (x@.len() - 1) * ny + y@.len() - 1);
    }
    let idx = (x.len() - 1) * ny + y.len() - 1;
    if memo[idx] != UNRESOLVED {
        return memo[idx];
    }
    let xs = slice_subrange(x, 0, x.len() - 1);
    let ys = slice_subrange(y, 0, y.len() - 1);
    proof {
        lemma_views_prefix(x@, x@.len() - 1);
        lemma_views_prefix(y@, y@.len() - 1);
        assert(xv.drop_last() == xv.take(xv.len() - 1));
        assert(yv.drop_last() == yv.take(yv.len() - 1));
    }
    let d = if x[x.len() - 1] == y[y.len() - 1] {
        proof {
            lemma_memo_restrict(memo@, xv, yv, views(xs@), views(ys@), ny as nat, osa_fn());
        }
        let d = osa_distance_helper(xs, ys, memo, ny);
        proof {
            lemma_memo_restore(memo@, m0, xv, yv, views(xs@), views(ys@), ny as nat, osa_fn());
        }
        d
    } else {
        proof {
            lemma_memo_restrict(memo@, xv, yv, views(xs@), yv, ny as nat, osa_fn());
        }
        let insert = osa_distance_helper(xs, y, memo, ny);
        let ghost m1 = memo@;
        proof {
            lemma_memo_restore(memo@, m0, xv, yv, views(xs@), yv, ny as nat, osa_fn());
            lemma_memo_restrict(memo@, xv, yv, xv, views(ys@), ny as nat, osa_fn());
        }
        let delete = osa_distance_helper(x, ys, memo, ny);
        let ghost m2 = memo@;
        proof {
            lemma_memo_restore(memo@, m1, xv, yv, xv, views(ys@), ny as nat, osa_fn());
            lemma_frame_widen(m2, m1, m0, x@.len(), (y@.len() - 1) as nat, x@.len(), y@.len(), ny as nat);
            lemma_memo_restrict(memo@, xv, yv, views(xs@), views(ys@), ny as nat, osa_fn());
        }
        let replace = osa_distance_helper(xs, ys, memo, ny);
        proof {
            lemma_memo_restore(memo@, m2, xv, yv, views(xs@), views(ys@), ny as nat, osa_fn());
            lemma_frame_widen(memo@, m2, m0, (x@.len() - 1) as nat, (y@.len() - 1) as nat, x@.len(), y@.len(), ny as nat);
        }
        let ghost m3 = memo@;
        let transpose = if x.len() >= 2 && y.len() >= 2 && x[x.len() - 1] == y[y.len() - 2] && x[x.len() - 2] == y[y.len() - 1] {
            let xss = slice_subrange(x, 0, x.len() - 2);
            let yss = slice_subrange(y, 0, y.len() - 2);
            proof {
                lemma_views_prefix(x@, x@.len() - 2);
                lemma_views_prefix(y@, y@.len() - 2);
                assert(swapped_tail(xv, yv));
                assert(xv.subrange(0, xv.len() - 2) == xv.take(xv.len() - 2));
                assert(yv.subrange(0, yv.len() - 2) == yv.take(yv.len() - 2));
                lemma_length_bounds(xv.subrange(0, xv.len() - 2), yv.subrange(0, yv.len() - 2));
                lemma_memo_restrict(memo@, xv, yv, views(xss@), views(yss@), ny as nat, osa_fn());
                assert((x@.len() - 2) * ny <= x@.len() * ny) by (nonlinear_arith)
                    requires
                        x@.len() >= 2,
                ;
            }
            let t = osa_distance_helper(xss, yss, memo, ny);
            proof {
                lemma_memo_restore(memo@, m3, xv, yv, views(xss@), views(yss@), ny as nat, osa_fn());
                lemma_frame_widen(memo@, m3, m0, (x@.len() - 2) as nat, (y@.len() - 2) as nat, x@.len(), y@.len(), ny as nat);
            }
            t
        } else {
            proof {
                assert(!swapped_tail(xv, yv));
            }
            insert
        };
        let m = if insert <= delete { insert } else { delete };
        let m = if m <= replace { m } else { replace };
        let m = if m <= transpose { m } else { transpose };
        m + 1
    };
    let ghost m4 = memo@;
    memo.set(idx, d);
    proof {
        assert(memo_frame(memo@, m4, x@.len(), y@.len(), ny as nat));
        lemma_frame_widen(memo@, m4, m0, x@.len(), y@.len(), x@.len(), y@.len(), ny as nat);
        assert(memo_ok(memo@, xv, yv, ny as nat, osa_fn())) by {
            assert forall|k: int|
                #![trigger memo@[k]]
                0 <= k < memo@.len() && 1 <= cell_row(k, ny as nat) <= xv.len() && 1 <= cell_col(k, ny as nat)
                    <= yv.len() implies memo@[k] == UNRESOLVED || memo@[k] == osa_fn()(
                xv.take(cell_row(k, ny as nat)),
                yv.take(cell_col(k, ny as nat)),
            ) by {
                if k != idx {
                    assert(memo@[k] == m4[k]);
                }
            }
        }
    }
    d
}

} // verus!
