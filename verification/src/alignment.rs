//! Fitting (semi-global) alignment of a pattern inside a window of text.

use vstd::prelude::*;

verus! {

/// The Levenshtein distance: the least number of substitutions, deletions and
/// insertions of one character that turn `p` into `w`.
pub open spec fn edit_distance(p: Seq<char>, w: Seq<char>) -> nat
    decreases p.len() + w.len(),
{
    if p.len() == 0 {
        w.len()
    } else if w.len() == 0 {
        p.len()
    } else {
        let sub = edit_distance(p.drop_last(), w.drop_last()) + mismatch(p.last(), w.last());
        let del = edit_distance(p.drop_last(), w) + 1;
        let ins = edit_distance(p, w.drop_last()) + 1;
        least(sub, del, ins)
    }
}

/// The cost of standing one character against another.
pub open spec fn mismatch(a: char, b: char) -> nat {
    if a == b {
        0
    } else {
        1
    }
}

pub open spec fn least(a: nat, b: nat, c: nat) -> nat {
    if a <= b && a <= c {
        a
    } else if b <= c {
        b
    } else {
        c
    }
}

/// The cheapest alignment of the first `i` characters of `p` with a span of `w`
/// that ends at `j`: its cost, and where the span starts. Of equally cheap ways
/// a substitution is preferred to a deletion, and a deletion to an insertion.
pub open spec fn fit(p: Seq<char>, w: Seq<char>, i: nat, j: nat) -> (nat, int)
    decreases i + j,
{
    if i == 0 {
        (0, j as int)
    } else if j == 0 {
        (i, 0)
    } else {
        let diagonal = fit(p, w, (i - 1) as nat, (j - 1) as nat);
        let above = fit(p, w, (i - 1) as nat, j);
        let left = fit(p, w, i, (j - 1) as nat);
        let sub = diagonal.0 + mismatch(p[i - 1], w[j - 1]);
        let del = above.0 + 1;
        let ins = left.0 + 1;
        if sub <= del && sub <= ins {
            (sub, diagonal.1)
        } else if del <= ins {
            (del, above.1)
        } else {
            (ins, left.1)
        }
    }
}

/// The cost of `fit` is the edit distance between the pattern and the span it
/// names, and no span that ends at the same place is closer.
pub proof fn fit_is_closest(p: Seq<char>, w: Seq<char>, i: nat, j: nat)
    requires
        i <= p.len(),
        j <= w.len(),
    ensures
        0 <= fit(p, w, i, j).1 <= j,
        fit(p, w, i, j).0 <= i,
        fit(p, w, i, j).0 == edit_distance(
            p.take(i as int),
            w.subrange(fit(p, w, i, j).1, j as int),
        ),
        forall|s: int|
            0 <= s <= j ==> fit(p, w, i, j).0 <= #[trigger] edit_distance(
                p.take(i as int),
                w.subrange(s, j as int),
            ),
    decreases i + j,
{
    let pi = p.take(i as int);
    if i == 0 {
        assert(w.subrange(j as int, j as int).len() == 0);
    } else if j == 0 {
        assert(w.subrange(0, 0).len() == 0);
    } else {
        fit_is_closest(p, w, (i - 1) as nat, (j - 1) as nat);
        fit_is_closest(p, w, (i - 1) as nat, j);
        fit_is_closest(p, w, i, (j - 1) as nat);
        let here = fit(p, w, i, j);
        assert(pi.drop_last() =~= p.take(i - 1));
        assert forall|s: int| 0 <= s <= j implies here.0 <= #[trigger] edit_distance(
            pi,
            w.subrange(s, j as int),
        ) by {
            let span = w.subrange(s, j as int);
            if s == j {
                assert(span.len() == 0);
                let above = fit(p, w, (i - 1) as nat, j);
                assert(above.0 <= edit_distance(p.take(i - 1), w.subrange(j as int, j as int)));
                assert(edit_distance(p.take(i - 1), w.subrange(j as int, j as int)) == i - 1);
            } else {
                assert(span.drop_last() =~= w.subrange(s, j - 1));
                assert(fit(p, w, (i - 1) as nat, (j - 1) as nat).0 <= edit_distance(
                    p.take(i - 1),
                    w.subrange(s, j - 1),
                ));
                assert(fit(p, w, (i - 1) as nat, j).0 <= edit_distance(
                    p.take(i - 1),
                    w.subrange(s, j as int),
                ));
                assert(fit(p, w, i, (j - 1) as nat).0 <= edit_distance(
                    p.take(i as int),
                    w.subrange(s, j - 1),
                ));
            }
        }
        let span = w.subrange(here.1, j as int);
        if here.1 == j {
            assert(span.len() == 0);
            assert(edit_distance(pi, span) == i);
            assert(here.0 <= i);
            let above = fit(p, w, (i - 1) as nat, j);
            assert(w.subrange(above.1, j as int).len() >= 0);
            assert(here == (above.0 + 1, above.1));
        } else {
            assert(span.drop_last() =~= w.subrange(here.1, j - 1));
            assert(edit_distance(pi, span) <= here.0);
        }
    }
}

/// The best fit of the whole of `p` in `w`: its cost, its start and its end.
/// Of equally cheap ends the first is taken.
pub open spec fn is_best_fit(p: Seq<char>, w: Seq<char>, cost: int, start: int, end: int) -> bool {
    &&& 0 <= end <= w.len()
    &&& fit(p, w, p.len(), end as nat) == (cost as nat, start)
    &&& cost >= 0
    &&& forall|j: nat| j <= w.len() ==> cost <= (#[trigger] fit(p, w, p.len(), j)).0
    &&& forall|j: nat| j < end ==> cost < (#[trigger] fit(p, w, p.len(), j)).0
}

/// The first column up to `j` at which the whole of `p` fits most cheaply.
pub open spec fn best_end(p: Seq<char>, w: Seq<char>, j: nat) -> nat
    decreases j,
{
    if j == 0 {
        0
    } else {
        let before = best_end(p, w, (j - 1) as nat);
        if fit(p, w, p.len(), j).0 < fit(p, w, p.len(), before).0 {
            j
        } else {
            before
        }
    }
}

/// The cost, the start and the end of the best fit of `p` in `w`.
pub open spec fn best_fit(p: Seq<char>, w: Seq<char>) -> (int, int, int) {
    let end = best_end(p, w, w.len());
    let cell = fit(p, w, p.len(), end);
    (cell.0 as int, cell.1, end as int)
}

proof fn best_end_is_first(p: Seq<char>, w: Seq<char>, j: nat)
    ensures
        best_end(p, w, j) <= j,
        forall|q: nat| q <= j ==> fit(p, w, p.len(), best_end(p, w, j)).0 <= (#[trigger] fit(
            p,
            w,
            p.len(),
            q,
        )).0,
        forall|q: nat| q < best_end(p, w, j) ==> fit(p, w, p.len(), best_end(p, w, j)).0 < (
        #[trigger] fit(p, w, p.len(), q)).0,
    decreases j,
{
    if j > 0 {
        best_end_is_first(p, w, (j - 1) as nat);
    }
}

/// `best_fit` is the best fit.
pub proof fn best_fit_is_best(p: Seq<char>, w: Seq<char>)
    ensures
        is_best_fit(p, w, best_fit(p, w).0, best_fit(p, w).1, best_fit(p, w).2),
{
    best_end_is_first(p, w, w.len());
}

/// The best fit is a span of the window whose edit distance from the pattern is
/// the cost, no span of the window is closer, and none as close ends earlier.
pub proof fn best_fit_is_closest_span(
    p: Seq<char>,
    w: Seq<char>,
    cost: int,
    start: int,
    end: int,
    a: int,
    b: int,
)
    requires
        is_best_fit(p, w, cost, start, end),
        0 <= a <= b <= w.len(),
    ensures
        0 <= start <= end,
        cost == edit_distance(p, w.subrange(start, end)),
        cost <= edit_distance(p, w.subrange(a, b)),
        b < end ==> cost < edit_distance(p, w.subrange(a, b)),
        cost <= p.len(),
{
    assert(p.take(p.len() as int) =~= p);
    fit_is_closest(p, w, p.len(), end as nat);
    fit_is_closest(p, w, p.len(), b as nat);
    assert(cost <= fit(p, w, p.len(), b as nat).0);
}

/// `cost` and `origin` hold row `i` of the alignment table from column 1 on.
spec fn is_row(p: Seq<char>, w: Seq<char>, i: nat, cost: Seq<usize>, origin: Seq<usize>) -> bool {
    &&& cost.len() == origin.len()
    &&& forall|j: int|
        0 <= j < cost.len() ==> {
            &&& fit(p, w, i, (j + 1) as nat) == (#[trigger] cost[j] as nat, origin[j] as int)
            &&& cost[j] <= i
            &&& origin[j] <= j + 1
        }
}

/// Row `i + 1` of the alignment table from row `i`.
fn next_row(
    pattern: &[char],
    window: &[char],
    i: usize,
    cost: &Vec<usize>,
    origin: &Vec<usize>,
) -> (r: (Vec<usize>, Vec<usize>))
    requires
        i < pattern@.len(),
        cost@.len() == window@.len(),
        is_row(pattern@, window@, i as nat, cost@, origin@),
    ensures
        r.0@.len() == window@.len(),
        is_row(pattern@, window@, i as nat + 1, r.0@, r.1@),
{
    let m: usize = pattern.len();
    let w: usize = window.len();
    let mut next: Vec<usize> = Vec::new();
    let mut next_origin: Vec<usize> = Vec::new();
    let mut j: usize = 0;
    while j < w
        invariant
            j <= w == window@.len(),
            i < m == pattern@.len(),
            cost@.len() == w,
            is_row(pattern@, window@, i as nat, cost@, origin@),
            next@.len() == j,
            is_row(pattern@, window@, i as nat + 1, next@, next_origin@),
        decreases w - j,
    {
        let differs: usize = if pattern[i] != window[j] {
            1
        } else {
            0
        };
        let (diagonal, diagonal_origin): (usize, usize) = if j == 0 {
            (i, 0)
        } else {
            (cost[j - 1], origin[j - 1])
        };
        let (left, left_origin): (usize, usize) = if j == 0 {
            (i + 1, 0)
        } else {
            (next[j - 1], next_origin[j - 1])
        };
        assert(fit(pattern@, window@, i as nat, j as nat) == (
            diagonal as nat,
            diagonal_origin as int,
        ));
        assert(fit(pattern@, window@, i as nat + 1, j as nat) == (left as nat, left_origin as int));
        let sub: usize = diagonal + differs;
        let del: usize = cost[j] + 1;
        if sub <= del && (sub == 0 || sub - 1 <= left) {
            next.push(sub);
            next_origin.push(diagonal_origin);
        } else if del - 1 <= left {
            next.push(del);
            next_origin.push(origin[j]);
        } else {
            next.push(left + 1);
            next_origin.push(left_origin);
        }
        j += 1;
    }
    (next, next_origin)
}

/// Aligns the whole of `pattern` with some span of `window`. Returns the edit
/// distance, and the start and end of the span.
pub fn fitting_alignment(pattern: &[char], window: &[char]) -> (r: (usize, usize, usize))
    ensures
        (r.0 as int, r.1 as int, r.2 as int) == best_fit(pattern@, window@),
        r.1 <= r.2 <= window@.len(),
        r.0 <= pattern@.len(),
{
    let w: usize = window.len();
    let mut cost: Vec<usize> = Vec::new();
    let mut origin: Vec<usize> = Vec::new();
    let mut c: usize = 0;
    while c < w
        invariant
            c <= w,
            cost@.len() == c,
            is_row(pattern@, window@, 0, cost@, origin@),
        decreases w - c,
    {
        cost.push(0);
        origin.push(c + 1);
        c += 1;
    }
    let mut i: usize = 0;
    while i < pattern.len()
        invariant
            i <= pattern@.len(),
            w == window@.len(),
            cost@.len() == w,
            is_row(pattern@, window@, i as nat, cost@, origin@),
        decreases pattern@.len() - i,
    {
        let (next, next_origin) = next_row(pattern, window, i, &cost, &origin);
        cost = next;
        origin = next_origin;
        i += 1;
    }
    let mut best: usize = pattern.len();
    let mut start: usize = 0;
    let mut end: usize = 0;
    let mut j: usize = 0;
    let ghost p = pattern@;
    let ghost t = window@;
    assert(fit(p, t, p.len(), 0) == (p.len(), 0int));
    while j < w
        invariant
            0 <= j <= w == t.len(),
            cost@.len() == w,
            is_row(p, t, p.len(), cost@, origin@),
            start <= end <= j,
            best <= p.len(),
            fit(p, t, p.len(), end as nat) == (best as nat, start as int),
            end == best_end(p, t, j as nat),
        decreases w - j,
    {
        assert(fit(p, t, p.len(), (j + 1) as nat) == (
            cost@[j as int] as nat,
            origin@[j as int] as int,
        ));
        if cost[j] < best {
            best = cost[j];
            start = origin[j];
            end = j + 1;
        }
        j += 1;
    }
    (best, start, end)
}

// ---------------------------------------------------------------------------
// Laws.

/// The distance of two texts is zero exactly where they are the same; it is never less than
/// the difference of their lengths, nor more than the longer is long.
pub proof fn only_equal_texts_are_at_no_distance(p: Seq<char>, w: Seq<char>)
    ensures
        edit_distance(p, w) == 0 <==> p == w,
        edit_distance(p, w) >= p.len() - w.len(),
        edit_distance(p, w) >= w.len() - p.len(),
        edit_distance(p, w) <= if p.len() >= w.len() {
            p.len()
        } else {
            w.len()
        },
    decreases p.len() + w.len(),
{
    if p.len() == 0 {
        if w.len() == 0 {
            assert(p =~= w);
        }
    } else if w.len() == 0 {
    } else {
        let (a, b) = (p.drop_last(), w.drop_last());
        only_equal_texts_are_at_no_distance(a, b);
        only_equal_texts_are_at_no_distance(a, w);
        only_equal_texts_are_at_no_distance(p, b);
        if p.last() == w.last() && a == b {
            assert(p =~= a.push(p.last()));
            assert(w =~= b.push(w.last()));
        }
    }
}

/// One character more on either side, or another one at the end, is one edit more at most;
/// the same one more on both sides is none.
pub proof fn one_character_is_one_edit(p: Seq<char>, w: Seq<char>, c: char, d: char)
    ensures
        edit_distance(p.push(c), w) <= edit_distance(p, w) + 1,
        edit_distance(p, w.push(d)) <= edit_distance(p, w) + 1,
        edit_distance(p.push(c), w.push(d)) <= edit_distance(p, w) + 1,
        edit_distance(p.push(c), w.push(c)) <= edit_distance(p, w),
{
    assert(p.push(c).drop_last() =~= p);
    assert(w.push(d).drop_last() =~= w);
    assert(w.push(c).drop_last() =~= w);
    if w.len() == 0 && p.len() > 0 {
        assert(edit_distance(p, w) == p.len());
    }
}

/// The distance does not depend on which text comes first.
pub proof fn distances_are_the_same_both_ways(p: Seq<char>, w: Seq<char>)
    ensures
        edit_distance(p, w) == edit_distance(w, p),
    decreases p.len() + w.len(),
{
    if p.len() > 0 && w.len() > 0 {
        distances_are_the_same_both_ways(p.drop_last(), w.drop_last());
        distances_are_the_same_both_ways(p.drop_last(), w);
        distances_are_the_same_both_ways(p, w.drop_last());
    }
}

/// Of equally cheap ways to end an alignment, standing one character against another comes
/// first, then leaving out one of the pattern, then one of the text: the span begins where it
/// does on the first of these ways that is as cheap as any.
pub proof fn equally_cheap_ways_have_their_order(p: Seq<char>, w: Seq<char>, i: nat, j: nat)
    requires
        0 < i <= p.len(),
        0 < j <= w.len(),
    ensures
        ({
            let cell = fit(p, w, i, j);
            let diagonal = fit(p, w, (i - 1) as nat, (j - 1) as nat);
            let above = fit(p, w, (i - 1) as nat, j);
            let left = fit(p, w, i, (j - 1) as nat);
            let stands = diagonal.0 + if p[i - 1] == w[j - 1] {
                0nat
            } else {
                1
            };
            &&& cell.0 <= stands && cell.0 <= above.0 + 1 && cell.0 <= left.0 + 1
            &&& cell.0 == stands ==> cell.1 == diagonal.1
            &&& cell.0 != stands && cell.0 == above.0 + 1 ==> cell.1 == above.1
            &&& cell.0 != stands && cell.0 != above.0 + 1 ==> cell.0 == left.0 + 1 && cell.1 == left.1
        }),
{
}

} // verus!
