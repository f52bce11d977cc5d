//! Seed and vote: where in a text a pattern may have been meant, by the short
//! character runs that both share.

use vstd::prelude::*;

verus! {

/// The run of `k` characters of `s` at `i`.
pub open spec fn gram(s: Seq<char>, i: int, k: int) -> Seq<char> {
    s.subrange(i, i + k)
}

/// How many of the first `n` places of `text` begin with the run `g`.
pub open spec fn frequency(text: Seq<char>, g: Seq<char>, n: int) -> nat
    decreases n,
{
    if n <= 0 {
        0
    } else {
        frequency(text, g, n - 1) + if gram(text, n - 1, g.len() as int) == g {
            1nat
        } else {
            0nat
        }
    }
}

/// How often the run of `pattern` at `off` stands in `text`.
pub open spec fn occurrence_count(text: Seq<char>, pattern: Seq<char>, k: int, off: int) -> nat {
    frequency(text, gram(pattern, off, k), text.len() - k + 1)
}

/// How many of the first `n` runs of `pattern` stand in `text`, and at most
/// `most` times.
pub open spec fn informative_count(
    text: Seq<char>,
    pattern: Seq<char>,
    k: int,
    most: int,
    n: int,
) -> nat
    decreases n,
{
    if n <= 0 {
        0
    } else {
        let f = occurrence_count(text, pattern, k, n - 1);
        informative_count(text, pattern, k, most, n - 1) + if 1 <= f <= most {
            1nat
        } else {
            0nat
        }
    }
}

/// The run of `pattern` at `off` stands in `text` where it would if the pattern
/// began at `start`, and it is not too common there.
pub open spec fn supports(
    text: Seq<char>,
    pattern: Seq<char>,
    k: int,
    most: int,
    start: int,
    off: int,
) -> bool {
    &&& 0 <= start + off <= text.len() - k
    &&& gram(text, start + off, k) == gram(pattern, off, k)
    &&& occurrence_count(text, pattern, k, off) <= most
}

/// How many of the first `n` runs of `pattern` vote for the start `start`.
pub open spec fn votes_for(
    text: Seq<char>,
    pattern: Seq<char>,
    k: int,
    most: int,
    start: int,
    n: int,
) -> nat
    decreases n,
{
    if n <= 0 {
        0
    } else {
        votes_for(text, pattern, k, most, start, n - 1) + if supports(
            text,
            pattern,
            k,
            most,
            start,
            n - 1,
        ) {
            1nat
        } else {
            0nat
        }
    }
}

/// Implied starts that lie close together, with the votes of all of them.
#[derive(Clone, Copy, Debug, PartialEq, Eq, Structural)]
pub struct Cluster {
    pub lo: i128,
    pub hi: i128,
    pub votes: u128,
}

/// A sum of votes; one beyond the counter's range stays at its end.
pub open spec fn added(a: u128, b: nat) -> u128 {
    if a + b > u128::MAX {
        u128::MAX
    } else {
        (a + b) as u128
    }
}

/// `found` with a start and its votes: it joins the last cluster where it is no
/// further than `band` from that cluster's end, and begins a new one otherwise.
pub open spec fn with_start(found: Seq<Cluster>, start: i128, votes: nat, band: int) -> Seq<Cluster> {
    if found.len() > 0 && start - found.last().hi <= band {
        found.drop_last().push(
            Cluster { lo: found.last().lo, hi: start, votes: added(found.last().votes, votes) },
        )
    } else {
        found.push(Cluster { lo: start, hi: start, votes: added(0, votes) })
    }
}

/// The clusters of the starts from `from` up to, but not at, `to` that have a
/// vote.
pub open spec fn clusters(
    text: Seq<char>,
    pattern: Seq<char>,
    k: int,
    most: int,
    band: int,
    from: int,
    to: int,
) -> Seq<Cluster>
    decreases to - from,
{
    if to <= from {
        Seq::empty()
    } else {
        let before = clusters(text, pattern, k, most, band, from, to - 1);
        let votes = votes_for(text, pattern, k, most, to - 1, pattern.len() - k + 1);
        if votes == 0 {
            before
        } else {
            with_start(before, (to - 1) as i128, votes, band)
        }
    }
}

/// Whether the runs of `k` characters of `a` at `i` and of `b` at `j` are equal.
fn same_gram(a: &[char], i: usize, b: &[char], j: usize, k: usize) -> (r: bool)
    requires
        i + k <= a@.len(),
        j + k <= b@.len(),
    ensures
        r == (gram(a@, i as int, k as int) == gram(b@, j as int, k as int)),
{
    let n = a.len();
    let m = b.len();
    let ghost x = gram(a@, i as int, k as int);
    let ghost y = gram(b@, j as int, k as int);
    let mut q: usize = 0;
    while q < k
        invariant
            q <= k,
            i + k <= n == a@.len(),
            j + k <= m == b@.len(),
            x == gram(a@, i as int, k as int),
            y == gram(b@, j as int, k as int),
            forall|t: int| 0 <= t < q ==> #[trigger] x[t] == y[t],
        decreases k - q,
    {
        if a[i + q] != b[j + q] {
            assert(x[q as int] != y[q as int]);
            return false;
        }
        assert(x[q as int] == y[q as int]);
        q += 1;
    }
    assert(x =~= y);
    true
}

/// How often the run of `pattern` at `off` stands in `text`.
fn count_gram(text: &[char], pattern: &[char], k: usize, off: usize) -> (r: u128)
    requires
        k <= text@.len(),
        off + k <= pattern@.len(),
    ensures
        r == occurrence_count(text@, pattern@, k as int, off as int),
{
    let last: u128 = (text.len() - k) as u128;
    let mut i: u128 = 0;
    let mut n: u128 = 0;
    let ghost g = gram(pattern@, off as int, k as int);
    while i <= last
        invariant
            i <= last + 1,
            last == text@.len() - k,
            last <= usize::MAX,
            k <= text@.len(),
            off + k <= pattern@.len(),
            g == gram(pattern@, off as int, k as int),
            n <= i,
            n == frequency(text@, g, i as int),
        decreases last + 1 - i,
    {
        if same_gram(text, i as usize, pattern, off, k) {
            n += 1;
        }
        i += 1;
    }
    n
}

/// How often each run of the pattern stands in the text.
fn gram_counts(text: &[char], pattern: &[char], k: usize) -> (r: Vec<u128>)
    requires
        k <= text@.len(),
        k <= pattern@.len(),
    ensures
        r@.len() == pattern@.len() - k + 1,
        forall|off: int|
            0 <= off < r@.len() ==> #[trigger] r@[off] == occurrence_count(
                text@,
                pattern@,
                k as int,
                off,
            ),
{
    let last: u128 = (pattern.len() - k) as u128;
    let mut counts: Vec<u128> = Vec::new();
    let mut off: u128 = 0;
    while off <= last
        invariant
            off <= last + 1,
            last == pattern@.len() - k,
            last <= usize::MAX,
            k <= text@.len(),
            counts@.len() == off,
            forall|q: int|
                0 <= q < off ==> #[trigger] counts@[q] == occurrence_count(
                    text@,
                    pattern@,
                    k as int,
                    q,
                ),
        decreases last + 1 - off,
    {
        let f = count_gram(text, pattern, k, off as usize);
        counts.push(f);
        off += 1;
    }
    counts
}

/// What the runs of a pattern say about where it may begin in a text.
#[derive(Debug)]
pub struct Tally {
    pub clusters: Vec<Cluster>,
    /// How many runs of the pattern were worth a vote.
    pub informative: u128,
}

/// The votes of all runs of `pattern` for the start `start`.
fn count_votes(
    text: &[char],
    pattern: &[char],
    k: usize,
    most: usize,
    counts: &Vec<u128>,
    start: i128,
) -> (r: u128)
    requires
        k <= text@.len(),
        k <= pattern@.len(),
        counts@.len() == pattern@.len() - k + 1,
        forall|off: int|
            0 <= off < counts@.len() ==> #[trigger] counts@[off] == occurrence_count(
                text@,
                pattern@,
                k as int,
                off,
            ),
        -(usize::MAX as int) <= start <= usize::MAX,
    ensures
        r == votes_for(
            text@,
            pattern@,
            k as int,
            most as int,
            start as int,
            pattern@.len() - k + 1,
        ),
{
    let last: i128 = (text.len() - k) as i128;
    let n: usize = counts.len();
    let mut off: usize = 0;
    let mut votes: u128 = 0;
    while off < n
        invariant
            off <= n == counts@.len(),
            n == pattern@.len() - k + 1,
            last == text@.len() - k,
            last <= usize::MAX,
            k <= text@.len(),
            k <= pattern@.len(),
            -(usize::MAX as int) <= start <= usize::MAX,
            forall|q: int|
                0 <= q < counts@.len() ==> #[trigger] counts@[q] == occurrence_count(
                    text@,
                    pattern@,
                    k as int,
                    q,
                ),
            votes <= off,
            votes == votes_for(
                text@,
                pattern@,
                k as int,
                most as int,
                start as int,
                off as int,
            ),
        decreases n - off,
    {
        let at: i128 = start + off as i128;
        if 0 <= at && at <= last && counts[off] <= most as u128 && same_gram(
            text,
            at as usize,
            pattern,
            off,
            k,
        ) {
            votes += 1;
        }
        off += 1;
    }
    votes
}

/// Collects the votes of the runs of `k` characters that `pattern` shares with
/// `text`, and clusters the starts that they imply.
pub fn seed_and_vote(text: &[char], pattern: &[char], k: usize, band: usize, most: usize) -> (r:
    Tally)
    ensures
        forall|q: int|
            0 <= q < r.clusters@.len() ==> (#[trigger] r.clusters@[q]).lo <= usize::MAX
                && r.clusters@[q].hi <= usize::MAX,
        k > text@.len() || k > pattern@.len() ==> r.clusters@.len() == 0 && r.informative == 0,
        k <= text@.len() && k <= pattern@.len() ==> {
            &&& r.informative == informative_count(
                text@,
                pattern@,
                k as int,
                most as int,
                pattern@.len() - k + 1,
            )
            &&& r.clusters@ == clusters(
                text@,
                pattern@,
                k as int,
                most as int,
                band as int,
                k - pattern@.len(),
                text@.len() - k + 1,
            )
        },
{
    let mut found: Vec<Cluster> = Vec::new();
    if pattern.len() < k || text.len() < k {
        return Tally { clusters: found, informative: 0 };
    }
    let counts = gram_counts(text, pattern, k);
    let n: usize = counts.len();
    let mut informative: u128 = 0;
    let mut off: usize = 0;
    while off < n
        invariant
            off <= n == counts@.len(),
            n == pattern@.len() - k + 1,
            forall|q: int|
                0 <= q < counts@.len() ==> #[trigger] counts@[q] == occurrence_count(
                    text@,
                    pattern@,
                    k as int,
                    q,
                ),
            informative <= off,
            informative == informative_count(
                text@,
                pattern@,
                k as int,
                most as int,
                off as int,
            ),
        decreases n - off,
    {
        if 1 <= counts[off] && counts[off] <= most as u128 {
            informative += 1;
        }
        off += 1;
    }
    let from: i128 = -((pattern.len() - k) as i128);
    let last: i128 = (text.len() - k) as i128;
    let mut start: i128 = from;
    while start <= last
        invariant
            from <= start <= last + 1,
            from == k - pattern@.len(),
            last == text@.len() - k,
            -(usize::MAX as int) <= from <= 0,
            0 <= last <= usize::MAX,
            k <= text@.len(),
            k <= pattern@.len(),
            counts@.len() == pattern@.len() - k + 1,
            forall|q: int|
                0 <= q < counts@.len() ==> #[trigger] counts@[q] == occurrence_count(
                    text@,
                    pattern@,
                    k as int,
                    q,
                ),
            found@ == clusters(
                text@,
                pattern@,
                k as int,
                most as int,
                band as int,
                from as int,
                start as int,
            ),
            forall|q: int|
                0 <= q < found@.len() ==> from <= (#[trigger] found@[q]).lo <= found@[q].hi < start,
        decreases last + 1 - start,
    {
        let votes = count_votes(text, pattern, k, most, &counts, start);
        let ghost before = found@;
        if votes > 0 {
            let joins = found.len() > 0 && start - found[found.len() - 1].hi <= band as i128;
            if joins {
                let at = found.len() - 1;
                let last_one = found[at];
                let joined = Cluster {
                    lo: last_one.lo,
                    hi: start,
                    votes: last_one.votes.saturating_add(votes),
                };
                found.set(at, joined);
                assert(found@ =~= before.drop_last().push(joined));
            } else {
                found.push(Cluster { lo: start, hi: start, votes });
            }
        }
        assert(found@ =~= clusters(
            text@,
            pattern@,
            k as int,
            most as int,
            band as int,
            from as int,
            start + 1,
        ));
        start += 1;
    }
    Tally { clusters: found, informative }
}

/// Where a cluster may begin and end in the text, and its votes.
pub open spec fn candidate_of(c: Cluster) -> (usize, usize, u128) {
    (
        if c.lo < 0 {
            0
        } else {
            c.lo as usize
        },
        if c.hi < 0 {
            0
        } else {
            c.hi as usize
        },
        c.votes,
    )
}

/// The place behind every candidate of `sorted` that has at least `votes`.
pub open spec fn place_by_votes(sorted: Seq<(usize, usize, u128)>, votes: u128) -> int
    decreases sorted.len(),
{
    if sorted.len() == 0 || sorted.last().2 >= votes {
        sorted.len() as int
    } else {
        place_by_votes(sorted.drop_last(), votes)
    }
}

/// The candidates among the first `n` clusters with at least `needed` votes,
/// most votes first; of equally many the earlier cluster first.
pub open spec fn ranked(found: Seq<Cluster>, needed: int, n: int) -> Seq<(usize, usize, u128)>
    decreases n,
{
    if n <= 0 {
        Seq::empty()
    } else {
        let before = ranked(found, needed, n - 1);
        let c = found[n - 1];
        if c.votes >= needed && c.votes >= 1 {
            before.insert(place_by_votes(before, c.votes), candidate_of(c))
        } else {
            before
        }
    }
}

proof fn place_in_range(sorted: Seq<(usize, usize, u128)>, votes: u128)
    ensures
        0 <= place_by_votes(sorted, votes) <= sorted.len(),
    decreases sorted.len(),
{
    if sorted.len() == 0 || sorted.last().2 >= votes {
    } else {
        place_in_range(sorted.drop_last(), votes);
    }
}

/// The clusters with enough votes as candidates, most votes first.
pub fn rank_candidates(found: &Vec<Cluster>, needed: u128) -> (r: Vec<(usize, usize, u128)>)
    requires
        forall|q: int|
            0 <= q < found@.len() ==> (#[trigger] found@[q]).lo <= usize::MAX && found@[q].hi
                <= usize::MAX,
    ensures
        r@ == ranked(found@, needed as int, found@.len() as int),
{
    let mut out: Vec<(usize, usize, u128)> = Vec::new();
    let mut i: usize = 0;
    while i < found.len()
        invariant
            i <= found@.len(),
            forall|q: int|
                0 <= q < found@.len() ==> (#[trigger] found@[q]).lo <= usize::MAX && found@[q].hi
                    <= usize::MAX,
            out@ == ranked(found@, needed as int, i as int),
        decreases found@.len() - i,
    {
        let c = found[i];
        if c.votes >= needed && c.votes >= 1 {
            let lo: usize = if c.lo < 0 {
                0
            } else {
                c.lo as usize
            };
            let hi: usize = if c.hi < 0 {
                0
            } else {
                c.hi as usize
            };
            let mut at: usize = out.len();
            assert(out@.take(at as int) =~= out@);
            while at > 0 && out[at - 1].2 < c.votes
                invariant
                    at <= out@.len(),
                    place_by_votes(out@, c.votes) == place_by_votes(
                        out@.take(at as int),
                        c.votes,
                    ),
                decreases at,
            {
                assert(out@.take(at as int).drop_last() =~= out@.take(at - 1));
                at -= 1;
            }
            proof {
                place_in_range(out@, c.votes);
            }
            out.insert(at, (lo, hi, c.votes));
        }
        i += 1;
    }
    out
}

// ---------------------------------------------------------------------------
// Laws.

/// A start has a vote exactly where some run of the pattern stands in the text where it would
/// if the pattern began there, and is not too common.
pub proof fn votes_come_from_shared_runs(
    text: Seq<char>,
    pattern: Seq<char>,
    k: int,
    most: int,
    start: int,
    n: int,
)
    requires
        0 <= n,
    ensures
        votes_for(text, pattern, k, most, start, n) <= n,
        votes_for(text, pattern, k, most, start, n) > 0 <==> exists|off: int|
            0 <= off < n && 0 <= start + off <= text.len() - k && #[trigger] text.subrange(
                start + off,
                start + off + k,
            ) == pattern.subrange(off, off + k) && occurrence_count(text, pattern, k, off) <= most,
    decreases n,
{
    if n > 0 {
        votes_come_from_shared_runs(text, pattern, k, most, start, n - 1);
        let off = n - 1;
        if supports(text, pattern, k, most, start, off) {
            assert(text.subrange(start + off, start + off + k) == pattern.subrange(off, off + k));
        }
        if votes_for(text, pattern, k, most, start, n - 1) > 0 {
            let o = choose|o: int|
                0 <= o < n - 1 && 0 <= start + o <= text.len() - k && #[trigger] text.subrange(
                    start + o,
                    start + o + k,
                ) == pattern.subrange(o, o + k) && occurrence_count(text, pattern, k, o) <= most;
            assert(text.subrange(start + o, start + o + k) == pattern.subrange(o, o + k));
        }
    }
}

/// Where the pattern stands letter for letter, and none of its runs is too common, every run
/// votes for that place.
pub proof fn verbatim_places_have_all_votes(
    text: Seq<char>,
    pattern: Seq<char>,
    k: int,
    most: int,
    start: int,
    n: int,
)
    requires
        0 <= start,
        0 <= k,
        0 <= n <= pattern.len() - k + 1,
        start + pattern.len() <= text.len(),
        text.subrange(start, start + pattern.len()) == pattern,
        forall|off: int|
            0 <= off < n ==> #[trigger] occurrence_count(text, pattern, k, off) <= most,
    ensures
        votes_for(text, pattern, k, most, start, n) == n,
    decreases n,
{
    if n > 0 {
        verbatim_places_have_all_votes(text, pattern, k, most, start, n - 1);
        let off = n - 1;
        assert(occurrence_count(text, pattern, k, off) <= most);
        assert(gram(text, start + off, k) =~= text.subrange(start, start + pattern.len()).subrange(
            off,
            off + k,
        ));
    }
}

/// How often a run stands in a text is how many places have it.
pub proof fn runs_are_counted(text: Seq<char>, g: Seq<char>, n: int)
    requires
        0 <= n,
    ensures
        frequency(text, g, n) > 0 <==> exists|i: int|
            0 <= i < n && #[trigger] text.subrange(i, i + g.len()) == g,
        frequency(text, g, n + 1) == frequency(text, g, n) + if text.subrange(n, n + g.len()) == g {
            1nat
        } else {
            0nat
        },
    decreases n,
{
    if n > 0 {
        runs_are_counted(text, g, n - 1);
        if gram(text, n - 1, g.len() as int) == g {
            assert(text.subrange(n - 1, n - 1 + g.len()) == g);
        }
        if frequency(text, g, n - 1) > 0 {
            let i = choose|i: int|
                0 <= i < n - 1 && #[trigger] text.subrange(i, i + g.len()) == g;
            assert(text.subrange(i, i + g.len()) == g);
        }
    }
}

/// Every start that has a vote lies in a cluster, with at least its votes; clusters are in
/// order and further apart than the band.
pub proof fn every_vote_is_in_a_cluster(
    text: Seq<char>,
    pattern: Seq<char>,
    k: int,
    most: int,
    band: int,
    from: int,
    to: int,
)
    requires
        i128::MIN <= from,
        to <= i128::MAX,
        0 <= band,
    ensures
        ({
            let all = clusters(text, pattern, k, most, band, from, to);
            &&& forall|s: int|
                from <= s < to && #[trigger] votes_for(
                    text,
                    pattern,
                    k,
                    most,
                    s,
                    pattern.len() - k + 1,
                ) > 0 ==> exists|q: int|
                    0 <= q < all.len() && (#[trigger] all[q]).lo <= s <= all[q].hi
            &&& forall|q: int|
                0 <= q < all.len() ==> from <= (#[trigger] all[q]).lo <= all[q].hi < to
            &&& forall|q: int, r: int|
                0 <= q < r < all.len() ==> (#[trigger] all[q]).hi + band < (#[trigger] all[r]).lo
        }),
    decreases to - from,
{
    if to > from {
        every_vote_is_in_a_cluster(text, pattern, k, most, band, from, to - 1);
        let before = clusters(text, pattern, k, most, band, from, to - 1);
        let all = clusters(text, pattern, k, most, band, from, to);
        let s = to - 1;
        let votes = votes_for(text, pattern, k, most, s, pattern.len() - k + 1);
        if votes > 0 {
            let last = all.len() - 1;
            assert(all[last].hi == s);
            assert forall|p: int|
                from <= p < to && #[trigger] votes_for(
                    text,
                    pattern,
                    k,
                    most,
                    p,
                    pattern.len() - k + 1,
                ) > 0 implies exists|q: int|
                0 <= q < all.len() && (#[trigger] all[q]).lo <= p <= all[q].hi by {
                if p == s {
                    assert(all[last].lo <= p <= all[last].hi);
                } else {
                    let q = choose|q: int|
                        0 <= q < before.len() && (#[trigger] before[q]).lo <= p <= before[q].hi;
                    if q < last {
                        assert(all[q] == before[q]);
                    } else {
                        assert(all[q].lo == before[q].lo);
                    }
                    assert(all[q].lo <= p <= all[q].hi);
                }
            }
            assert forall|q: int, r: int| 0 <= q < r < all.len() implies (#[trigger] all[q]).hi
                + band < (#[trigger] all[r]).lo by {
                assert(all[q] == before[q]);
                if r < last {
                    assert(all[r] == before[r]);
                } else if before.len() == all.len() {
                    assert(all[r].lo == before[r].lo);
                } else if q < before.len() - 1 {
                    assert(before[q].hi + band < before[before.len() - 1].lo);
                }
            }
        }
    }
}

/// Candidates are the clusters that have votes enough, each of them, those with the most votes
/// first.
pub proof fn candidates_come_by_their_votes(found: Seq<Cluster>, needed: int, n: int)
    requires
        0 <= n <= found.len(),
    ensures
        ({
            let all = ranked(found, needed, n);
            &&& forall|i: int, j: int|
                0 <= i < j < all.len() ==> (#[trigger] all[i]).2 >= (#[trigger] all[j]).2
            &&& forall|q: int|
                0 <= q < n && (#[trigger] found[q]).votes >= needed && found[q].votes > 0
                    ==> exists|i: int| 0 <= i < all.len() && #[trigger] all[i] == candidate_of(found[q])
            &&& forall|i: int|
                0 <= i < all.len() ==> (#[trigger] all[i]).2 >= needed && all[i].2 > 0
        }),
    decreases n,
{
    if n > 0 {
        candidates_come_by_their_votes(found, needed, n - 1);
        let before = ranked(found, needed, n - 1);
        let all = ranked(found, needed, n);
        let c = found[n - 1];
        if c.votes >= needed && c.votes >= 1 {
            place_in_range(before, c.votes);
            votes_split(before, c.votes);
            let p = place_by_votes(before, c.votes);
            assert forall|i: int, j: int| 0 <= i < j < all.len() implies (#[trigger] all[i]).2 >= (
            #[trigger] all[j]).2 by {
                let x = if i < p {
                    i
                } else {
                    i - 1
                };
                let y = if j < p {
                    j
                } else {
                    j - 1
                };
                if i != p {
                    assert(all[i] == before[x]);
                }
                if j != p {
                    assert(all[j] == before[y]);
                }
            }
            assert forall|q: int|
                0 <= q < n && (#[trigger] found[q]).votes >= needed && found[q].votes
                    > 0 implies exists|i: int|
                0 <= i < all.len() && #[trigger] all[i] == candidate_of(found[q]) by {
                if q == n - 1 {
                    assert(all[p] == candidate_of(c));
                } else {
                    let i = choose|i: int|
                        0 <= i < before.len() && #[trigger] before[i] == candidate_of(found[q]);
                    if i < p {
                        assert(all[i] == before[i]);
                    } else {
                        assert(all[i + 1] == before[i]);
                    }
                }
            }
            assert forall|i: int| 0 <= i < all.len() implies (#[trigger] all[i]).2 >= needed
                && all[i].2 > 0 by {
                if i < p {
                    assert(all[i] == before[i]);
                } else if i > p {
                    assert(all[i] == before[i - 1]);
                }
            }
        }
    }
}

proof fn votes_split(sorted: Seq<(usize, usize, u128)>, votes: u128)
    requires
        forall|i: int, j: int|
            0 <= i < j < sorted.len() ==> (#[trigger] sorted[i]).2 >= (#[trigger] sorted[j]).2,
    ensures
        forall|i: int|
            0 <= i < place_by_votes(sorted, votes) ==> (#[trigger] sorted[i]).2 >= votes,
        forall|i: int|
            place_by_votes(sorted, votes) <= i < sorted.len() ==> (#[trigger] sorted[i]).2 < votes,
    decreases sorted.len(),
{
    if sorted.len() == 0 || sorted.last().2 >= votes {
        assert forall|i: int| 0 <= i < sorted.len() implies (#[trigger] sorted[i]).2 >= votes by {
            if i < sorted.len() - 1 {
                assert(sorted[i].2 >= sorted[sorted.len() - 1].2);
            }
        }
    } else {
        let front = sorted.drop_last();
        assert forall|i: int, j: int| 0 <= i < j < front.len() implies (#[trigger] front[i]).2 >= (
        #[trigger] front[j]).2 by {
            assert(front[i] == sorted[i] && front[j] == sorted[j]);
        }
        votes_split(front, votes);
        place_in_range(front, votes);
        assert forall|i: int| 0 <= i < place_by_votes(sorted, votes) implies (
        #[trigger] sorted[i]).2 >= votes by {
            assert(front[i] == sorted[i]);
        }
        assert forall|i: int| place_by_votes(sorted, votes) <= i < sorted.len() implies (
        #[trigger] sorted[i]).2 < votes by {
            if i < front.len() {
                assert(front[i] == sorted[i]);
            }
        }
    }
}

/// Votes are added up, and never fall by it.
pub proof fn votes_are_added_up(a: u128, b: nat)
    ensures
        a + b <= u128::MAX ==> added(a, b) == a + b,
        added(a, b) >= a,
        a + b > u128::MAX ==> added(a, b) == u128::MAX,
{
}

} // verus!
