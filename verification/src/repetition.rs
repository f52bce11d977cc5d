//! Repetition stop: whether the end of a generation is one passage over and
//! over. A generation is a sequence of units; a gram is a run of units, and a
//! window is covered by a gram as far as copies of it that do not overlap fill
//! it.

use crate::json::Json;
use crate::json::JsonModel;
use crate::text;
use std::collections::hash_map::DefaultHasher;
use std::collections::HashMap;
use std::hash::Hasher;
use vstd::prelude::*;
use vstd::std_specs::hash::*;
use vstd::string::*;

verus! {

broadcast use vstd::std_specs::hash::group_hash_axioms;

// ---------------------------------------------------------------------------
// Settings.

/// When a generation counts as looping.
#[derive(Debug)]
pub struct RepeatStopParams {
    /// The ends of the generation that are looked at, by their lengths.
    pub windows: Vec<usize>,
    pub min_tokens: usize,
    pub min_repeats: usize,
    /// The part of a window that has to be covered, as a JSON number.
    pub coverage: String,
    /// How many units come between two looks.
    pub stride: usize,
}

pub open spec fn default_windows() -> Seq<usize> {
    seq![300usize, 600usize, 900usize]
}

impl Default for RepeatStopParams {
    fn default() -> (r: Self)
        ensures
            r.windows@ == default_windows(),
            r.min_tokens == 300,
            r.min_repeats == 3,
            r.coverage@ == "0.8"@,
            r.stride == 4,
    {
        let mut windows: Vec<usize> = Vec::new();
        windows.push(300);
        windows.push(600);
        windows.push(900);
        assert(windows@ =~= default_windows());
        RepeatStopParams {
            windows,
            min_tokens: 300,
            min_repeats: 3,
            coverage: "0.8".to_string(),
            stride: 4,
        }
    }
}

/// The whole number at `key`, or `default`.
pub open spec fn size_at(v: JsonModel, key: Seq<char>, default: usize) -> usize {
    match v.at(key) {
        Some(j) => match j.whole() {
            Some(n) => n as usize,
            None => default,
        },
        None => default,
    }
}

fn read_size(v: &Json, key: &str, default: usize) -> (r: usize)
    ensures
        r == size_at(v@, key@, default),
{
    match v.get(key) {
        Some(j) => match j.as_u64() {
            Some(n) => n as usize,
            None => default,
        },
        None => default,
    }
}

/// The whole numbers among the first `n` items.
pub open spec fn sizes_of(items: Seq<JsonModel>, n: int) -> Seq<usize>
    decreases n,
{
    if n <= 0 {
        Seq::empty()
    } else {
        match items[n - 1].whole() {
            Some(v) => sizes_of(items, n - 1).push(v as usize),
            None => sizes_of(items, n - 1),
        }
    }
}

/// The windows that `v` names, or the usual ones where it names none.
pub open spec fn windows_of(v: JsonModel) -> Seq<usize> {
    match v.items_at("windows"@) {
        Some(items) => {
            let sizes = sizes_of(items, items.len() as int);
            if sizes.len() == 0 {
                default_windows()
            } else {
                sizes
            }
        },
        None => default_windows(),
    }
}

/// The text of a number at `key`.
pub open spec fn number_at(v: JsonModel, key: Seq<char>) -> Option<Seq<char>> {
    match v.at(key) {
        Some(JsonModel::Number(s)) => Some(s),
        _ => None,
    }
}

pub open spec fn at_least_one(n: usize) -> usize {
    if n < 1 {
        1
    } else {
        n
    }
}

impl RepeatStopParams {
    /// The settings that a request names; the usual ones for the rest.
    pub fn from_json(v: &Json) -> (r: Self)
        ensures
            r.windows@ == windows_of(v@),
            r.min_tokens == size_at(v@, "min_tokens"@, 300),
            r.min_repeats == at_least_one(size_at(v@, "min_repeats"@, 3)),
            r.coverage@ == match number_at(v@, "coverage"@) {
                Some(s) => s,
                None => "0.8"@,
            },
            r.stride == at_least_one(size_at(v@, "stride"@, 4)),
    {
        let usual = RepeatStopParams::default();
        let windows: Vec<usize> = match v.array_at("windows") {
            Some(items) => {
                let mut sizes: Vec<usize> = Vec::new();
                let ghost all = crate::json::models(items@);
                let mut i: usize = 0;
                assert(sizes@ =~= Seq::empty());
                while i < items.len()
                    invariant
                        i <= items@.len(),
                        all == crate::json::models(items@),
                        sizes@ == sizes_of(all, i as int),
                    decreases items@.len() - i,
                {
                    assert(all[i as int] == items@[i as int]@);
                    match items[i].as_u64() {
                        Some(n) => {
                            sizes.push(n as usize);
                        },
                        None => {},
                    }
                    i += 1;
                }
                if sizes.len() == 0 {
                    usual.windows
                } else {
                    sizes
                }
            },
            None => usual.windows,
        };
        let repeats: usize = read_size(v, "min_repeats", usual.min_repeats);
        let stride: usize = read_size(v, "stride", usual.stride);
        RepeatStopParams {
            windows,
            min_tokens: read_size(v, "min_tokens", usual.min_tokens),
            min_repeats: if repeats < 1 {
                1
            } else {
                repeats
            },
            coverage: match v.get("coverage") {
                Some(Json::Number(s)) => s.clone(),
                _ => usual.coverage,
            },
            stride: if stride < 1 {
                1
            } else {
                stride
            },
        }
    }
}

// ---------------------------------------------------------------------------
// Gram lengths.

/// One in the fixed-point numbers that lengths grow by.
pub const UNIT: u128 = 0x100_0000_0000_0000;

/// A length that is 1.12 times as long.
pub open spec fn longer(l: nat) -> nat {
    (l * 28 / 25) as nat
}

/// The lengths that come of `l` by growing it again and again, up to `max`.
pub open spec fn longer_lengths(l: nat, max: nat) -> Seq<nat>
    decreases (max + 2) * UNIT - l,
    when l >= 16 * UNIT
{
    let next = longer(l);
    if next / (UNIT as nat) > max {
        Seq::empty()
    } else {
        seq![next / (UNIT as nat)] + longer_lengths(next, max)
    }
}

/// The gram lengths that are tried: every one from 3 to 16, then ever larger
/// ones, up to `max`.
pub open spec fn lengths_upto(max: nat) -> Seq<nat> {
    Seq::new(
        if max < 3 {
            0
        } else if max > 16 {
            14
        } else {
            (max - 2) as nat
        },
        |i: int| (i + 3) as nat,
    ) + longer_lengths((16 * UNIT) as nat, max)
}

pub open spec fn sizes(v: Seq<usize>) -> Seq<nat> {
    v.map_values(|n: usize| n as nat)
}

/// The gram lengths that are tried in a window where none longer than `max_len`
/// can repeat often enough.
pub fn gram_lengths(max_len: usize) -> (r: Vec<usize>)
    ensures
        sizes(r@) == lengths_upto(max_len as nat),
{
    let ghost short = Seq::new(
        if max_len < 3 {
            0
        } else if max_len > 16 {
            14
        } else {
            (max_len - 2) as nat
        },
        |i: int| (i + 3) as nat,
    );
    let mut out: Vec<usize> = Vec::new();
    let mut n: usize = 3;
    while n <= max_len && n <= 16
        invariant
            3 <= n <= 17,
            n - 3 <= short.len(),
            short.len() == (if max_len < 3 {
                0int
            } else if max_len > 16 {
                14
            } else {
                max_len - 2
            }),
            forall|i: int| 0 <= i < short.len() ==> #[trigger] short[i] == i + 3,
            sizes(out@) == short.take(n - 3),
        decreases 17 - n,
    {
        let ghost before = out@;
        out.push(n);
        assert(sizes(out@) =~= sizes(before).push(n as nat));
        assert(short.take(n - 2) =~= short.take(n - 3).push(short[n - 3]));
        n += 1;
    }
    assert(short.take(n - 3) =~= short);
    let mut l: u128 = 16 * UNIT;
    let ghost goal = lengths_upto(max_len as nat);
    assert(sizes(out@) + longer_lengths(l as nat, max_len as nat) =~= goal);
    loop
        invariant
            16 * UNIT <= l,
            l <= (max_len + 1) * UNIT || l == 16 * UNIT,
            sizes(out@) + longer_lengths(l as nat, max_len as nat) == goal,
        ensures
            sizes(out@) == goal,
        decreases (max_len + 2) * UNIT - l,
    {
        assert(l * 28 <= u128::MAX) by {
            assert((max_len + 1) * UNIT <= 0x1_0000_0000_0000_0000 * UNIT);
        }
        let next: u128 = l * 28 / 25;
        let whole: u128 = next / UNIT;
        if whole > max_len as u128 {
            assert(sizes(out@) + Seq::<nat>::empty() =~= sizes(out@));
            break ;
        }
        let ghost before = out@;
        out.push(whole as usize);
        assert(sizes(out@) =~= sizes(before).push(whole as nat));
        assert(sizes(out@) + longer_lengths(next as nat, max_len as nat) =~= sizes(before) + (seq![
            whole as nat,
        ] + longer_lengths(next as nat, max_len as nat)));
        l = next;
    }
    out
}

// ---------------------------------------------------------------------------
// Hashes of grams.

pub const BASE: u64 = 1_000_003;

pub open spec fn scrambled(unit: u64) -> u64 {
    unit ^ 0x9E37_79B9_7F4A_7C15
}

/// The polynomial of a gram.
pub open spec fn polynomial(gram: Seq<u64>) -> int
    decreases gram.len(),
{
    if gram.len() == 0 {
        0
    } else {
        polynomial(gram.drop_last()) * BASE + scrambled(gram.last())
    }
}

pub open spec fn modulus() -> int {
    0x1_0000_0000_0000_0000
}

/// The hash of a gram: its polynomial, to 64 bits.
pub open spec fn gram_hash(gram: Seq<u64>) -> u64 {
    (polynomial(gram) % modulus()) as u64
}

pub open spec fn base_power(n: nat) -> int
    decreases n,
{
    if n == 0 {
        1
    } else {
        base_power((n - 1) as nat) * BASE
    }
}

proof fn polynomial_from_front(gram: Seq<u64>)
    requires
        gram.len() > 0,
    ensures
        polynomial(gram) == scrambled(gram[0]) * base_power((gram.len() - 1) as nat) + polynomial(
            gram.skip(1),
        ),
    decreases gram.len(),
{
    let s = scrambled(gram[0]) as int;
    if gram.len() == 1 {
        assert(gram.drop_last() =~= Seq::empty());
        assert(gram.skip(1) =~= Seq::empty());
        assert(polynomial(gram.drop_last()) == 0);
        assert(base_power(0) == 1);
        assert(s * 1 == s);
    } else {
        let head = gram.drop_last();
        polynomial_from_front(head);
        assert(gram.skip(1).drop_last() =~= head.skip(1));
        assert(gram.skip(1).last() == gram.last());
        assert(head[0] == gram[0]);
        let p = base_power((head.len() - 1) as nat);
        let q = polynomial(head.skip(1));
        assert(base_power((gram.len() - 1) as nat) == p * BASE);
        assert((s * p + q) * BASE == s * (p * BASE) + q * BASE) by (nonlinear_arith);
    }
}

proof fn polynomial_not_negative(gram: Seq<u64>)
    ensures
        0 <= polynomial(gram),
    decreases gram.len(),
{
    if gram.len() > 0 {
        polynomial_not_negative(gram.drop_last());
    }
}

proof fn hash_step(h: u64, whole: int, x: u64)
    requires
        h == whole % modulus(),
    ensures
        h.wrapping_mul(BASE).wrapping_add(x) == (whole * BASE + x) % modulus(),
{
    let m = modulus();
    let q = whole / m;
    vstd::arithmetic::div_mod::lemma_fundamental_div_mod(whole, m);
    let t = h * BASE;
    let c = t / m;
    vstd::arithmetic::div_mod::lemma_fundamental_div_mod(t as int, m);
    let a = h.wrapping_mul(BASE);
    assert(a == t - m * c);
    let r = a.wrapping_add(x);
    let z: int = if a + x > u64::MAX {
        1
    } else {
        0
    };
    assert(r == a + x - z * m);
    assert(whole * BASE + x == (q * BASE + c + z) * m + r) by (nonlinear_arith)
        requires
            whole == m * q + h,
            t == h * BASE,
            a == t - m * c,
            r == a + x - z * m,
    ;
    vstd::arithmetic::div_mod::lemma_fundamental_div_mod_converse(
        whole * BASE + x,
        m,
        q * BASE + c + z,
        r as int,
    );
}

proof fn hash_drop(h: u64, whole: int, pow: u64, power: int, y: u64)
    requires
        h == whole % modulus(),
        pow == power % modulus(),
    ensures
        h.wrapping_sub(pow.wrapping_mul(y)) == (whole - power * y) % modulus(),
{
    let m = modulus();
    let q = whole / m;
    let b = power / m;
    vstd::arithmetic::div_mod::lemma_fundamental_div_mod(whole, m);
    vstd::arithmetic::div_mod::lemma_fundamental_div_mod(power, m);
    let t = pow * y;
    let c = t / m;
    vstd::arithmetic::div_mod::lemma_fundamental_div_mod(t as int, m);
    assert(0 <= t) by (nonlinear_arith)
        requires
            t == pow * y,
            0 <= pow,
            0 <= y,
    ;
    let a = pow.wrapping_mul(y);
    assert(a == t - m * c);
    let r = h.wrapping_sub(a);
    let z: int = if h - a < 0 {
        1
    } else {
        0
    };
    assert(r == h - a + z * m);
    assert(power * y == m * (b * y) + t) by (nonlinear_arith)
        requires
            power == m * b + pow,
            t == pow * y,
    ;
    let by = b * y;
    assert((q - by - c - z) * m == m * q - m * by - m * c - z * m) by (nonlinear_arith);
    vstd::arithmetic::div_mod::lemma_fundamental_div_mod_converse(
        whole - power * y,
        m,
        q - by - c - z,
        r as int,
    );
}

/// The hash of every gram of `l` units in `tail`, in order.
pub open spec fn hashes_of(tail: Seq<u64>, l: int) -> Seq<u64> {
    Seq::new(
        if l <= 0 || l > tail.len() {
            0
        } else {
            (tail.len() - l + 1) as nat
        },
        |i: int| gram_hash(tail.subrange(i, i + l)),
    )
}

/// The hash of every gram of `l` units in `tail`: each is made of the one before
/// it.
pub fn gram_hashes(tail: &[u64], l: usize) -> (r: Vec<u64>)
    ensures
        r@ == hashes_of(tail@, l as int),
{
    let n: usize = tail.len();
    let mut out: Vec<u64> = Vec::new();
    if l == 0 || l > n {
        assert(out@ =~= hashes_of(tail@, l as int));
        return out;
    }
    let mut pow: u64 = 1;
    let mut h: u64 = 0;
    let mut i: usize = 0;
    assert(tail@.subrange(0, 0) =~= Seq::empty());
    while i < l
        invariant
            i <= l <= n == tail@.len(),
            pow == base_power(i as nat) % modulus(),
            h == polynomial(tail@.subrange(0, i as int)) % modulus(),
        decreases l - i,
    {
        proof {
            hash_step(pow, base_power(i as nat), 0);
            hash_step(h, polynomial(tail@.subrange(0, i as int)), scrambled(tail@[i as int]));
            assert(tail@.subrange(0, i + 1).drop_last() =~= tail@.subrange(0, i as int));
        }
        pow = pow.wrapping_mul(BASE);
        h = h.wrapping_mul(BASE).wrapping_add(tail[i] ^ 0x9E37_79B9_7F4A_7C15);
        i += 1;
    }
    proof {
        polynomial_not_negative(tail@.subrange(0, l as int));
    }
    out.push(h);
    let mut i: usize = l;
    let ghost goal = hashes_of(tail@, l as int);
    assert(goal[0] == h);
    while i < n
        invariant
            0 < l <= i <= n == tail@.len(),
            goal == hashes_of(tail@, l as int),
            pow == base_power(l as nat) % modulus(),
            h == polynomial(tail@.subrange(i - l, i as int)) % modulus(),
            out@.len() == i - l + 1,
            forall|k: int| 0 <= k < out@.len() ==> out@[k] == goal[k],
        decreases n - i,
    {
        let ghost gram = tail@.subrange(i - l, i as int);
        let ghost wide = tail@.subrange(i - l, i + 1);
        let ghost next = tail@.subrange(i + 1 - l, i + 1);
        let dropped: u64 = tail[i - l] ^ 0x9E37_79B9_7F4A_7C15;
        let added: u64 = tail[i] ^ 0x9E37_79B9_7F4A_7C15;
        proof {
            assert(wide.drop_last() =~= gram);
            assert(wide.skip(1) =~= next);
            polynomial_from_front(wide);
            hash_step(h, polynomial(gram), added);
            let grown = h.wrapping_mul(BASE).wrapping_add(added);
            hash_drop(grown, polynomial(wide), pow, base_power(l as nat), dropped);
            assert(base_power(l as nat) * dropped == dropped * base_power(l as nat))
                by (nonlinear_arith);
        }
        h = h.wrapping_mul(BASE).wrapping_add(added).wrapping_sub(pow.wrapping_mul(dropped));
        out.push(h);
        i += 1;
        assert(goal[i - l] == gram_hash(next));
    }
    assert(out@ =~= goal);
    out
}

// ---------------------------------------------------------------------------
// The most frequent gram.

/// The places among the first `n` at which `h` stands.
pub open spec fn places(hashes: Seq<u64>, h: u64, n: int) -> Seq<usize>
    decreases n,
{
    if n <= 0 {
        Seq::empty()
    } else if hashes[n - 1] == h {
        places(hashes, h, n - 1).push((n - 1) as usize)
    } else {
        places(hashes, h, n - 1)
    }
}

/// All places of the hash that stands at `i`.
pub open spec fn group(hashes: Seq<u64>, i: int) -> Seq<usize> {
    places(hashes, hashes[i], hashes.len() as int)
}

/// Among the first `n` places, the first of those whose hash is most frequent.
pub open spec fn dominant(hashes: Seq<u64>, n: int) -> int
    decreases n,
{
    if n <= 1 {
        0
    } else {
        let before = dominant(hashes, n - 1);
        if group(hashes, n - 1).len() > group(hashes, before).len() {
            n - 1
        } else {
            before
        }
    }
}

proof fn places_are_places(hashes: Seq<u64>, h: u64, n: int)
    requires
        0 <= n <= hashes.len() <= usize::MAX,
    ensures
        forall|k: int|
            0 <= k < places(hashes, h, n).len() ==> {
                &&& 0 <= #[trigger] places(hashes, h, n)[k] < n
                &&& hashes[places(hashes, h, n)[k] as int] == h
            },
        forall|i: int|
            0 <= i < n && #[trigger] hashes[i] == h ==> places(hashes, h, n).len() > 0
                && places(hashes, h, n)[0] <= i,
    decreases n,
{
    if n > 0 {
        places_are_places(hashes, h, n - 1);
        let before = places(hashes, h, n - 1);
        let all = places(hashes, h, n);
        assert forall|k: int| 0 <= k < all.len() implies 0 <= #[trigger] all[k] < n
            && hashes[all[k] as int] == h by {
            if k < before.len() {
                assert(all[k] == before[k]);
            }
        }
        assert forall|i: int| 0 <= i < n && #[trigger] hashes[i] == h implies all.len() > 0
            && all[0] <= i by {
            if before.len() > 0 {
                assert(all[0] == before[0]);
            }
        }
    }
}

/// Copies of the gram at `first` among the first `n` of `at` that do not
/// overlap: how many there are, and where the last of them ends.
pub open spec fn copies(tail: Seq<u64>, at: Seq<usize>, l: int, first: int, n: int) -> (int, int)
    decreases n,
{
    if n <= 0 {
        (0, -1)
    } else {
        let (count, end) = copies(tail, at, l, first, n - 1);
        let i = at[n - 1] as int;
        if i < end || tail.subrange(i, i + l) != tail.subrange(first, first + l) {
            (count, end)
        } else {
            (count + 1, i + l)
        }
    }
}

/// Copies that do not overlap fill no more than what lies before their end.
proof fn copies_fit(tail: Seq<u64>, at: Seq<usize>, l: int, first: int, n: int)
    requires
        0 < l,
        0 <= n <= at.len(),
        forall|k: int| 0 <= k < at.len() ==> #[trigger] at[k] + l <= tail.len(),
    ensures
        ({
            let (count, end) = copies(tail, at, l, first, n);
            &&& 0 <= count
            &&& count * l <= tail.len()
            &&& count == 0 ==> end == -1
            &&& count > 0 ==> count * l <= end <= tail.len()
        }),
    decreases n,
{
    if n > 0 {
        copies_fit(tail, at, l, first, n - 1);
        let (count, end) = copies(tail, at, l, first, n - 1);
        let i = at[n - 1] as int;
        assert((count + 1) * l == count * l + l) by (nonlinear_arith);
        assert(0 * l == 0);
    }
}

/// What was found in a window.
#[derive(Debug, Clone, Copy, PartialEq, Eq, Structural)]
pub struct RepetitionStats {
    pub flagged: bool,
    pub window: usize,
    pub gram_len: usize,
    /// Copies of the gram that do not overlap.
    pub count: usize,
    /// The place of one of them in the generation.
    pub gram_pos: usize,
}

impl RepetitionStats {
    /// The units that the copies fill.
    pub open spec fn covered(self) -> int {
        self.count * self.gram_len
    }

    pub open spec fn nothing(window: usize) -> RepetitionStats {
        RepetitionStats { flagged: false, window, gram_len: 0, count: 0, gram_pos: 0 }
    }

    /// The units that the copies fill.
    pub fn covered_units(&self) -> (r: u128)
        ensures
            r == self.covered(),
    {
        assert(self.count * self.gram_len <= usize::MAX * usize::MAX) by (nonlinear_arith)
            requires
                0 <= self.count <= usize::MAX,
                0 <= self.gram_len <= usize::MAX,
        ;
        assert(usize::MAX * usize::MAX <= u128::MAX) by (nonlinear_arith)
            requires
                usize::MAX <= 0xffff_ffff_ffff_ffff,
        ;
        (self.count as u128) * (self.gram_len as u128)
    }
}

proof fn nothing_is_covered(window: usize)
    ensures
        RepetitionStats::nothing(window).covered() == 0,
{
    assert(0 * 0 == 0) by (nonlinear_arith);
}

/// What the most frequent gram of length `l` covers: the count of its copies,
/// where it is frequent enough, and its first place.
pub open spec fn tried(tail: Seq<u64>, l: int, min_repeats: int) -> Option<(int, int)> {
    let hashes = hashes_of(tail, l);
    if hashes.len() == 0 {
        None
    } else {
        let at = group(hashes, dominant(hashes, hashes.len() as int));
        let count = copies(tail, at, l, at[0] as int, at.len() as int).0;
        if at.len() < min_repeats || count < min_repeats {
            None
        } else {
            Some((count, at[0] as int))
        }
    }
}

/// The best gram among the first `n` lengths: the one that covers most, the
/// shorter where two cover as much.
pub open spec fn best_gram(
    tail: Seq<u64>,
    start: int,
    lengths: Seq<nat>,
    min_repeats: int,
    n: int,
) -> RepetitionStats
    decreases n,
{
    let none = RepetitionStats::nothing(tail.len() as usize);
    if n <= 0 {
        none
    } else {
        let best = best_gram(tail, start, lengths, min_repeats, n - 1);
        let l = lengths[n - 1] as int;
        match tried(tail, l, min_repeats) {
            Some((count, first)) if count * l > best.covered() => RepetitionStats {
                flagged: false,
                window: tail.len() as usize,
                gram_len: l as usize,
                count: count as usize,
                gram_pos: (start + first) as usize,
            },
            _ => best,
        }
    }
}

/// What is found at the end of a generation, `w` units long. `enough` is how many
/// units have to be covered for it to count as looping.
pub open spec fn window_stats(toks: Seq<u64>, w: usize, min_repeats: usize, enough: usize) -> RepetitionStats {
    if toks.len() < w || w == 0 {
        RepetitionStats::nothing(w)
    } else {
        let start = toks.len() - w;
        let tail = toks.skip(start);
        let lengths = lengths_upto(w as nat / at_least_one(min_repeats) as nat);
        let best = best_gram(tail, start, lengths, min_repeats as int, lengths.len() as int);
        RepetitionStats {
            flagged: best.count >= min_repeats && best.covered() >= enough,
            window: best.window,
            gram_len: best.gram_len,
            count: best.count,
            gram_pos: best.gram_pos,
        }
    }
}

/// The most frequent gram of one length.
fn try_length(tail: &[u64], l: usize, min_repeats: usize) -> (r: Option<(usize, usize)>)
    ensures
        match r {
            Some((count, first)) => {
                &&& tried(tail@, l as int, min_repeats as int) == Some((count as int, first as int))
                &&& count * l <= tail@.len()
                &&& first < tail@.len()
            },
            None => tried(tail@, l as int, min_repeats as int) is None,
        },
{
    let hashes = gram_hashes(tail, l);
    let n: usize = hashes.len();
    if n == 0 {
        return None;
    }
    let mut groups: HashMap<u64, Vec<usize>> = HashMap::new();
    let mut i: usize = 0;
    while i < n
        invariant
            i <= n == hashes@.len(),
            forall|h: u64|
                #![trigger groups@.contains_key(h)]
                groups@.contains_key(h) <==> places(hashes@, h, i as int).len() > 0,
            forall|h: u64|
                #![trigger groups@[h]]
                groups@.contains_key(h) ==> groups@[h]@ == places(hashes@, h, i as int),
        decreases n - i,
    {
        let h: u64 = hashes[i];
        let ghost before = groups@;
        let mut at: Vec<usize> = match groups.remove(&h) {
            Some(v) => v,
            None => Vec::new(),
        };
        proof {
            assert(at@ =~= places(hashes@, h, i as int));
        }
        at.push(i);
        groups.insert(h, at);
        i += 1;
        assert forall|g: u64|
            #![trigger groups@.contains_key(g)]
            groups@.contains_key(g) <==> places(hashes@, g, i as int).len() > 0 by {
            if g != h {
                assert(groups@.contains_key(g) == before.contains_key(g));
            }
        }
        assert forall|g: u64|
            #![trigger groups@[g]]
            groups@.contains_key(g) implies groups@[g]@ == places(hashes@, g, i as int) by {
            if g != h {
                assert(before.contains_key(g));
                assert(groups@[g] == before[g]);
            }
        }
    }
    let mut best: usize = 0;
    let mut best_len: usize = 0;
    let mut k: usize = 0;
    while k < n
        invariant
            k <= n == hashes@.len(),
            0 < n,
            best < n,
            forall|h: u64|
                #![trigger groups@.contains_key(h)]
                groups@.contains_key(h) <==> places(hashes@, h, n as int).len() > 0,
            forall|h: u64|
                #![trigger groups@[h]]
                groups@.contains_key(h) ==> groups@[h]@ == places(hashes@, h, n as int),
            k > 0 ==> best == dominant(hashes@, k as int) && best_len == group(
                hashes@,
                best as int,
            ).len(),
            k == 0 ==> best == 0 && best_len == 0,
        decreases n - k,
    {
        let h: u64 = hashes[k];
        proof {
            places_are_places(hashes@, h, n as int);
            assert(groups@.contains_key(h));
        }
        let size: usize = match groups.get(&h) {
            Some(v) => v.len(),
            None => 0,
        };
        assert(size == group(hashes@, k as int).len());
        if size > best_len {
            best = k;
            best_len = size;
        }
        k += 1;
    }
    let h: u64 = hashes[best];
    proof {
        places_are_places(hashes@, h, n as int);
        assert(groups@.contains_key(h));
    }
    match groups.get(&h) {
        None => None,
        Some(at) => {
            let ghost places_at = group(hashes@, best as int);
            assert(at@ == places_at);
            if at.len() < min_repeats {
                return None;
            }
            let first: usize = at[0];
            let total: usize = tail.len();
            let mut count: usize = 0;
            let mut end: usize = 0;
            let mut m: usize = 0;
            proof {
                assert forall|q: int| 0 <= q < at@.len() implies #[trigger] at@[q] + l
                    <= tail@.len() by {
                    assert(places_at[q] < hashes@.len());
                }
            }
            while m < at.len()
                invariant
                    m <= at@.len(),
                    0 < l <= total == tail@.len(),
                    first + l <= total,
                    forall|q: int| 0 <= q < at@.len() ==> #[trigger] at@[q] + l <= tail@.len(),
                    count == copies(tail@, at@, l as int, first as int, m as int).0,
                    count > 0 ==> end == copies(tail@, at@, l as int, first as int, m as int).1,
                    count == 0 ==> end == 0 && copies(
                        tail@,
                        at@,
                        l as int,
                        first as int,
                        m as int,
                    ).1 == -1,
                decreases at@.len() - m,
            {
                let place: usize = at[m];
                proof {
                    copies_fit(tail@, at@, l as int, first as int, m as int);
                    copies_fit(tail@, at@, l as int, first as int, m + 1);
                    let (c, _) = copies(tail@, at@, l as int, first as int, m + 1);
                    assert(c <= c * l) by (nonlinear_arith)
                        requires
                            0 <= c,
                            0 < l,
                    ;
                }
                if place >= end && same_units(tail, place, first, l) {
                    count += 1;
                    end = place + l;
                }
                m += 1;
            }
            proof {
                copies_fit(tail@, at@, l as int, first as int, at@.len() as int);
            }
            if count < min_repeats {
                None
            } else {
                Some((count, first))
            }
        },
    }
}

fn same_units(tail: &[u64], i: usize, j: usize, l: usize) -> (r: bool)
    requires
        i + l <= tail@.len(),
        j + l <= tail@.len(),
    ensures
        r == (tail@.subrange(i as int, i + l) == tail@.subrange(j as int, j + l)),
{
    let total: usize = tail.len();
    let mut k: usize = 0;
    while k < l
        invariant
            k <= l,
            total == tail@.len(),
            i + l <= total,
            j + l <= tail@.len(),
            forall|q: int| 0 <= q < k ==> #[trigger] tail@[i + q] == tail@[j + q],
        decreases l - k,
    {
        if tail[i + k] != tail[j + k] {
            assert(tail@.subrange(i as int, i + l)[k as int] != tail@.subrange(
                j as int,
                j + l,
            )[k as int]);
            return false;
        }
        k += 1;
    }
    assert(tail@.subrange(i as int, i + l) =~= tail@.subrange(j as int, j + l)) by {
        assert forall|q: int| 0 <= q < l implies #[trigger] tail@.subrange(i as int, i + l)[q]
            == tail@.subrange(j as int, j + l)[q] by {
            assert(tail@[i + q] == tail@[j + q]);
        }
    }
    true
}

/// Looks at the last `w` units.
pub fn detect_window(toks: &[u64], w: usize, min_repeats: usize, enough: usize) -> (r: RepetitionStats)
    ensures
        r == window_stats(toks@, w, min_repeats, enough),
        r.window == w,
        r.covered() <= w,
{
    proof {
        nothing_is_covered(w);
    }
    let mut best = RepetitionStats { flagged: false, window: w, gram_len: 0, count: 0, gram_pos: 0 };
    if toks.len() < w || w == 0 {
        return best;
    }
    let total: usize = toks.len();
    let start: usize = total - w;
    let tail = vstd::slice::slice_subrange(toks, start, toks.len());
    assert(tail@ =~= toks@.skip(start as int));
    let max_len: usize = w / if min_repeats < 1 {
        1
    } else {
        min_repeats
    };
    let lengths = gram_lengths(max_len);
    let ghost all = lengths_upto(max_len as nat);
    let mut i: usize = 0;
    while i < lengths.len()
        invariant
            i <= lengths@.len(),
            all == sizes(lengths@),
            tail@.len() == w,
            start + w == total,
            best == best_gram(tail@, start as int, all, min_repeats as int, i as int),
            best.covered() <= w,
            !best.flagged,
            best.window == w,
        decreases lengths@.len() - i,
    {
        let l: usize = lengths[i];
        assert(all[i as int] == l);
        match try_length(tail, l, min_repeats) {
            Some((count, first)) => {
                let now = RepetitionStats {
                    flagged: false,
                    window: w,
                    gram_len: l,
                    count,
                    gram_pos: start + first,
                };
                if now.covered_units() > best.covered_units() {
                    best = now;
                }
            },
            None => {},
        }
        i += 1;
    }
    best.flagged = best.count >= min_repeats && best.covered_units() >= enough as u128;
    best
}

/// Whether the copies fill a larger part of the window of `a` than of that of
/// `b`.
pub open spec fn covers_more(a: RepetitionStats, b: RepetitionStats) -> bool {
    a.covered() * at_least_one(b.window) > b.covered() * at_least_one(a.window)
}

/// Of the first `n` windows, the first that counts as looping; else the one of
/// which most is covered. `enough` holds, for a window of each size, how many units
/// have to be covered of it.
pub open spec fn found_in(
    toks: Seq<u64>,
    windows: Seq<usize>,
    enough: Seq<usize>,
    min_tokens: usize,
    min_repeats: usize,
    n: int,
) -> RepetitionStats
    decreases n,
{
    if n <= 0 {
        RepetitionStats::nothing(0)
    } else {
        let best = found_in(toks, windows, enough, min_tokens, min_repeats, n - 1);
        let w = effective_window(windows[n - 1], toks);
        if best.flagged || w < min_tokens {
            best
        } else {
            let here = window_stats(toks, w, min_repeats, enough[w as int]);
            if here.flagged || covers_more(here, best) {
                here
            } else {
                best
            }
        }
    }
}

/// A window is no longer than the generation.
pub open spec fn effective_window(w: usize, toks: Seq<u64>) -> usize {
    if w as int <= toks.len() {
        w
    } else {
        toks.len() as usize
    }
}

/// `enough` says of every window, and of all shorter ones, how many units have to
/// be covered.
pub open spec fn says_enough(enough: Seq<usize>, windows: Seq<usize>) -> bool {
    forall|i: int| 0 <= i < windows.len() ==> #[trigger] windows[i] < enough.len()
}

/// Whether a generation loops, and where. `enough` holds, for a window of each
/// size, how many units have to be covered of it; the caller works that out of the
/// part that has to be covered.
pub fn detect(toks: &[u64], p: &RepeatStopParams, enough: &Vec<usize>) -> (r: RepetitionStats)
    requires
        says_enough(enough@, p.windows@),
    ensures
        r == (if toks@.len() < p.min_tokens {
            RepetitionStats::nothing(0)
        } else {
            found_in(
                toks@,
                p.windows@,
                enough@,
                p.min_tokens,
                p.min_repeats,
                p.windows@.len() as int,
            )
        }),
        r.gram_pos + r.gram_len <= toks@.len(),
{
    proof {
        nothing_is_covered(0);
    }
    let mut best = RepetitionStats { flagged: false, window: 0, gram_len: 0, count: 0, gram_pos: 0 };
    if toks.len() < p.min_tokens {
        return best;
    }
    let total: usize = toks.len();
    let mut i: usize = 0;
    while i < p.windows.len()
        invariant
            i <= p.windows@.len(),
            says_enough(enough@, p.windows@),
            total == toks@.len(),
            best == found_in(
                toks@,
                p.windows@,
                enough@,
                p.min_tokens,
                p.min_repeats,
                i as int,
            ),
            !best.flagged,
            best.covered() <= best.window,
            best.gram_pos + best.gram_len <= total,
        decreases p.windows@.len() - i,
    {
        assert(p.windows@[i as int] < enough@.len());
        let w: usize = if p.windows[i] <= total {
            p.windows[i]
        } else {
            total
        };
        if w >= p.min_tokens {
            let here = detect_window(toks, w, p.min_repeats, enough[w]);
            proof {
                window_in_range(toks@, w, p.min_repeats, enough@[w as int]);
            }
            if here.flagged {
                proof {
                    found_stays(
                        toks@,
                        p.windows@,
                        enough@,
                        p.min_tokens,
                        p.min_repeats,
                        i + 1,
                        p.windows@.len() as int,
                    );
                }
                return here;
            }
            if more_covered(&here, &best) {
                best = here;
            }
        }
        i += 1;
    }
    best
}

fn more_covered(a: &RepetitionStats, b: &RepetitionStats) -> (r: bool)
    requires
        a.covered() <= a.window,
        b.covered() <= b.window,
    ensures
        r == covers_more(*a, *b),
{
    let x: u128 = a.covered_units();
    let y: u128 = b.covered_units();
    let wa: u128 = if a.window < 1 {
        1
    } else {
        a.window as u128
    };
    let wb: u128 = if b.window < 1 {
        1
    } else {
        b.window as u128
    };
    assert(x * wb <= u128::MAX && y * wa <= u128::MAX) by (nonlinear_arith)
        requires
            x <= 0xffff_ffff_ffff_ffff,
            y <= 0xffff_ffff_ffff_ffff,
            wa <= 0xffff_ffff_ffff_ffff,
            wb <= 0xffff_ffff_ffff_ffff,
    ;
    x * wb > y * wa
}

proof fn found_stays(
    toks: Seq<u64>,
    windows: Seq<usize>,
    enough: Seq<usize>,
    min_tokens: usize,
    min_repeats: usize,
    m: int,
    n: int,
)
    requires
        0 <= m <= n,
        found_in(toks, windows, enough, min_tokens, min_repeats, m).flagged,
    ensures
        found_in(toks, windows, enough, min_tokens, min_repeats, n) == found_in(
            toks,
            windows,
            enough,
            min_tokens,
            min_repeats,
            m,
        ),
    decreases n,
{
    if m < n {
        found_stays(toks, windows, enough, min_tokens, min_repeats, m, n - 1);
    }
}

proof fn tried_in_range(tail: Seq<u64>, l: int, min_repeats: int)
    requires
        tail.len() <= usize::MAX,
    ensures
        match tried(tail, l, min_repeats) {
            Some((count, first)) => {
                &&& 0 <= first
                &&& first + l <= tail.len()
                &&& 0 < l
                &&& 0 <= count
                &&& count * l <= tail.len()
            },
            None => true,
        },
{
    let hashes = hashes_of(tail, l);
    if hashes.len() > 0 {
        let d = dominant(hashes, hashes.len() as int);
        dominant_in_range(hashes, hashes.len() as int);
        places_are_places(hashes, hashes[d], hashes.len() as int);
        let at = group(hashes, d);
        assert forall|k: int| 0 <= k < at.len() implies #[trigger] at[k] + l <= tail.len() by {
            assert(at[k] < hashes.len());
        }
        copies_fit(tail, at, l, at[0] as int, at.len() as int);
        assert(at[0] < hashes.len());
    }
}

proof fn dominant_in_range(hashes: Seq<u64>, n: int)
    requires
        0 <= n <= hashes.len(),
        0 < hashes.len(),
    ensures
        0 <= dominant(hashes, n) < hashes.len(),
        n > 0 ==> dominant(hashes, n) < n,
    decreases n,
{
    if n > 1 {
        dominant_in_range(hashes, n - 1);
    }
}

proof fn best_in_range(tail: Seq<u64>, start: int, lengths: Seq<nat>, min_repeats: int, n: int)
    requires
        0 <= start,
        start + tail.len() <= usize::MAX,
        0 <= n <= lengths.len(),
    ensures
        ({
            let best = best_gram(tail, start, lengths, min_repeats, n);
            &&& best.covered() <= tail.len()
            &&& best.gram_pos + best.gram_len <= start + tail.len()
        }),
    decreases n,
{
    if n > 0 {
        best_in_range(tail, start, lengths, min_repeats, n - 1);
        let l = lengths[n - 1] as int;
        tried_in_range(tail, l, min_repeats);
        match tried(tail, l, min_repeats) {
            Some((count, first)) => {
                assert(count <= count * l) by (nonlinear_arith)
                    requires
                        0 <= count,
                        0 < l,
                ;
            },
            None => {},
        }
    }
}

/// The gram that is found in a window lies in the generation, and its copies fill
/// no more than the window.
pub proof fn window_in_range(toks: Seq<u64>, w: usize, min_repeats: usize, enough: usize)
    requires
        toks.len() <= usize::MAX,
    ensures
        window_stats(toks, w, min_repeats, enough).covered() <= w,
        window_stats(toks, w, min_repeats, enough).gram_pos + window_stats(
            toks,
            w,
            min_repeats,
            enough,
        ).gram_len <= toks.len(),
{
    if !(toks.len() < w || w == 0) {
        let start = toks.len() - w;
        let lengths = lengths_upto(w as nat / at_least_one(min_repeats) as nat);
        best_in_range(toks.skip(start), start, lengths, min_repeats as int, lengths.len() as int);
        let best = best_gram(
            toks.skip(start),
            start,
            lengths,
            min_repeats as int,
            lengths.len() as int,
        );
        assert(window_stats(toks, w, min_repeats, enough).covered() == best.covered());
    } else {
        nothing_is_covered(w);
    }
}

/// Fewer units than the least number are not judged at all.
pub proof fn short_generations_are_not_judged(
    toks: Seq<u64>,
    windows: Seq<usize>,
    enough: Seq<usize>,
    min_tokens: usize,
    min_repeats: usize,
    n: int,
)
    requires
        toks.len() < min_tokens,
        0 <= n <= windows.len(),
    ensures
        !found_in(toks, windows, enough, min_tokens, min_repeats, n).flagged,
    decreases n,
{
    if n > 0 {
        short_generations_are_not_judged(toks, windows, enough, min_tokens, min_repeats, n - 1);
    }
}

// ---------------------------------------------------------------------------
// Units.

/// The hash of one unit: of its bytes and an end mark.
pub open spec fn unit_hash(bytes: Seq<u8>) -> u64 {
    DefaultHasher::spec_finish(seq![bytes, seq![0xffu8]])
}

/// The unit that stands for a piece of text: pieces that are the same give the
/// same unit.
pub fn hash_unit(s: &str) -> (r: u64)
    ensures
        r == unit_hash(vstd::utf8::encode_utf8(s@)),
{
    let mut h = DefaultHasher::new();
    h.write(s.as_bytes());
    let mark: [u8; 1] = [0xff];
    h.write(mark.as_slice());
    assert(mark@ =~= seq![0xffu8]);
    assert(h@ =~= seq![vstd::utf8::encode_utf8(s@), seq![0xffu8]]);
    h.finish()
}

// ---------------------------------------------------------------------------
// Laws.

/// The lengths that are looked for begin with every length from three up to sixteen, and go
/// no further than the limit.
pub proof fn short_lengths_are_all_tried(max: nat)
    ensures
        forall|n: nat| 3 <= n <= max && n <= 16 ==> lengths_upto(max).contains(n),
        forall|i: int| 0 <= i < lengths_upto(max).len() ==> 3 <= #[trigger] lengths_upto(max)[i] <= max,
        forall|i: int, j: int|
            0 <= i < j < lengths_upto(max).len() ==> #[trigger] lengths_upto(max)[i]
                < #[trigger] lengths_upto(max)[j],
{
    let all = lengths_upto(max);
    let more = longer_lengths((16 * UNIT) as nat, max);
    let short = all.len() - more.len();
    growing_lengths((16 * UNIT) as nat, max);
    assert forall|n: nat| 3 <= n <= max && n <= 16 implies all.contains(n) by {
        assert(all[n - 3] == n);
    }
    assert forall|i: int| 0 <= i < all.len() implies 3 <= #[trigger] all[i] <= max by {
        if i >= short {
            assert(all[i] == more[i - short]);
        }
    }
    assert forall|i: int, j: int| 0 <= i < j < all.len() implies #[trigger] all[i]
        < #[trigger] all[j] by {
        if i >= short {
            assert(all[i] == more[i - short]);
        }
        if j >= short {
            assert(all[j] == more[j - short]);
        }
    }
}

/// Beyond that each length is longer than the one before by about an eighth, and the last is
/// within that of the limit.
pub proof fn long_lengths_grow_by_an_eighth(max: nat)
    ensures
        ({
            let more = longer_lengths((16 * UNIT) as nat, max);
            &&& more.len() == 0 <==> max < 17
            &&& more.len() > 0 ==> more[0] == 17 && 28 * (more.last() + 1) > 25 * max
            &&& forall|i: int|
                0 < i < more.len() ==> 28 * more[i - 1] <= 25 * (#[trigger] more[i] + 1) && 25
                    * more[i] <= 28 * (more[i - 1] + 1)
        }),
{
    growing_lengths((16 * UNIT) as nat, max);
}

proof fn growing_lengths(l: nat, max: nat)
    requires
        l >= 16 * UNIT,
    ensures
        ({
            let more = longer_lengths(l, max);
            let from = l / (UNIT as nat);
            &&& forall|i: int| 0 <= i < more.len() ==> from < #[trigger] more[i] <= max
            &&& forall|i: int, j: int|
                0 <= i < j < more.len() ==> #[trigger] more[i] < #[trigger] more[j]
            &&& more.len() == 0 <==> longer(l) / (UNIT as nat) > max
            &&& more.len() == 0 ==> 28 * (from + 1) > 25 * max
            &&& more.len() > 0 ==> 28 * (more.last() + 1) > 25 * max
            &&& more.len() > 0 ==> more[0] == longer(l) / (UNIT as nat)
            &&& more.len() > 0 ==> 28 * from <= 25 * (more[0] + 1) && 25 * more[0] <= 28 * (from + 1)
            &&& forall|i: int|
                0 < i < more.len() ==> 28 * more[i - 1] <= 25 * (#[trigger] more[i] + 1) && 25
                    * more[i] <= 28 * (more[i - 1] + 1)
        }),
    decreases (max + 2) * UNIT - l,
{
    let next = longer(l);
    assert(next > l + UNIT);
    let from = l / (UNIT as nat);
    let first = next / (UNIT as nat);
    assert(from < first);
    if first <= max {
        growing_lengths(next, max);
        let rest = longer_lengths(next, max);
        let more = longer_lengths(l, max);
        assert(more =~= seq![first] + rest);
        assert forall|i: int| 0 <= i < more.len() implies from < #[trigger] more[i] <= max by {
            if i > 0 {
                assert(more[i] == rest[i - 1]);
            }
        }
        assert forall|i: int, j: int| 0 <= i < j < more.len() implies #[trigger] more[i]
            < #[trigger] more[j] by {
            assert(more[j] == rest[j - 1]);
            if i > 0 {
                assert(more[i] == rest[i - 1]);
            }
        }
        assert forall|i: int| 0 < i < more.len() implies 28 * more[i - 1] <= 25 * (
        #[trigger] more[i] + 1) && 25 * more[i] <= 28 * (more[i - 1] + 1) by {
            assert(more[i] == rest[i - 1]);
            if i > 1 {
                assert(more[i - 1] == rest[i - 2]);
            }
        }
        if rest.len() > 0 {
            assert(more.last() == rest.last());
        }
    }
}

/// Whether `at` are places of `gram` in `tail`, no two of which overlap.
pub open spec fn are_copies(tail: Seq<u64>, gram: Seq<u64>, at: Seq<int>) -> bool {
    &&& forall|k: int|
        0 <= k < at.len() ==> 0 <= #[trigger] at[k] && at[k] + gram.len() <= tail.len()
            && tail.subrange(at[k], at[k] + gram.len() as int) == gram
    &&& forall|j: int, k: int|
        0 <= j < k < at.len() ==> #[trigger] at[j] + gram.len() <= #[trigger] at[k]
}

/// What is found of a length is a gram that stands in the units as often as is said, in places
/// that do not overlap.
pub proof fn repeats_are_copies(tail: Seq<u64>, l: int, min_repeats: int) -> (at: Seq<int>)
    requires
        tail.len() <= usize::MAX,
        l > 0,
    ensures
        tried(tail, l, min_repeats) matches Some((count, first)) ==> {
            &&& count >= min_repeats
            &&& at.len() == count
            &&& 0 <= first && first + l <= tail.len()
            &&& are_copies(tail, tail.subrange(first, first + l), at)
        },
{
    let hashes = hashes_of(tail, l);
    if hashes.len() > 0 {
        let d = dominant(hashes, hashes.len() as int);
        dominant_in_range(hashes, hashes.len() as int);
        let g = group(hashes, d);
        places_are_places(hashes, hashes[d], hashes.len() as int);
        let (at, end) = copy_places(tail, g, l, g[0] as int, g.len() as int);
        at
    } else {
        Seq::empty()
    }
}

/// The hash that is looked at is one that no other occurs more often than.
pub proof fn the_most_frequent_is_looked_at(hashes: Seq<u64>, n: int, i: int)
    requires
        0 <= i < n <= hashes.len(),
    ensures
        group(hashes, i).len() <= group(hashes, dominant(hashes, n)).len(),
    decreases n,
{
    if n > 1 && i < n - 1 {
        the_most_frequent_is_looked_at(hashes, n - 1, i);
    }
}

proof fn copy_places(tail: Seq<u64>, at: Seq<usize>, l: int, first: int, n: int) -> (r: (Seq<int>, int))
    requires
        0 <= n <= at.len(),
        l > 0,
        forall|k: int| 0 <= k < at.len() ==> (#[trigger] at[k]) + l <= tail.len(),
        0 <= first && first + l <= tail.len(),
    ensures
        r.0.len() == copies(tail, at, l, first, n).0,
        are_copies(tail, tail.subrange(first, first + l), r.0),
        forall|k: int| 0 <= k < r.0.len() ==> (#[trigger] r.0[k]) + l <= copies(tail, at, l, first, n).1,
    decreases n,
{
    if n <= 0 {
        (Seq::empty(), 0)
    } else {
        let (before, _) = copy_places(tail, at, l, first, n - 1);
        let (count, end) = copies(tail, at, l, first, n - 1);
        let i = at[n - 1] as int;
        if i < end || tail.subrange(i, i + l) != tail.subrange(first, first + l) {
            (before, 0)
        } else {
            (before.push(i), 0)
        }
    }
}

/// Of the lengths that are tried the one is taken whose copies cover most, and none where no
/// length repeats often enough.
pub proof fn the_gram_that_covers_most_is_taken(
    tail: Seq<u64>,
    start: int,
    lengths: Seq<nat>,
    min_repeats: int,
    n: int,
    i: int,
)
    requires
        0 <= i < n <= lengths.len(),
        0 <= start,
        start + tail.len() <= usize::MAX,
        forall|k: int| 0 <= k < lengths.len() ==> 0 < #[trigger] lengths[k] <= tail.len(),
    ensures
        tried(tail, lengths[i] as int, min_repeats) matches Some((count, _)) ==> best_gram(
            tail,
            start,
            lengths,
            min_repeats,
            n,
        ).covered() >= count * lengths[i],
        ({
            let best = best_gram(tail, start, lengths, min_repeats, n);
            best.count > 0 ==> exists|k: int|
                0 <= k < n && #[trigger] lengths[k] == best.gram_len && tried(
                    tail,
                    best.gram_len as int,
                    min_repeats,
                ) == Some((best.count as int, best.gram_pos - start))
        }),
        best_gram(tail, start, lengths, min_repeats, n).window == tail.len(),
    decreases n,
{
    let before = best_gram(tail, start, lengths, min_repeats, n - 1);
    let l = lengths[n - 1] as int;
    let at = repeats_are_copies(tail, l, min_repeats);
    match tried(tail, l, min_repeats) {
        Some((count, first)) => {
            copies_have_room(tail, tail.subrange(first, first + l), at, count);
            assert(count <= tail.len());
        },
        None => {},
    }
    if n > 1 {
        the_gram_that_covers_most_is_taken(
            tail,
            start,
            lengths,
            min_repeats,
            n - 1,
            if i < n - 1 {
                i
            } else {
                0
            },
        );
        if before.count > 0 {
            let k = choose|k: int| 0 <= k < n - 1 && #[trigger] lengths[k] == before.gram_len;
            assert(lengths[k] == before.gram_len);
        }
    }
    assert(lengths[n - 1] == l);
}

proof fn copies_have_room(tail: Seq<u64>, gram: Seq<u64>, at: Seq<int>, count: int)
    requires
        are_copies(tail, gram, at),
        gram.len() > 0,
        0 <= count <= at.len(),
    ensures
        count > 0 ==> at[count - 1] >= (count - 1) * gram.len(),
        count <= tail.len(),
    decreases count,
{
    if count > 0 {
        copies_have_room(tail, gram, at, count - 1);
        if count > 1 {
            assert(at[count - 2] + gram.len() <= at[count - 1]);
            assert((count - 1) * gram.len() == (count - 2) * gram.len() + gram.len())
                by (nonlinear_arith);
        } else {
            assert(0 * gram.len() == 0);
            assert(0 <= at[0]);
        }
        assert((count - 1) * gram.len() >= count - 1) by (nonlinear_arith)
            requires
                gram.len() > 0,
                count >= 1,
        ;
    }
}

/// A generation is flagged exactly where one of the windows that are long enough is, and what
/// is said of it then is said of such a window.
pub proof fn one_flagged_window_is_enough(
    toks: Seq<u64>,
    windows: Seq<usize>,
    enough: Seq<usize>,
    min_tokens: usize,
    min_repeats: usize,
    n: int,
)
    requires
        0 <= n <= windows.len(),
    ensures
        ({
            let found = found_in(toks, windows, enough, min_tokens, min_repeats, n);
            &&& found.flagged ==> exists|i: int|
                0 <= i < n && window_flagged(toks, #[trigger] windows[i], enough, min_tokens, min_repeats)
            &&& forall|i: int|
                0 <= i < n && window_flagged(
                    toks,
                    #[trigger] windows[i],
                    enough,
                    min_tokens,
                    min_repeats,
                ) ==> found.flagged
        }),
    decreases n,
{
    if n > 0 {
        one_flagged_window_is_enough(toks, windows, enough, min_tokens, min_repeats, n - 1);
        let before = found_in(toks, windows, enough, min_tokens, min_repeats, n - 1);
        let found = found_in(toks, windows, enough, min_tokens, min_repeats, n);
        if found.flagged {
            if before.flagged {
                let i = choose|i: int|
                    0 <= i < n - 1 && window_flagged(
                        toks,
                        #[trigger] windows[i],
                        enough,
                        min_tokens,
                        min_repeats,
                    );
                assert(window_flagged(toks, windows[i], enough, min_tokens, min_repeats));
            } else {
                assert(window_flagged(toks, windows[n - 1], enough, min_tokens, min_repeats));
            }
        }
    }
}

/// Whether the last `w` units, or all where there are fewer, are many enough and loop.
pub open spec fn window_flagged(
    toks: Seq<u64>,
    w: usize,
    enough: Seq<usize>,
    min_tokens: usize,
    min_repeats: usize,
) -> bool {
    let here = effective_window(w, toks);
    here >= min_tokens && window_stats(toks, here, min_repeats, enough[here as int]).flagged
}

/// A window that is flagged repeats one gram, in places that do not overlap, at least as often
/// as is asked and over at least as many units as are enough; the place that is said is one
/// of them.
pub proof fn flagged_windows_loop(toks: Seq<u64>, w: usize, min_repeats: usize, enough: usize) -> (at: Seq<int>)
    requires
        0 < w <= toks.len() <= usize::MAX,
        min_repeats > 0,
    ensures
        ({
            let s = window_stats(toks, w, min_repeats, enough);
            let tail = toks.skip(toks.len() - w);
            &&& s.flagged <==> s.count >= min_repeats && s.count * s.gram_len >= enough
            &&& s.flagged ==> {
                &&& at.len() == s.count
                &&& toks.len() - w <= s.gram_pos
                &&& s.gram_pos + s.gram_len <= toks.len()
                &&& are_copies(
                    tail,
                    toks.subrange(s.gram_pos as int, s.gram_pos + s.gram_len),
                    at,
                )
            }
        }),
{
    let s = window_stats(toks, w, min_repeats, enough);
    let start = toks.len() - w;
    let tail = toks.skip(start);
    let lengths = lengths_upto(w as nat / min_repeats as nat);
    let m = w as nat / min_repeats as nat;
    assert(m <= w) by (nonlinear_arith)
        requires
            m == w as nat / min_repeats as nat,
            min_repeats > 0,
    ;
    short_lengths_are_all_tried(m);
    if lengths.len() > 0 {
        the_gram_that_covers_most_is_taken(
            tail,
            start,
            lengths,
            min_repeats as int,
            lengths.len() as int,
            0,
        );
    }
    if s.flagged {
        let at = repeats_are_copies(tail, s.gram_len as int, min_repeats as int);
        let first = s.gram_pos - start;
        assert(tail.subrange(first, first + s.gram_len) =~= toks.subrange(
            s.gram_pos as int,
            s.gram_pos + s.gram_len,
        ));
        at
    } else {
        Seq::empty()
    }
}

/// Equal grams have equal hashes wherever they stand, and every gram is hashed.
pub proof fn every_gram_is_hashed(tail: Seq<u64>, l: int, i: int, j: int)
    requires
        0 < l,
        0 <= i && i + l <= tail.len(),
        0 <= j && j + l <= tail.len(),
        tail.subrange(i, i + l) == tail.subrange(j, j + l),
    ensures
        hashes_of(tail, l).len() == tail.len() - l + 1,
        hashes_of(tail, l)[i] == hashes_of(tail, l)[j],
{
}

/// A setting that is a number is taken, and the usual one holds where there is none; windows
/// that are listed are all taken, in their order.
pub proof fn settings_of_the_stop_are_read(
    v: JsonModel,
    key: Seq<char>,
    n: nat,
    default: usize,
    windows: Seq<u32>,
)
    requires
        n <= u32::MAX,
    ensures
        v.at(key) == Some(JsonModel::Number(text::decimal(n))) ==> size_at(v, key, default) == n,
        v.at(key) is None ==> size_at(v, key, default) == default,
        v.at("windows"@) is None ==> windows_of(v) == seq![300usize, 600usize, 900usize],
        windows.len() > 0 && v.at("windows"@) == Some(
            JsonModel::Array(
                windows.map_values(|w: u32| JsonModel::Number(text::decimal(w as nat))),
            ),
        ) ==> windows_of(v) == windows.map_values(|w: u32| w as usize),
        at_least_one(0) == 1,
        default > 0 ==> at_least_one(default) == default,
{
    crate::json::whole_numbers_are_read_back(n, 0, v);
    assert(n as usize == n);
    windows_upto(windows, windows.len() as int);
    assert(windows.take(windows.len() as int) =~= windows);
}

proof fn windows_upto(windows: Seq<u32>, n: int)
    requires
        0 <= n <= windows.len(),
    ensures
        sizes_of(
            windows.map_values(|w: u32| JsonModel::Number(text::decimal(w as nat))),
            n,
        ) == windows.take(n).map_values(|w: u32| w as usize),
    decreases n,
{
    if n > 0 {
        windows_upto(windows, n - 1);
        crate::json::whole_numbers_are_read_back(windows[n - 1] as nat, 0, JsonModel::Null);
        assert(windows.take(n).map_values(|w: u32| w as usize) =~= windows.take(n - 1).map_values(
            |w: u32| w as usize,
        ).push(windows[n - 1] as usize));
    } else {
        assert(windows.take(0).map_values(|w: u32| w as usize) =~= Seq::empty());
    }
}

/// Of two windows that do not loop, the one is kept of which more is covered, in proportion.
pub proof fn the_window_that_is_covered_most_is_kept(a: RepetitionStats, b: RepetitionStats)
    requires
        a.window > 0,
        b.window == a.window,
    ensures
        covers_more(a, b) <==> a.covered() > b.covered(),
{
    let (x, y, w) = (a.covered(), b.covered(), a.window as int);
    assert(x * w > y * w <==> x > y) by (nonlinear_arith)
        requires
            w > 0,
    ;
}

} // verus!
