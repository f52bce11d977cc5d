//! Normal forms of a text that forgive whitespace, with the place of every
//! character in the text it came from.

use crate::text;
use vstd::prelude::*;

verus! {

/// How much whitespace a normal form forgives.
#[derive(Clone, Copy, Debug, PartialEq, Eq, Structural)]
pub enum Normalization {
    /// Line ends and whitespace before them.
    Endings,
    /// Line ends, and runs of spaces and tabs inside a line.
    Collapse,
    /// Both, and the indentation of every line.
    Indent,
}

/// `s` as it stands, each character with its place; the first stands at `at`.
pub open spec fn verbatim(s: Seq<char>, at: int) -> Seq<(char, int)> {
    Seq::new(s.len(), |i: int| (s[i], at + i))
}

pub open spec fn is_space(c: char) -> bool {
    c == ' ' || c == '\t'
}

/// `s` with each run of spaces and tabs as one space, which has the place of
/// the first of them. `after_space` tells whether `s` continues such a run.
pub open spec fn collapse(s: Seq<char>, at: int, after_space: bool) -> Seq<(char, int)>
    decreases s.len(),
{
    if s.len() == 0 {
        Seq::empty()
    } else if !is_space(s[0]) {
        seq![(s[0], at)] + collapse(s.skip(1), at + 1, false)
    } else if after_space {
        collapse(s.skip(1), at + 1, true)
    } else {
        seq![(' ', at)] + collapse(s.skip(1), at + 1, true)
    }
}

/// How many whitespace characters `s` begins with.
pub open spec fn indent_of(s: Seq<char>) -> int {
    s.len() - text::trim_start(s).len()
}

/// The normal form of one line that stands at `at`.
pub open spec fn normal_line(line: Seq<char>, at: int, norm: Normalization) -> Seq<(char, int)> {
    let content = text::trim_end(line);
    let lead = indent_of(content);
    match norm {
        Normalization::Endings => verbatim(content, at),
        Normalization::Collapse => verbatim(content.take(lead), at) + collapse(
            content.skip(lead),
            at + lead,
            false,
        ),
        Normalization::Indent => collapse(content.skip(lead), at + lead, false),
    }
}

/// The normal form of a text that stands at `at`, line by line.
pub open spec fn normal(s: Seq<char>, at: int, norm: Normalization) -> Seq<(char, int)>
    decreases s.len(),
    via normal_decreases
{
    let n = text::upto(s, '\n');
    if n >= s.len() {
        normal_line(s, at, norm)
    } else {
        normal_line(s.take(n), at, norm).push(('\n', at + n)) + normal(
            s.skip(n + 1),
            at + n + 1,
            norm,
        )
    }
}

#[via_fn]
proof fn normal_decreases(s: Seq<char>, at: int, norm: Normalization) {
    text::upto_shape(s, '\n');
}

/// The characters of a normal form.
pub open spec fn letters(placed: Seq<(char, int)>) -> Seq<char> {
    placed.map_values(|x: (char, int)| x.0)
}

/// The characters of the normal form of `s`.
pub open spec fn normal_text(s: Seq<char>, norm: Normalization) -> Seq<char> {
    letters(normal(s, 0, norm))
}

/// The places are in order and between `lo` and `hi`.
pub open spec fn in_order(placed: Seq<(char, int)>, lo: int, hi: int) -> bool {
    &&& forall|i: int| 0 <= i < placed.len() ==> lo <= (#[trigger] placed[i]).1 < hi
    &&& forall|i: int, j: int|
        0 <= i < j < placed.len() ==> (#[trigger] placed[i]).1 < (#[trigger] placed[j]).1
}

proof fn in_order_append(a: Seq<(char, int)>, b: Seq<(char, int)>, lo: int, mid: int, hi: int)
    requires
        in_order(a, lo, mid),
        in_order(b, mid, hi),
        lo <= mid <= hi,
    ensures
        in_order(a + b, lo, hi),
{
    let all = a + b;
    assert forall|i: int| 0 <= i < all.len() implies lo <= (#[trigger] all[i]).1 < hi by {
        if i < a.len() {
            assert(all[i] == a[i]);
        } else {
            assert(all[i] == b[i - a.len()]);
        }
    }
    assert forall|i: int, j: int| 0 <= i < j < all.len() implies (#[trigger] all[i]).1 < (
    #[trigger] all[j]).1 by {
        if j < a.len() {
            assert(all[i] == a[i] && all[j] == a[j]);
        } else if i < a.len() {
            assert(all[i] == a[i] && all[j] == b[j - a.len()]);
        } else {
            assert(all[i] == b[i - a.len()] && all[j] == b[j - a.len()]);
        }
    }
}

proof fn collapse_in_order(s: Seq<char>, at: int, after_space: bool)
    ensures
        in_order(collapse(s, at, after_space), at, at + s.len()),
    decreases s.len(),
{
    if s.len() == 0 {
    } else if !is_space(s[0]) {
        collapse_in_order(s.skip(1), at + 1, false);
        in_order_append(
            seq![(s[0], at)],
            collapse(s.skip(1), at + 1, false),
            at,
            at + 1,
            at + s.len(),
        );
    } else {
        collapse_in_order(s.skip(1), at + 1, true);
        let rest = collapse(s.skip(1), at + 1, true);
        in_order_append(Seq::<(char, int)>::empty(), rest, at, at + 1, at + s.len());
        assert(Seq::<(char, int)>::empty() + rest =~= rest);
        in_order_append(seq![(' ', at)], rest, at, at + 1, at + s.len());
    }
}

proof fn normal_line_in_order(line: Seq<char>, at: int, norm: Normalization)
    ensures
        in_order(normal_line(line, at, norm), at, at + line.len()),
{
    let content = text::trim_end(line);
    text::trim_end_shape(line);
    text::trim_start_shape(content);
    let lead = indent_of(content);
    let tail = collapse(content.skip(lead), at + lead, false);
    collapse_in_order(content.skip(lead), at + lead, false);
    match norm {
        Normalization::Endings => {},
        Normalization::Collapse => {
            in_order_append(
                verbatim(content.take(lead), at),
                tail,
                at,
                at + lead,
                at + content.len(),
            );
        },
        Normalization::Indent => {},
    }
}

/// The places of a normal form are places of the text, each used at most once
/// and in the order of the text.
pub proof fn normal_keeps_order(s: Seq<char>, at: int, norm: Normalization)
    ensures
        in_order(normal(s, at, norm), at, at + s.len()),
    decreases s.len(),
{
    text::upto_shape(s, '\n');
    let n = text::upto(s, '\n');
    if n >= s.len() {
        normal_line_in_order(s, at, norm);
    } else {
        normal_line_in_order(s.take(n), at, norm);
        normal_keeps_order(s.skip(n + 1), at + n + 1, norm);
        let head = normal_line(s.take(n), at, norm);
        in_order_append(head, seq![('\n', at + n)], at, at + n, at + n + 1);
        assert(head + seq![('\n', at + n)] =~= head.push(('\n', at + n)));
        in_order_append(
            head.push(('\n', at + n)),
            normal(s.skip(n + 1), at + n + 1, norm),
            at,
            at + n + 1,
            at + s.len(),
        );
    }
}

/// A normal form and the place of each of its characters in the text it came
/// from; the last place is the length of that text.
#[derive(Debug)]
pub struct Normalized {
    pub text: Vec<char>,
    pub map: Vec<usize>,
}

impl Normalized {
    /// This is the normal form of `s`.
    pub open spec fn is_of(&self, s: Seq<char>, norm: Normalization) -> bool {
        let placed = normal(s, 0, norm);
        &&& self.text@ == letters(placed)
        &&& self.map@.len() == placed.len() + 1
        &&& forall|i: int| 0 <= i < placed.len() ==> #[trigger] self.map@[i] == placed[i].1
        &&& self.map@[placed.len() as int] == s.len()
    }

    /// Where the character at `at` of the normal form stands in the text; behind the
    /// last one, where the text ends.
    pub fn orig_start(&self, at: usize) -> (r: usize)
        requires
            self.map@.len() > 0,
        ensures
            r == self.map@[if at < self.map@.len() {
                at as int
            } else {
                self.map@.len() - 1
            }],
    {
        if at < self.map.len() {
            self.map[at]
        } else {
            self.map[self.map.len() - 1]
        }
    }
}

/// `text` and `map` hold the characters and places of `placed`.
spec fn holds(text: Seq<char>, map: Seq<usize>, placed: Seq<(char, int)>) -> bool {
    &&& text == letters(placed)
    &&& map.len() == placed.len()
    &&& forall|i: int| 0 <= i < placed.len() ==> #[trigger] map[i] == placed[i].1
}

/// Adds one placed character.
fn place(text: &mut Vec<char>, map: &mut Vec<usize>, c: char, at: usize, Ghost(placed): Ghost<
    Seq<(char, int)>,
>)
    requires
        holds(old(text)@, old(map)@, placed),
    ensures
        holds(final(text)@, final(map)@, placed.push((c, at as int))),
{
    text.push(c);
    map.push(at);
    assert(text@ =~= letters(placed.push((c, at as int))));
}

/// Adds the characters of `input` from `lo` to `hi` as they stand.
fn place_verbatim(
    input: &[char],
    lo: usize,
    hi: usize,
    text: &mut Vec<char>,
    map: &mut Vec<usize>,
    Ghost(placed): Ghost<Seq<(char, int)>>,
)
    requires
        lo <= hi <= input@.len(),
        holds(old(text)@, old(map)@, placed),
    ensures
        holds(
            final(text)@,
            final(map)@,
            placed + verbatim(input@.subrange(lo as int, hi as int), lo as int),
        ),
{
    let mut i: usize = lo;
    assert(placed + verbatim(input@.subrange(lo as int, lo as int), lo as int) =~= placed);
    while i < hi
        invariant
            lo <= i <= hi <= input@.len(),
            holds(
                text@,
                map@,
                placed + verbatim(input@.subrange(lo as int, i as int), lo as int),
            ),
        decreases hi - i,
    {
        let ghost now = placed + verbatim(input@.subrange(lo as int, i as int), lo as int);
        place(text, map, input[i], i, Ghost(now));
        i += 1;
        assert(now.push((input@[i - 1], i - 1)) =~= placed + verbatim(
            input@.subrange(lo as int, i as int),
            lo as int,
        ));
    }
}

/// Adds the characters of `input` from `lo` to `hi` with runs of spaces and
/// tabs collapsed.
fn place_collapsed(
    input: &[char],
    lo: usize,
    hi: usize,
    text: &mut Vec<char>,
    map: &mut Vec<usize>,
    Ghost(placed): Ghost<Seq<(char, int)>>,
)
    requires
        lo <= hi <= input@.len(),
        holds(old(text)@, old(map)@, placed),
    ensures
        holds(
            final(text)@,
            final(map)@,
            placed + collapse(input@.subrange(lo as int, hi as int), lo as int, false),
        ),
{
    let mut i: usize = lo;
    let mut after_space = false;
    let ghost goal = placed + collapse(input@.subrange(lo as int, hi as int), lo as int, false);
    let ghost mut now = placed;
    while i < hi
        invariant
            lo <= i <= hi <= input@.len(),
            holds(text@, map@, now),
            now + collapse(input@.subrange(i as int, hi as int), i as int, after_space) == goal,
        decreases hi - i,
    {
        let c = input[i];
        let ghost rest = input@.subrange(i as int, hi as int);
        let ghost next = input@.subrange(i + 1, hi as int);
        let ghost was = now;
        assert(rest.skip(1) =~= next);
        if c == ' ' || c == '\t' {
            if !after_space {
                place(text, map, ' ', i, Ghost(now));
                proof {
                    now = now.push((' ', i as int));
                    assert(was + (seq![(' ', i as int)] + collapse(next, i + 1, true)) =~= now
                        + collapse(next, i + 1, true));
                }
            }
            after_space = true;
        } else {
            place(text, map, c, i, Ghost(now));
            proof {
                now = now.push((c, i as int));
                assert(was + (seq![(c, i as int)] + collapse(next, i + 1, false)) =~= now
                    + collapse(next, i + 1, false));
            }
            after_space = false;
        }
        i += 1;
    }
    assert(now + collapse(input@.subrange(hi as int, hi as int), hi as int, after_space) =~= now);
}

/// The normal form of `input`.
pub fn normalize_with_map(input: &[char], norm: Normalization) -> (r: Normalized)
    ensures
        r.is_of(input@, norm),
{
    let mut text: Vec<char> = Vec::new();
    let mut map: Vec<usize> = Vec::new();
    let mut from: usize = 0;
    let ghost mut now: Seq<(char, int)> = Seq::empty();
    assert(input@.skip(0) =~= input@);
    assert(letters(now) =~= Seq::<char>::empty());
    assert(now + normal(input@, 0, norm) =~= normal(input@, 0, norm));
    loop
        invariant
            from <= input@.len(),
            holds(text@, map@, now),
            now + normal(input@.skip(from as int), from as int, norm) == normal(input@, 0, norm),
        decreases input@.len() - from,
    {
        let end = text::index_of_char(input, '\n', from);
        let line = text::slice_of(input, from, end);
        let kept = text::trimmed_end_len(line.as_slice());
        let content = text::slice_of(line.as_slice(), 0, kept);
        let lead = text::leading_white(content.as_slice());
        let ghost rest = input@.skip(from as int);
        let ghost was = now;
        proof {
            assert(line@ =~= rest.take(end - from));
            assert(content@ =~= text::trim_end(line@));
            assert(input@.subrange(from as int, from + kept) =~= content@);
            assert(input@.subrange(from as int, from + lead) =~= content@.take(lead as int));
            assert(input@.subrange(from + lead, from + kept) =~= content@.skip(lead as int));
        }
        match norm {
            Normalization::Endings => {
                place_verbatim(input, from, from + kept, &mut text, &mut map, Ghost(now));
            },
            Normalization::Collapse => {
                place_verbatim(input, from, from + lead, &mut text, &mut map, Ghost(now));
                let ghost mid = now + verbatim(content@.take(lead as int), from as int);
                place_collapsed(input, from + lead, from + kept, &mut text, &mut map, Ghost(mid));
                assert(mid + collapse(content@.skip(lead as int), from + lead, false) =~= now
                    + normal_line(line@, from as int, norm));
            },
            Normalization::Indent => {
                place_collapsed(input, from + lead, from + kept, &mut text, &mut map, Ghost(now));
            },
        }
        proof {
            now = now + normal_line(line@, from as int, norm);
        }
        if end == input.len() {
            assert(line@ =~= rest);
            map.push(input.len());
            proof {
                let placed = normal(input@, 0, norm);
                assert(now == placed);
            }
            return Normalized { text, map };
        }
        place(&mut text, &mut map, '\n', end, Ghost(now));
        proof {
            now = now.push(('\n', end as int));
            assert(rest.skip(end - from + 1) =~= input@.skip(end + 1));
            assert(was + (normal_line(line@, from as int, norm).push(('\n', end as int)) + normal(
                input@.skip(end + 1),
                end + 1,
                norm,
            )) =~= now + normal(input@.skip(end + 1), end + 1, norm));
        }
        from = end + 1;
    }
}

/// `ls` without the blank lines at its front.
pub open spec fn drop_blank_front(ls: Seq<Seq<char>>) -> Seq<Seq<char>>
    decreases ls.len(),
{
    if ls.len() > 0 && text::is_blank(ls[0]) {
        drop_blank_front(ls.skip(1))
    } else {
        ls
    }
}

/// `ls` without the blank lines at its back.
pub open spec fn drop_blank_back(ls: Seq<Seq<char>>) -> Seq<Seq<char>>
    decreases ls.len(),
{
    if ls.len() > 0 && text::is_blank(ls.last()) {
        drop_blank_back(ls.drop_last())
    } else {
        ls
    }
}

/// The normal form of a text to look for: without blank lines at its ends.
pub open spec fn plain(s: Seq<char>, norm: Normalization) -> Seq<char> {
    text::join(
        drop_blank_back(drop_blank_front(text::split_on(normal_text(s, norm), '\n'))),
        seq!['\n'],
    )
}

/// The normal form of a text to look for.
pub fn normalize_plain(input: &[char], norm: Normalization) -> (r: Vec<char>)
    ensures
        r@ == plain(input@, norm),
{
    let whole = normalize_with_map(input, norm);
    let parts = text::split_chars(whole.text.as_slice(), '\n');
    let ghost all = text::texts(parts@);
    let mut lo: usize = 0;
    assert(all.skip(0) =~= all);
    while lo < parts.len() && text::blank(parts[lo].as_slice())
        invariant
            lo <= parts@.len(),
            all == text::texts(parts@),
            drop_blank_front(all) == drop_blank_front(all.skip(lo as int)),
        decreases parts@.len() - lo,
    {
        assert(all[lo as int] == parts@[lo as int]@);
        assert(all.skip(lo as int).skip(1) =~= all.skip(lo + 1));
        lo += 1;
    }
    assert(lo < parts@.len() ==> all[lo as int] == parts@[lo as int]@);
    let mut hi: usize = parts.len();
    let ghost front = drop_blank_front(all);
    assert(all.subrange(lo as int, hi as int) =~= front);
    while hi > lo && text::blank(parts[hi - 1].as_slice())
        invariant
            lo <= hi <= parts@.len(),
            all == text::texts(parts@),
            drop_blank_back(front) == drop_blank_back(all.subrange(lo as int, hi as int)),
        decreases hi,
    {
        assert(all[hi - 1] == parts@[hi - 1]@);
        assert(all.subrange(lo as int, hi as int).drop_last() =~= all.subrange(
            lo as int,
            hi - 1,
        ));
        hi -= 1;
    }
    assert(hi > lo ==> all[hi - 1] == parts@[hi - 1]@);
    let mut kept: Vec<Vec<char>> = Vec::new();
    let mut i: usize = lo;
    while i < hi
        invariant
            lo <= i <= hi <= parts@.len(),
            all == text::texts(parts@),
            text::texts(kept@) == all.subrange(lo as int, i as int),
        decreases hi - i,
    {
        let ghost before = text::texts(kept@);
        let part = text::slice_of(parts[i].as_slice(), 0, parts[i].len());
        assert(part@ =~= all[i as int]);
        kept.push(part);
        i += 1;
        assert(text::texts(kept@) =~= before.push(part@));
        assert(all.subrange(lo as int, i as int) =~= before.push(part@));
    }
    let newline: Vec<char> = vec!['\n'];
    assert(newline@ =~= seq!['\n']);
    text::join_chars(&kept, newline.as_slice())
}

/// Every place from `from` on where `needle` stands in `hay`, in order.
pub open spec fn occurrences(hay: Seq<char>, needle: Seq<char>, from: int) -> Seq<int>
    decreases hay.len() + 1 - from,
    via occurrences_decreases
{
    if from < 0 {
        Seq::empty()
    } else {
        match text::find_from(hay, needle, from) {
            Some(i) => seq![i] + occurrences(hay, needle, i + 1),
            None => Seq::empty(),
        }
    }
}

#[via_fn]
proof fn occurrences_decreases(hay: Seq<char>, needle: Seq<char>, from: int) {
    if from >= 0 {
        text::find_from_is_first(hay, needle, from);
    }
}

/// `occurrences` lists a place exactly where the needle stands there.
pub proof fn occurrences_are_all(hay: Seq<char>, needle: Seq<char>, from: int, at: int)
    requires
        0 <= from,
    ensures
        occurrences(hay, needle, from).contains(at) <==> from <= at && text::occurs_at(
            hay,
            needle,
            at,
        ),
    decreases hay.len() + 1 - from,
{
    text::find_from_is_first(hay, needle, from);
    match text::find_from(hay, needle, from) {
        Some(i) => {
            occurrences_are_all(hay, needle, i + 1, at);
            let rest = occurrences(hay, needle, i + 1);
            let all = seq![i] + rest;
            assert(all[0] == i);
            if rest.contains(at) {
                let k = choose|k: int| 0 <= k < rest.len() && rest[k] == at;
                assert(all[k + 1] == at);
            }
            if all.contains(at) && at != i {
                let k = choose|k: int| 0 <= k < all.len() && all[k] == at;
                assert(rest[k - 1] == at);
            }
        },
        None => {},
    }
}

/// Every place where `needle` stands in `hay`, also where two of them overlap;
/// none for an empty needle.
pub fn find_all(hay: &[char], needle: &[char]) -> (r: Vec<usize>)
    ensures
        needle@.len() == 0 ==> r@.len() == 0,
        needle@.len() > 0 ==> r@.map_values(|i: usize| i as int) == occurrences(hay@, needle@, 0),
        forall|k: int| 0 <= k < r@.len() ==> #[trigger] r@[k] + needle@.len() <= hay@.len(),
{
    let mut hits: Vec<usize> = Vec::new();
    if needle.len() == 0 {
        return hits;
    }
    let mut from: usize = 0;
    let ghost goal = occurrences(hay@, needle@, 0);
    assert(hits@.map_values(|i: usize| i as int) + goal =~= goal);
    loop
        invariant
            from <= hay@.len() == hay.len(),
            needle@.len() > 0,
            goal == occurrences(hay@, needle@, 0),
            hits@.map_values(|i: usize| i as int) + occurrences(hay@, needle@, from as int)
                == goal,
            forall|k: int| 0 <= k < hits@.len() ==> #[trigger] hits@[k] + needle@.len()
                <= hay@.len(),
        decreases hay@.len() - from,
    {
        let ghost before = hits@.map_values(|i: usize| i as int);
        match text::find(hay, needle, from) {
            None => {
                assert(before + Seq::<int>::empty() =~= before);
                return hits;
            },
            Some(i) => {
                hits.push(i);
                from = i + 1;
                assert(hits@.map_values(|i: usize| i as int) =~= before.push(i as int));
                assert(before + (seq![i as int] + occurrences(hay@, needle@, from as int))
                    =~= hits@.map_values(|i: usize| i as int) + occurrences(
                    hay@,
                    needle@,
                    from as int,
                ));
            },
        }
    }
}

// ---------------------------------------------------------------------------
// Laws.

/// Whether each placed character is the one that stands there in `s`, which begins at `at`,
/// or a space for a space or a tab.
pub open spec fn is_taken_from(placed: Seq<(char, int)>, s: Seq<char>, at: int) -> bool {
    forall|i: int|
        0 <= i < placed.len() ==> {
            let (c, p) = #[trigger] placed[i];
            at <= p < at + s.len() && (c == s[p - at] || (c == ' ' && is_space(s[p - at])))
        }
}

/// Whether every character of `s` that is no blank, and every line feed, is kept.
pub open spec fn keeps_the_solid(placed: Seq<(char, int)>, s: Seq<char>, at: int) -> bool {
    forall|p: int|
        0 <= p < s.len() && (!text::is_white(#[trigger] s[p]) || s[p] == '\n') ==> exists|i: int|
            0 <= i < placed.len() && #[trigger] placed[i] == (s[p], at + p)
}

proof fn collapse_keeps(s: Seq<char>, at: int, after_space: bool)
    ensures
        is_taken_from(collapse(s, at, after_space), s, at),
        keeps_the_solid(collapse(s, at, after_space), s, at),
    decreases s.len(),
{
    let all = collapse(s, at, after_space);
    if s.len() > 0 {
        let space = is_space(s[0]);
        let front: Seq<(char, int)> = if !space {
            seq![(s[0], at)]
        } else if after_space {
            Seq::empty()
        } else {
            seq![(' ', at)]
        };
        let rest = collapse(s.skip(1), at + 1, space);
        collapse_keeps(s.skip(1), at + 1, space);
        assert(all =~= front + rest);
        assert forall|i: int| 0 <= i < all.len() implies {
            let (c, p) = #[trigger] all[i];
            at <= p < at + s.len() && (c == s[p - at] || (c == ' ' && is_space(s[p - at])))
        } by {
            if i >= front.len() {
                assert(all[i] == rest[i - front.len()]);
                let p = rest[i - front.len()].1;
                assert(s.skip(1)[p - at - 1] == s[p - at]);
            }
        }
        assert forall|p: int|
            0 <= p < s.len() && (!text::is_white(#[trigger] s[p]) || s[p] == '\n') implies exists|
            i: int,
        | 0 <= i < all.len() && #[trigger] all[i] == (s[p], at + p) by {
            if p == 0 {
                assert(all[0] == (s[0], at));
            } else {
                assert(s.skip(1)[p - 1] == s[p]);
                let i = choose|i: int|
                    0 <= i < rest.len() && #[trigger] rest[i] == (s.skip(1)[p - 1], at + 1 + (p
                        - 1));
                assert(all[front.len() + i] == rest[i]);
            }
        }
    }
}

proof fn normal_line_keeps(line: Seq<char>, at: int, norm: Normalization)
    requires
        forall|i: int| 0 <= i < line.len() ==> #[trigger] line[i] != '\n',
    ensures
        is_taken_from(normal_line(line, at, norm), line, at),
        keeps_the_solid(normal_line(line, at, norm), line, at),
        norm == Normalization::Endings ==> forall|i: int|
            0 <= i < normal_line(line, at, norm).len() ==> #[trigger] normal_line(
                line,
                at,
                norm,
            )[i] == (line[i], at + i),
{
    let content = text::trim_end(line);
    text::trim_end_shape(line);
    text::trim_start_shape(content);
    let lead = indent_of(content);
    let tail = content.skip(lead);
    collapse_keeps(tail, at + lead, false);
    let c = collapse(tail, at + lead, false);
    let all = normal_line(line, at, norm);
    let k: int = match norm {
        Normalization::Endings => content.len() as int,
        Normalization::Collapse => lead,
        Normalization::Indent => 0,
    };
    assert forall|i: int| 0 <= i < all.len() implies {
        let (ch, p) = #[trigger] all[i];
        at <= p < at + line.len() && (ch == line[p - at] || (ch == ' ' && is_space(line[p - at])))
    } by {
        if i >= k {
            assert(all[i] == c[i - k]);
            let p = c[i - k].1;
            assert(tail[p - at - lead] == line[p - at]);
        }
    }
    assert forall|p: int|
        0 <= p < line.len() && (!text::is_white(#[trigger] line[p]) || line[p] == '\n') implies exists|
        i: int,
    | 0 <= i < all.len() && #[trigger] all[i] == (line[p], at + p) by {
        assert(p < content.len());
        assert(content[p] == line[p]);
        if norm == Normalization::Endings {
            assert(all[p] == (line[p], at + p));
        } else {
            assert(p >= lead) by {
                if p < lead {
                    assert(text::is_white(content[p]));
                }
            }
            assert(tail[p - lead] == line[p]);
            let i = choose|i: int|
                0 <= i < c.len() && #[trigger] c[i] == (tail[p - lead], at + lead + (p - lead));
            assert(all[k + i] == c[i]);
        }
    }
}

/// A normal form loses blanks only, and invents nothing: each of its characters stands in the
/// text at its place, a space for a run of spaces and tabs aside, and every other character
/// of the text is in it.
pub proof fn only_blanks_are_forgiven(s: Seq<char>, at: int, norm: Normalization)
    ensures
        is_taken_from(normal(s, at, norm), s, at),
        keeps_the_solid(normal(s, at, norm), s, at),
        norm == Normalization::Endings ==> forall|i: int|
            0 <= i < normal(s, at, norm).len() ==> (#[trigger] normal(s, at, norm)[i]).0
                == s[normal(s, at, norm)[i].1 - at],
    decreases s.len(),
{
    text::upto_shape(s, '\n');
    let n = text::upto(s, '\n');
    if n >= s.len() {
        normal_line_keeps(s, at, norm);
    } else {
        let head = normal_line(s.take(n), at, norm);
        let rest = normal(s.skip(n + 1), at + n + 1, norm);
        let all = normal(s, at, norm);
        normal_line_keeps(s.take(n), at, norm);
        only_blanks_are_forgiven(s.skip(n + 1), at + n + 1, norm);
        let k = head.len() as int;
        assert(all =~= head + seq![('\n', at + n)] + rest);
        assert forall|i: int| 0 <= i < all.len() implies {
            let (c, p) = #[trigger] all[i];
            at <= p < at + s.len() && (c == s[p - at] || (c == ' ' && is_space(s[p - at]))) && (norm
                == Normalization::Endings ==> c == s[p - at])
        } by {
            if i < k {
                assert(all[i] == head[i]);
                assert(s.take(n)[head[i].1 - at] == s[head[i].1 - at]);
            } else if i > k {
                let p = rest[i - k - 1].1;
                assert(all[i] == rest[i - k - 1]);
                assert(s.skip(n + 1)[p - at - n - 1] == s[p - at]);
            }
        }
        assert forall|p: int|
            0 <= p < s.len() && (!text::is_white(#[trigger] s[p]) || s[p] == '\n') implies exists|
            i: int,
        | 0 <= i < all.len() && #[trigger] all[i] == (s[p], at + p) by {
            if p < n {
                assert(s.take(n)[p] == s[p]);
                let i = choose|i: int|
                    0 <= i < head.len() && #[trigger] head[i] == (s.take(n)[p], at + p);
                assert(all[i] == head[i]);
            } else if p == n {
                assert(all[k] == ('\n', at + n));
            } else {
                let q = p - n - 1;
                assert(s.skip(n + 1)[q] == s[p]);
                let i = choose|i: int|
                    0 <= i < rest.len() && #[trigger] rest[i] == (s.skip(n + 1)[q], at + n + 1 + q);
                assert(all[k + 1 + i] == rest[i]);
            }
        }
    }
}

proof fn letters_of_collapse(s: Seq<char>, a: int, b: int, after_space: bool)
    ensures
        letters(collapse(s, a, after_space)) == letters(collapse(s, b, after_space)),
    decreases s.len(),
{
    if s.len() > 0 {
        let space = is_space(s[0]);
        letters_of_collapse(s.skip(1), a + 1, b + 1, space);
        let (x, y) = (collapse(s.skip(1), a + 1, space), collapse(s.skip(1), b + 1, space));
        assert(letters(x).len() == letters(y).len());
        let (p, q) = (collapse(s, a, after_space), collapse(s, b, after_space));
        if space && after_space {
        } else {
            assert forall|i: int| 0 <= i < p.len() implies letters(p)[i] == letters(q)[i] by {
                if i > 0 {
                    assert(letters(p)[i] == letters(x)[i - 1]);
                    assert(letters(q)[i] == letters(y)[i - 1]);
                }
            }
            assert(letters(p) =~= letters(q));
        }
    }
}

proof fn letters_behind(front: Seq<char>, at: int, rest: Seq<(char, int)>)
    ensures
        letters(verbatim(front, at) + rest) == front + letters(rest),
        letters(verbatim(front, at)) == front,
{
    assert(letters(verbatim(front, at) + rest) =~= front + letters(rest));
    assert(letters(verbatim(front, at)) =~= front);
}

proof fn letters_of_line(line: Seq<char>, a: int, b: int, norm: Normalization)
    ensures
        letters(normal_line(line, a, norm)) == letters(normal_line(line, b, norm)),
{
    let content = text::trim_end(line);
    let lead = indent_of(content);
    letters_of_collapse(content.skip(lead), a + lead, b + lead, false);
    letters_behind(content, a, Seq::empty());
    letters_behind(content, b, Seq::empty());
    letters_behind(content.take(lead), a, collapse(content.skip(lead), a + lead, false));
    letters_behind(content.take(lead), b, collapse(content.skip(lead), b + lead, false));
}

proof fn letters_do_not_depend_on_places(s: Seq<char>, a: int, b: int, norm: Normalization)
    ensures
        letters(normal(s, a, norm)) == letters(normal(s, b, norm)),
    decreases s.len(),
{
    text::upto_shape(s, '\n');
    let n = text::upto(s, '\n');
    if n >= s.len() {
        letters_of_line(s, a, b, norm);
    } else {
        letters_of_line(s.take(n), a, b, norm);
        letters_do_not_depend_on_places(s.skip(n + 1), a + n + 1, b + n + 1, norm);
        one_line_more(s, a, norm);
        one_line_more(s, b, norm);
    }
}

proof fn one_line_more(s: Seq<char>, at: int, norm: Normalization)
    requires
        text::upto(s, '\n') < s.len(),
    ensures
        ({
            let n = text::upto(s, '\n');
            letters(normal(s, at, norm)) == letters(normal_line(s.take(n), at, norm)) + seq!['\n']
                + letters(normal(s.skip(n + 1), at + n + 1, norm))
        }),
{
    let n = text::upto(s, '\n');
    text::upto_shape(s, '\n');
    assert(letters(normal(s, at, norm)) =~= letters(normal_line(s.take(n), at, norm)) + seq!['\n']
        + letters(normal(s.skip(n + 1), at + n + 1, norm)));
}

/// The normal form of a line by itself.
pub open spec fn line_form(line: Seq<char>, norm: Normalization) -> Seq<char> {
    letters(normal_line(line, 0, norm))
}

/// A text is brought into its normal form line by line.
pub proof fn lines_are_treated_alike(line: Seq<char>, rest: Seq<char>, norm: Normalization)
    requires
        forall|i: int| 0 <= i < line.len() ==> #[trigger] line[i] != '\n',
    ensures
        normal_text(line + seq!['\n'] + rest, norm) == line_form(line, norm) + seq!['\n']
            + normal_text(rest, norm),
        normal_text(line, norm) == line_form(line, norm),
{
    let s = line + seq!['\n'] + rest;
    text::upto_shape(s, '\n');
    let n = text::upto(s, '\n');
    assert(s[line.len() as int] == '\n');
    if n < line.len() {
        assert(s[n] == line[n]);
    }
    assert(s.take(n) =~= line);
    assert(s.skip(n + 1) =~= rest);
    one_line_more(s, 0, norm);
    letters_do_not_depend_on_places(rest, n + 1, 0, norm);
    text::upto_shape(line, '\n');
}

/// Blanks at the end of a line, a carriage return among them, do not count at any tier; its
/// indentation does not count at the last.
pub proof fn blanks_at_the_ends_do_not_count(
    line: Seq<char>,
    blanks: Seq<char>,
    norm: Normalization,
)
    requires
        text::is_blank(blanks),
    ensures
        line_form(line + blanks, norm) == line_form(line, norm),
        line_form(blanks + line, Normalization::Indent) == line_form(line, Normalization::Indent),
        !text::is_blank(line) ==> line_form(blanks + line, Normalization::Endings) == blanks
            + line_form(line, Normalization::Endings),
        !text::is_blank(line) ==> line_form(blanks + line, Normalization::Collapse) == blanks
            + line_form(line, Normalization::Collapse),
{
    text::trim_end_drops_white(line, blanks);
    let c = text::trim_end(line);
    text::trim_end_shape(line);
    let none = Seq::<char>::empty();
    if text::is_blank(line) {
        assert(text::is_blank(blanks + line)) by {
            assert forall|i: int| 0 <= i < (blanks + line).len() implies text::is_white(
                #[trigger] (blanks + line)[i],
            ) by {
                if i >= blanks.len() {
                    assert((blanks + line)[i] == line[i - blanks.len()]);
                }
            }
        }
        text::trim_end_drops_white(none, line);
        text::trim_end_drops_white(none, blanks + line);
        assert(none + line =~= line);
        assert(none + (blanks + line) =~= blanks + line);
    } else {
        assert(text::trim_end(blanks + line) == blanks + c) by {
            text::trim_end_shape(blanks + line);
            let t = text::trim_end(blanks + line);
            assert(c.len() > 0) by {
                if c.len() == 0 {
                    assert(text::is_blank(line));
                }
            }
            let last = c.len() - 1;
            assert((blanks + line)[blanks.len() + last] == c[last]);
            assert(t.len() == blanks.len() + c.len()) by {
                if t.len() < blanks.len() + c.len() {
                    assert(text::is_white((blanks + line)[blanks.len() + last]));
                }
                if t.len() > blanks.len() + c.len() {
                    assert(t.last() == line[t.len() - 1 - blanks.len()]);
                }
            }
            assert(t =~= blanks + c);
        }
        text::trim_start_drops_white(blanks, c);
        text::trim_start_shape(c);
        let lead = indent_of(c);
        let k = blanks.len() as int;
        assert(indent_of(blanks + c) == k + lead);
        assert((blanks + c).skip(k + lead) =~= c.skip(lead));
        assert((blanks + c).take(k + lead) =~= blanks + c.take(lead));
        letters_of_collapse(c.skip(lead), k + lead, lead, false);
        let x = letters(collapse(c.skip(lead), lead, false));
        let y = letters(collapse(c.skip(lead), k + lead, false));
        assert(line_form(blanks + line, Normalization::Endings) =~= blanks + line_form(
            line,
            Normalization::Endings,
        ));
        letters_behind(blanks + c.take(lead), 0, collapse(c.skip(lead), k + lead, false));
        letters_behind(c.take(lead), 0, collapse(c.skip(lead), lead, false));
        assert(blanks + c.take(lead) + x =~= blanks + (c.take(lead) + x));
    }
}

/// Whether a text is made of spaces and tabs, one at least.
pub open spec fn is_space_run(s: Seq<char>) -> bool {
    s.len() > 0 && forall|i: int| 0 <= i < s.len() ==> is_space(#[trigger] s[i])
}

proof fn run_is_one_space(run: Seq<char>, rest: Seq<char>, at: int, after_space: bool)
    requires
        is_space_run(run),
    ensures
        letters(collapse(run + rest, at, after_space)) == (if after_space {
            Seq::empty()
        } else {
            seq![' ']
        }) + letters(collapse(rest, 0, true)),
    decreases run.len(),
{
    let s = run + rest;
    assert(s[0] == run[0]);
    assert(s.skip(1) =~= run.skip(1) + rest);
    let tail = collapse(s.skip(1), at + 1, true);
    if run.len() == 1 {
        assert(s.skip(1) =~= rest);
        letters_of_collapse(rest, at + 1, 0, true);
    } else {
        assert(is_space_run(run.skip(1))) by {
            assert forall|i: int| 0 <= i < run.skip(1).len() implies is_space(
                #[trigger] run.skip(1)[i],
            ) by {
                assert(run.skip(1)[i] == run[i + 1]);
            }
        }
        run_is_one_space(run.skip(1), rest, at + 1, true);
        assert(Seq::<char>::empty() + letters(collapse(rest, 0, true)) =~= letters(
            collapse(rest, 0, true),
        ));
    }
    assert(letters(tail) == letters(collapse(rest, 0, true)));
    if after_space {
        assert(letters(collapse(s, at, after_space)) =~= Seq::<char>::empty() + letters(tail));
    } else {
        assert(letters(collapse(s, at, after_space)) =~= seq![' '] + letters(tail));
    }
}

/// How long a run of spaces and tabs is does not count where runs are collapsed.
pub proof fn run_lengths_do_not_count(
    a: Seq<char>,
    run: Seq<char>,
    other: Seq<char>,
    b: Seq<char>,
    after_space: bool,
)
    requires
        is_space_run(run),
        is_space_run(other),
    ensures
        letters(collapse(a + run + b, 0, after_space)) == letters(
            collapse(a + other + b, 0, after_space),
        ),
    decreases a.len(),
{
    if a.len() == 0 {
        assert(a + run + b =~= run + b);
        assert(a + other + b =~= other + b);
        run_is_one_space(run, b, 0, after_space);
        run_is_one_space(other, b, 0, after_space);
    } else {
        let (s, t) = (a + run + b, a + other + b);
        let space = is_space(a[0]);
        assert(s[0] == a[0] && t[0] == a[0]);
        assert(s.skip(1) =~= a.skip(1) + run + b);
        assert(t.skip(1) =~= a.skip(1) + other + b);
        run_lengths_do_not_count(a.skip(1), run, other, b, space);
        letters_of_collapse(s.skip(1), 1, 0, space);
        letters_of_collapse(t.skip(1), 1, 0, space);
        let (p, q) = (collapse(s.skip(1), 1, space), collapse(t.skip(1), 1, space));
        assert(letters(p) == letters(q));
        if space && after_space {
        } else {
            let c = if space {
                ' '
            } else {
                a[0]
            };
            assert(letters(collapse(s, 0, after_space)) =~= seq![c] + letters(p));
            assert(letters(collapse(t, 0, after_space)) =~= seq![c] + letters(q));
        }
    }
}

/// The blank lines round what is looked for do not count, and no line inside it is lost.
pub proof fn blank_lines_around_do_not_count(ls: Seq<Seq<char>>)
    ensures
        ({
            let kept = drop_blank_back(drop_blank_front(ls));
            &&& kept.len() > 0 ==> !text::is_blank(kept[0]) && !text::is_blank(kept.last())
            &&& exists|lo: int, hi: int|
                0 <= lo <= hi <= ls.len() && kept == #[trigger] ls.subrange(lo, hi) && (forall|
                    i: int,
                |
                    (0 <= i < lo || hi <= i < ls.len()) ==> text::is_blank(#[trigger] ls[i]))
        }),
{
    let front = drop_blank_front(ls);
    front_is_dropped(ls);
    back_is_dropped(front);
    let kept = drop_blank_back(front);
    let lo = ls.len() - front.len();
    let hi = lo + kept.len();
    assert(kept =~= ls.subrange(lo, hi));
    assert forall|i: int| (0 <= i < lo || hi <= i < ls.len()) implies text::is_blank(
        #[trigger] ls[i],
    ) by {
        if i >= hi {
            assert(front[i - lo] == ls[i]);
        }
    }
    if kept.len() > 0 {
        assert(kept[0] == front[0]);
    }
}

proof fn front_is_dropped(ls: Seq<Seq<char>>)
    ensures
        drop_blank_front(ls).len() <= ls.len(),
        drop_blank_front(ls) == ls.skip(ls.len() - drop_blank_front(ls).len()),
        forall|i: int|
            0 <= i < ls.len() - drop_blank_front(ls).len() ==> text::is_blank(#[trigger] ls[i]),
        drop_blank_front(ls).len() > 0 ==> !text::is_blank(drop_blank_front(ls)[0]),
    decreases ls.len(),
{
    if ls.len() > 0 && text::is_blank(ls[0]) {
        front_is_dropped(ls.skip(1));
        let t = drop_blank_front(ls.skip(1));
        assert(t =~= ls.skip(ls.len() - t.len()));
        assert forall|i: int| 0 <= i < ls.len() - t.len() implies text::is_blank(
            #[trigger] ls[i],
        ) by {
            if i > 0 {
                assert(ls.skip(1)[i - 1] == ls[i]);
            }
        }
    } else {
        assert(ls.skip(0) =~= ls);
    }
}

proof fn back_is_dropped(ls: Seq<Seq<char>>)
    ensures
        drop_blank_back(ls).len() <= ls.len(),
        drop_blank_back(ls) == ls.take(drop_blank_back(ls).len() as int),
        forall|i: int|
            drop_blank_back(ls).len() <= i < ls.len() ==> text::is_blank(#[trigger] ls[i]),
        drop_blank_back(ls).len() > 0 ==> !text::is_blank(drop_blank_back(ls).last()),
    decreases ls.len(),
{
    if ls.len() > 0 && text::is_blank(ls.last()) {
        back_is_dropped(ls.drop_last());
        let t = drop_blank_back(ls.drop_last());
        assert(t =~= ls.take(t.len() as int));
        assert forall|i: int| t.len() <= i < ls.len() implies text::is_blank(#[trigger] ls[i]) by {
            if i < ls.len() - 1 {
                assert(ls.drop_last()[i] == ls[i]);
            }
        }
    } else {
        assert(ls.take(ls.len() as int) =~= ls);
    }
}

/// The places are listed in order, each once.
pub proof fn occurrences_rise(hay: Seq<char>, needle: Seq<char>, from: int)
    requires
        0 <= from,
    ensures
        forall|i: int|
            0 <= i < occurrences(hay, needle, from).len() ==> from <= #[trigger] occurrences(
                hay,
                needle,
                from,
            )[i],
        forall|i: int, j: int|
            0 <= i < j < occurrences(hay, needle, from).len() ==> #[trigger] occurrences(
                hay,
                needle,
                from,
            )[i] < #[trigger] occurrences(hay, needle, from)[j],
    decreases hay.len() + 1 - from,
{
    text::find_from_is_first(hay, needle, from);
    match text::find_from(hay, needle, from) {
        Some(k) => {
            occurrences_rise(hay, needle, k + 1);
            let rest = occurrences(hay, needle, k + 1);
            let all = occurrences(hay, needle, from);
            assert forall|i: int| 0 <= i < all.len() implies from <= #[trigger] all[i] by {
                if i > 0 {
                    assert(all[i] == rest[i - 1]);
                }
            }
            assert forall|i: int, j: int| 0 <= i < j < all.len() implies #[trigger] all[i]
                < #[trigger] all[j] by {
                assert(all[j] == rest[j - 1]);
                if i > 0 {
                    assert(all[i] == rest[i - 1]);
                }
            }
        },
        None => {},
    }
}

} // verus!
