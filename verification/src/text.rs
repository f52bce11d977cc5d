//! Text as sequences of characters: searching, trimming, splitting, joining
//! and decimal numerals. Every other module speaks of text through the
//! specifications given here.

use vstd::prelude::*;
use vstd::string::*;

verus! {

/// `String::push` appends one character.
pub assume_specification[ String::push ](s: &mut String, c: char)
    ensures
        final(s)@ == old(s)@.push(c),
;

// ---------------------------------------------------------------------------
// Between strings and vectors of characters.

/// The characters of `s`, in order.
pub fn chars_of(s: &str) -> (r: Vec<char>)
    ensures
        r@ == s@,
{
    let mut out: Vec<char> = Vec::new();
    for c in it: s.chars()
        invariant
            it.seq() == s@,
            out@ == s@.take(it.index()),
    {
        out.push(c);
        assert(out@ =~= s@.take(it.index() + 1));
    }
    assert(s@.take(s@.len() as int) =~= s@);
    out
}

/// The string made of `cs`.
pub fn string_of(cs: &[char]) -> (r: String)
    ensures
        r@ == cs@,
{
    let mut out = String::new();
    let mut i: usize = 0;
    while i < cs.len()
        invariant
            i <= cs@.len(),
            out@ == cs@.take(i as int),
        decreases cs@.len() - i,
    {
        out.push(cs[i]);
        i += 1;
        assert(out@ =~= cs@.take(i as int));
    }
    assert(cs@.take(cs@.len() as int) =~= cs@);
    out
}

/// The characters of `cs` from `lo` up to `hi`.
pub fn slice_of(cs: &[char], lo: usize, hi: usize) -> (r: Vec<char>)
    requires
        lo <= hi <= cs@.len(),
    ensures
        r@ == cs@.subrange(lo as int, hi as int),
{
    let mut out: Vec<char> = Vec::new();
    let mut i: usize = lo;
    while i < hi
        invariant
            lo <= i <= hi <= cs@.len(),
            out@ == cs@.subrange(lo as int, i as int),
        decreases hi - i,
    {
        out.push(cs[i]);
        i += 1;
        assert(out@ =~= cs@.subrange(lo as int, i as int));
    }
    out
}

/// The string made of the characters of `cs` from `lo` up to `hi`.
pub fn substring_of(cs: &[char], lo: usize, hi: usize) -> (r: String)
    requires
        lo <= hi <= cs@.len(),
    ensures
        r@ == cs@.subrange(lo as int, hi as int),
{
    let part = slice_of(cs, lo, hi);
    string_of(part.as_slice())
}

/// Appends `src` to `dst`.
pub fn extend_chars(dst: &mut Vec<char>, src: &[char])
    ensures
        final(dst)@ == old(dst)@ + src@,
{
    let mut i: usize = 0;
    assert(dst@ =~= old(dst)@ + src@.take(0));
    while i < src.len()
        invariant
            i <= src@.len(),
            dst@ == old(dst)@ + src@.take(i as int),
        decreases src@.len() - i,
    {
        dst.push(src[i]);
        i += 1;
        assert(dst@ =~= old(dst)@ + src@.take(i as int));
    }
    assert(src@.take(src@.len() as int) =~= src@);
}

/// Whether two strings hold the same characters.
pub fn same_text(a: &str, b: &str) -> (r: bool)
    ensures
        r == (a@ == b@),
{
    a.to_string() == b.to_string()
}

/// Whether two character slices are equal.
pub fn same_chars(a: &[char], b: &[char]) -> (r: bool)
    ensures
        r == (a@ == b@),
{
    if a.len() != b.len() {
        return false;
    }
    let mut i: usize = 0;
    while i < a.len()
        invariant
            a@.len() == b@.len(),
            i <= a@.len(),
            forall|k: int| 0 <= k < i ==> a@[k] == b@[k],
        decreases a@.len() - i,
    {
        if a[i] != b[i] {
            return false;
        }
        i += 1;
    }
    assert(a@ =~= b@);
    true
}

// ---------------------------------------------------------------------------
// Searching.

/// `needle` stands in `hay` at `i`.
pub open spec fn occurs_at(hay: Seq<char>, needle: Seq<char>, i: int) -> bool {
    &&& 0 <= i
    &&& i + needle.len() <= hay.len()
    &&& hay.subrange(i, i + needle.len()) == needle
}

/// The first place at or after `from` where `needle` stands in `hay`.
pub open spec fn find_from(hay: Seq<char>, needle: Seq<char>, from: int) -> Option<int>
    decreases hay.len() + 1 - from,
{
    if from < 0 || from + needle.len() > hay.len() {
        None
    } else if occurs_at(hay, needle, from) {
        Some(from)
    } else {
        find_from(hay, needle, from + 1)
    }
}

/// Whether `needle` stands anywhere in `hay`.
pub open spec fn contains(hay: Seq<char>, needle: Seq<char>) -> bool {
    exists|i: int| occurs_at(hay, needle, i)
}

/// What `find_from` returns is the first occurrence, and it misses none.
pub proof fn find_from_is_first(hay: Seq<char>, needle: Seq<char>, from: int)
    requires
        0 <= from,
    ensures
        match find_from(hay, needle, from) {
            Some(i) => from <= i && occurs_at(hay, needle, i) && (forall|j: int|
                from <= j < i ==> !occurs_at(hay, needle, j)),
            None => forall|j: int| from <= j ==> !occurs_at(hay, needle, j),
        },
    decreases hay.len() + 1 - from,
{
    if from + needle.len() > hay.len() {
    } else if occurs_at(hay, needle, from) {
    } else {
        find_from_is_first(hay, needle, from + 1);
    }
}

/// A text contains `needle` exactly when searching from its start finds it.
pub proof fn contains_is_found(hay: Seq<char>, needle: Seq<char>)
    ensures
        contains(hay, needle) <==> find_from(hay, needle, 0) is Some,
{
    find_from_is_first(hay, needle, 0);
}

/// Whether `needle` stands in `hay` at `i`.
pub fn is_at(hay: &[char], needle: &[char], i: usize) -> (r: bool)
    ensures
        r == occurs_at(hay@, needle@, i as int),
{
    if needle.len() > hay.len() || i > hay.len() - needle.len() {
        return false;
    }
    let mut k: usize = 0;
    while k < needle.len()
        invariant
            i + needle@.len() <= hay@.len() == hay.len(),
            k <= needle@.len(),
            forall|q: int| 0 <= q < k ==> hay@[i + q] == needle@[q],
        decreases needle@.len() - k,
    {
        if hay[i + k] != needle[k] {
            assert(hay@.subrange(i as int, i + needle@.len())[k as int] != needle@[k as int]);
            return false;
        }
        k += 1;
    }
    assert(hay@.subrange(i as int, i + needle@.len()) =~= needle@);
    true
}

/// The first place at or after `from` where `needle` stands in `hay`.
pub fn find(hay: &[char], needle: &[char], from: usize) -> (r: Option<usize>)
    ensures
        match r {
            Some(i) => find_from(hay@, needle@, from as int) == Some(i as int) && from <= i && i
                + needle@.len() <= hay@.len() && occurs_at(hay@, needle@, i as int),
            None => find_from(hay@, needle@, from as int) is None,
        },
{
    let mut i: usize = from;
    while needle.len() <= hay.len() && i <= hay.len() - needle.len()
        invariant
            from <= i,
            find_from(hay@, needle@, from as int) == find_from(hay@, needle@, i as int),
        decreases hay@.len() - i,
    {
        if is_at(hay, needle, i) {
            return Some(i);
        }
        assert(i < hay@.len()) by {
            if i == hay@.len() {
                assert(hay@.subrange(i as int, i as int) =~= needle@);
            }
        }
        i += 1;
    }
    None
}

/// Whether `needle` stands anywhere in `hay`.
pub fn has(hay: &[char], needle: &[char]) -> (r: bool)
    ensures
        r == contains(hay@, needle@),
{
    proof {
        contains_is_found(hay@, needle@);
    }
    find(hay, needle, 0).is_some()
}

/// Whether the string `hay` contains `needle`.
pub fn str_has(hay: &str, needle: &str) -> (r: bool)
    ensures
        r == contains(hay@, needle@),
{
    let h = chars_of(hay);
    let n = chars_of(needle);
    has(h.as_slice(), n.as_slice())
}

/// Whether `s` begins with `prefix`.
pub open spec fn begins_with(s: Seq<char>, prefix: Seq<char>) -> bool {
    occurs_at(s, prefix, 0)
}

/// Whether `s` ends with `suffix`.
pub open spec fn ends_in(s: Seq<char>, suffix: Seq<char>) -> bool {
    occurs_at(s, suffix, s.len() - suffix.len())
}

/// Whether `hay` begins with `prefix`.
pub fn starts(hay: &[char], prefix: &[char]) -> (r: bool)
    ensures
        r == begins_with(hay@, prefix@),
{
    is_at(hay, prefix, 0)
}

/// Whether `hay` ends with `suffix`.
pub fn ends(hay: &[char], suffix: &[char]) -> (r: bool)
    ensures
        r == ends_in(hay@, suffix@),
{
    if suffix.len() > hay.len() {
        return false;
    }
    is_at(hay, suffix, hay.len() - suffix.len())
}

// ---------------------------------------------------------------------------
// Whitespace.

/// The characters with the Unicode `White_Space` property.
pub open spec fn is_white(c: char) -> bool {
    let n = c as u32;
    ||| 9 <= n <= 13
    ||| n == 0x20
    ||| n == 0x85
    ||| n == 0xa0
    ||| n == 0x1680
    ||| 0x2000 <= n <= 0x200a
    ||| n == 0x2028
    ||| n == 0x2029
    ||| n == 0x202f
    ||| n == 0x205f
    ||| n == 0x3000
}

/// Whether `c` is whitespace.
pub fn white(c: char) -> (r: bool)
    ensures
        r == is_white(c),
{
    let n: u32 = c as u32;
    (9 <= n && n <= 13) || n == 0x20 || n == 0x85 || n == 0xa0 || n == 0x1680 || (0x2000 <= n && n
        <= 0x200a) || n == 0x2028 || n == 0x2029 || n == 0x202f || n == 0x205f || n == 0x3000
}

/// `s` without its leading whitespace.
pub open spec fn trim_start(s: Seq<char>) -> Seq<char>
    decreases s.len(),
{
    if s.len() > 0 && is_white(s[0]) {
        trim_start(s.skip(1))
    } else {
        s
    }
}

/// `s` without its trailing whitespace.
pub open spec fn trim_end(s: Seq<char>) -> Seq<char>
    decreases s.len(),
{
    if s.len() > 0 && is_white(s.last()) {
        trim_end(s.drop_last())
    } else {
        s
    }
}

/// `s` without whitespace at either end.
pub open spec fn trim(s: Seq<char>) -> Seq<char> {
    trim_end(trim_start(s))
}

/// Nothing but whitespace.
pub open spec fn is_blank(s: Seq<char>) -> bool {
    forall|i: int| 0 <= i < s.len() ==> is_white(#[trigger] s[i])
}

/// Trimming leaves nothing exactly of a blank text.
pub proof fn trim_of_blank(s: Seq<char>)
    ensures
        trim(s).len() == 0 <==> is_blank(s),
        trim_start(s).len() == 0 <==> is_blank(s),
    decreases s.len(),
{
    trim_start_shape(s);
    let t = trim_start(s);
    trim_end_shape(t);
    if t.len() > 0 {
        assert(!is_white(t[0]));
        let u = trim_end(t);
        if u.len() == 0 {
            assert(is_white(t[0]));
        }
        assert(s[s.len() - t.len()] == t[0]);
    }
}

/// Trimming the front drops a run of whitespace that ends at the first other
/// character.
pub proof fn trim_start_shape(s: Seq<char>)
    ensures
        trim_start(s).len() <= s.len(),
        trim_start(s) == s.skip(s.len() - trim_start(s).len()),
        forall|i: int| 0 <= i < s.len() - trim_start(s).len() ==> is_white(#[trigger] s[i]),
        trim_start(s).len() > 0 ==> !is_white(trim_start(s)[0]),
    decreases s.len(),
{
    if s.len() > 0 && is_white(s[0]) {
        trim_start_shape(s.skip(1));
        let t = trim_start(s.skip(1));
        assert(t =~= s.skip(s.len() - t.len()));
        assert forall|i: int| 0 <= i < s.len() - t.len() implies is_white(#[trigger] s[i]) by {
            if i > 0 {
                assert(s.skip(1)[i - 1] == s[i]);
            }
        }
    } else {
        assert(s.skip(0) =~= s);
    }
}

/// Trimming the back drops a run of whitespace that begins after the last
/// other character.
pub proof fn trim_end_shape(s: Seq<char>)
    ensures
        trim_end(s).len() <= s.len(),
        trim_end(s) == s.take(trim_end(s).len() as int),
        forall|i: int| trim_end(s).len() <= i < s.len() ==> is_white(#[trigger] s[i]),
        trim_end(s).len() > 0 ==> !is_white(trim_end(s).last()),
    decreases s.len(),
{
    if s.len() > 0 && is_white(s.last()) {
        trim_end_shape(s.drop_last());
        let t = trim_end(s.drop_last());
        assert(t =~= s.take(t.len() as int));
        assert forall|i: int| t.len() <= i < s.len() implies is_white(#[trigger] s[i]) by {
            if i < s.len() - 1 {
                assert(s.drop_last()[i] == s[i]);
            }
        }
    } else {
        assert(s.take(s.len() as int) =~= s);
    }
}

/// How many whitespace characters stand at the front of `cs`.
pub fn leading_white(cs: &[char]) -> (n: usize)
    ensures
        n <= cs@.len(),
        trim_start(cs@) == cs@.skip(n as int),
        n == cs@.len() - trim_start(cs@).len(),
{
    let mut i: usize = 0;
    assert(cs@.skip(0) =~= cs@);
    while i < cs.len() && white(cs[i])
        invariant
            i <= cs@.len(),
            trim_start(cs@) == trim_start(cs@.skip(i as int)),
        decreases cs@.len() - i,
    {
        assert(cs@.skip(i as int).skip(1) =~= cs@.skip(i + 1));
        i += 1;
    }
    i
}

/// The length of `cs` without its trailing whitespace.
pub fn trimmed_end_len(cs: &[char]) -> (n: usize)
    ensures
        n <= cs@.len(),
        trim_end(cs@) == cs@.take(n as int),
        n == trim_end(cs@).len(),
{
    let mut i: usize = cs.len();
    assert(cs@.take(i as int) =~= cs@);
    while i > 0 && white(cs[i - 1])
        invariant
            i <= cs@.len(),
            trim_end(cs@) == trim_end(cs@.take(i as int)),
        decreases i,
    {
        assert(cs@.take(i as int).drop_last() =~= cs@.take(i - 1));
        i -= 1;
    }
    i
}

/// `cs` without its trailing whitespace.
pub fn trimmed_end(cs: &[char]) -> (r: Vec<char>)
    ensures
        r@ == trim_end(cs@),
{
    let n = trimmed_end_len(cs);
    slice_of(cs, 0, n)
}

/// `cs` without its leading whitespace.
pub fn trimmed_start(cs: &[char]) -> (r: Vec<char>)
    ensures
        r@ == trim_start(cs@),
{
    let n = leading_white(cs);
    slice_of(cs, n, cs.len())
}

/// `cs` without whitespace at either end.
pub fn trimmed(cs: &[char]) -> (r: Vec<char>)
    ensures
        r@ == trim(cs@),
{
    let t = trimmed_start(cs);
    trimmed_end(t.as_slice())
}

/// Whether `cs` is nothing but whitespace.
pub fn blank(cs: &[char]) -> (r: bool)
    ensures
        r == is_blank(cs@),
{
    proof {
        trim_of_blank(cs@);
    }
    leading_white(cs) == cs.len()
}

/// `s` without whitespace at either end.
pub fn str_trim(s: &str) -> (r: String)
    ensures
        r@ == trim(s@),
{
    let cs = chars_of(s);
    let t = trimmed(cs.as_slice());
    string_of(t.as_slice())
}

/// Whether the string `s` is nothing but whitespace.
pub fn str_blank(s: &str) -> (r: bool)
    ensures
        r == is_blank(s@),
{
    let cs = chars_of(s);
    blank(cs.as_slice())
}

// ---------------------------------------------------------------------------
// Splitting and joining.

/// The number of characters of `s` before its first `c`; all of them where it
/// has none.
pub open spec fn upto(s: Seq<char>, c: char) -> int
    decreases s.len(),
{
    if s.len() == 0 || s[0] == c {
        0
    } else {
        1 + upto(s.skip(1), c)
    }
}

/// The pieces of `s` between its separators; one piece where it has none.
pub open spec fn split_on(s: Seq<char>, sep: char) -> Seq<Seq<char>>
    decreases s.len(),
    via split_on_decreases
{
    let n = upto(s, sep);
    if n >= s.len() {
        seq![s]
    } else {
        seq![s.take(n)] + split_on(s.skip(n + 1), sep)
    }
}

#[via_fn]
proof fn split_on_decreases(s: Seq<char>, sep: char) {
    upto_shape(s, sep);
}

/// `upto` stops at the first `c`.
pub proof fn upto_shape(s: Seq<char>, c: char)
    ensures
        0 <= upto(s, c) <= s.len(),
        forall|i: int| 0 <= i < upto(s, c) ==> s[i] != c,
        upto(s, c) < s.len() ==> s[upto(s, c)] == c,
    decreases s.len(),
{
    if s.len() == 0 || s[0] == c {
    } else {
        upto_shape(s.skip(1), c);
        assert forall|i: int| 0 <= i < upto(s, c) implies s[i] != c by {
            if i > 0 {
                assert(s.skip(1)[i - 1] == s[i]);
            }
        }
    }
}

/// The parts one after another with `sep` between neighbours.
pub open spec fn join(parts: Seq<Seq<char>>, sep: Seq<char>) -> Seq<char>
    decreases parts.len(),
{
    if parts.len() == 0 {
        Seq::empty()
    } else if parts.len() == 1 {
        parts[0]
    } else {
        join(parts.drop_last(), sep) + sep + parts.last()
    }
}

/// The character sequences that a sequence of vectors holds.
pub open spec fn texts(v: Seq<Vec<char>>) -> Seq<Seq<char>> {
    v.map_values(|x: Vec<char>| x@)
}

/// The text of a string, where there is one.
pub open spec fn optional(s: Option<String>) -> Option<Seq<char>> {
    match s {
        Some(t) => Some(t@),
        None => None,
    }
}

/// The character sequences that a sequence of strings holds.
pub open spec fn strings(v: Seq<String>) -> Seq<Seq<char>> {
    v.map_values(|x: String| x@)
}

/// The number of characters of `cs` from `from` on before the first `c`, as an
/// index into `cs`.
pub fn index_of_char(cs: &[char], c: char, from: usize) -> (i: usize)
    requires
        from <= cs@.len(),
    ensures
        from <= i <= cs@.len(),
        i - from == upto(cs@.skip(from as int), c),
        forall|k: int| from <= k < i ==> cs@[k] != c,
        i < cs@.len() ==> cs@[i as int] == c,
{
    let mut i: usize = from;
    while i < cs.len() && cs[i] != c
        invariant
            from <= i <= cs@.len(),
            upto(cs@.skip(from as int), c) == i - from + upto(cs@.skip(i as int), c),
            forall|k: int| from <= k < i ==> cs@[k] != c,
        decreases cs@.len() - i,
    {
        assert(cs@.skip(i as int).skip(1) =~= cs@.skip(i + 1));
        i += 1;
    }
    i
}

/// The pieces of `cs` between its separators.
pub fn split_chars(cs: &[char], sep: char) -> (r: Vec<Vec<char>>)
    ensures
        texts(r@) == split_on(cs@, sep),
        r@.len() >= 1,
{
    let mut out: Vec<Vec<char>> = Vec::new();
    let mut from: usize = 0;
    assert(cs@.skip(0) =~= cs@);
    assert(texts(out@) + split_on(cs@, sep) =~= split_on(cs@, sep));
    loop
        invariant
            from <= cs@.len(),
            texts(out@) + split_on(cs@.skip(from as int), sep) == split_on(cs@, sep),
        decreases cs@.len() - from,
    {
        let i = index_of_char(cs, sep, from);
        let ghost rest = cs@.skip(from as int);
        let ghost before = texts(out@);
        let piece = slice_of(cs, from, i);
        assert(piece@ =~= rest.take(i - from));
        out.push(piece);
        assert(texts(out@) =~= before.push(piece@));
        if i == cs.len() {
            assert(piece@ =~= rest);
            assert(split_on(rest, sep) == seq![rest]);
            assert(before + seq![rest] =~= texts(out@));
            return out;
        }
        assert(rest.skip(i - from + 1) =~= cs@.skip(i + 1));
        assert(before + (seq![piece@] + split_on(cs@.skip(i + 1), sep)) =~= texts(out@)
            + split_on(cs@.skip(i + 1), sep));
        from = i + 1;
    }
}

/// The parts one after another with `sep` between neighbours.
pub fn join_chars(parts: &Vec<Vec<char>>, sep: &[char]) -> (r: Vec<char>)
    ensures
        r@ == join(texts(parts@), sep@),
{
    let mut out: Vec<char> = Vec::new();
    let mut i: usize = 0;
    let ghost all = texts(parts@);
    while i < parts.len()
        invariant
            i <= parts@.len(),
            all == texts(parts@),
            out@ == join(all.take(i as int), sep@),
        decreases parts@.len() - i,
    {
        let ghost was = out@;
        if i > 0 {
            extend_chars(&mut out, sep);
        }
        extend_chars(&mut out, parts[i].as_slice());
        assert(all.take(i + 1).drop_last() =~= all.take(i as int));
        assert(all[i as int] == parts@[i as int]@);
        if i == 0 {
            assert(out@ =~= parts@[0]@);
        }
        i += 1;
    }
    assert(all.take(all.len() as int) =~= all);
    out
}

/// The strings one after another with `sep` between neighbours.
pub fn join_strings(parts: &Vec<String>, sep: &str) -> (r: String)
    ensures
        r@ == join(strings(parts@), sep@),
{
    let mut out = String::new();
    let mut i: usize = 0;
    let ghost all = strings(parts@);
    while i < parts.len()
        invariant
            i <= parts@.len(),
            all == strings(parts@),
            out@ == join(all.take(i as int), sep@),
        decreases parts@.len() - i,
    {
        if i > 0 {
            out.append(sep);
        }
        out.append(parts[i].as_str());
        assert(all.take(i + 1).drop_last() =~= all.take(i as int));
        assert(all[i as int] == parts@[i as int]@);
        if i == 0 {
            assert(out@ =~= parts@[0]@);
        }
        i += 1;
    }
    assert(all.take(all.len() as int) =~= all);
    out
}

/// `line` without one carriage return at its end.
pub open spec fn strip_cr(line: Seq<char>) -> Seq<char> {
    if line.len() > 0 && line.last() == '\r' {
        line.drop_last()
    } else {
        line
    }
}

/// The lines of `s`: the pieces between line feeds, where a carriage return
/// before a line feed belongs to the line end, and an empty last piece is no
/// line.
pub open spec fn lines(s: Seq<char>) -> Seq<Seq<char>> {
    let parts = split_on(s, '\n');
    let ended = parts.drop_last().map_values(|p: Seq<char>| strip_cr(p));
    if parts.last().len() == 0 {
        ended
    } else {
        ended.push(parts.last())
    }
}

/// The lines of `cs`.
pub fn lines_of(cs: &[char]) -> (r: Vec<Vec<char>>)
    ensures
        texts(r@) == lines(cs@),
{
    let parts = split_chars(cs, '\n');
    let ghost all = split_on(cs@, '\n');
    assert(forall|k: int| 0 <= k < all.len() ==> all[k] == parts@[k]@);
    let mut out: Vec<Vec<char>> = Vec::new();
    let n: usize = parts.len() - 1;
    let mut i: usize = 0;
    let ghost ended = all.drop_last().map_values(|p: Seq<char>| strip_cr(p));
    while i < n
        invariant
            i <= n,
            n == parts@.len() - 1,
            all == texts(parts@),
            ended == all.drop_last().map_values(|p: Seq<char>| strip_cr(p)),
            texts(out@) == ended.take(i as int),
        decreases n - i,
    {
        let part = &parts[i];
        let ghost before = texts(out@);
        let line = if part.len() > 0 && part[part.len() - 1] == '\r' {
            slice_of(part.as_slice(), 0, part.len() - 1)
        } else {
            slice_of(part.as_slice(), 0, part.len())
        };
        assert(all[i as int] == part@);
        assert(line@ =~= strip_cr(part@));
        out.push(line);
        assert(texts(out@) =~= before.push(line@));
        assert(ended.take(i + 1) =~= ended.take(i as int).push(ended[i as int]));
        i += 1;
    }
    assert(ended.take(n as int) =~= ended);
    assert(all.last() == parts@[n as int]@);
    if parts[n].len() > 0 {
        let ghost before = texts(out@);
        let last = slice_of(parts[n].as_slice(), 0, parts[n].len());
        assert(last@ =~= parts@[n as int]@);
        out.push(last);
        assert(texts(out@) =~= before.push(last@));
    }
    out
}

/// `s` with every `pat` replaced by `to`, from left to right and without
/// overlap.
pub open spec fn replaced(s: Seq<char>, pat: Seq<char>, to: Seq<char>) -> Seq<char>
    recommends
        pat.len() > 0,
    decreases s.len(),
    via replaced_decreases
{
    match find_from(s, pat, 0) {
        Some(i) if pat.len() > 0 => s.take(i) + to + replaced(s.skip(i + pat.len()), pat, to),
        _ => s,
    }
}

#[via_fn]
proof fn replaced_decreases(s: Seq<char>, pat: Seq<char>, to: Seq<char>) {
    find_from_is_first(s, pat, 0);
}

/// Searching from `from` is searching the rest of the text.
pub proof fn find_from_skips(hay: Seq<char>, needle: Seq<char>, from: int)
    requires
        0 <= from <= hay.len(),
    ensures
        find_from(hay, needle, from) == match find_from(hay.skip(from), needle, 0) {
            Some(i) => Some(from + i),
            None => None,
        },
{
    find_from_shifts(hay, needle, from, 0);
}

proof fn find_from_shifts(hay: Seq<char>, needle: Seq<char>, from: int, at: int)
    requires
        0 <= from <= hay.len(),
        0 <= at,
    ensures
        find_from(hay, needle, from + at) == match find_from(hay.skip(from), needle, at) {
            Some(i) => Some(from + i),
            None => None,
        },
    decreases hay.len() + 1 - from - at,
{
    if from + at + needle.len() > hay.len() {
    } else {
        assert(hay.skip(from).subrange(at, at + needle.len()) =~= hay.subrange(
            from + at,
            from + at + needle.len(),
        ));
        if !occurs_at(hay, needle, from + at) {
            find_from_shifts(hay, needle, from, at + 1);
        }
    }
}

/// `cs` with every `pat` replaced by `to`.
pub fn replace_chars(cs: &[char], pat: &[char], to: &[char]) -> (r: Vec<char>)
    requires
        pat@.len() > 0,
    ensures
        r@ == replaced(cs@, pat@, to@),
{
    let mut out: Vec<char> = Vec::new();
    let mut from: usize = 0;
    assert(cs@.skip(0) =~= cs@);
    assert(out@ + replaced(cs@, pat@, to@) =~= replaced(cs@, pat@, to@));
    loop
        invariant
            from <= cs@.len() == cs.len(),
            pat@.len() > 0,
            out@ + replaced(cs@.skip(from as int), pat@, to@) == replaced(cs@, pat@, to@),
        decreases cs@.len() - from,
    {
        let ghost rest = cs@.skip(from as int);
        let ghost was = out@;
        proof {
            find_from_skips(cs@, pat@, from as int);
        }
        match find(cs, pat, from) {
            None => {
                let tail = slice_of(cs, from, cs.len());
                assert(tail@ =~= rest);
                extend_chars(&mut out, tail.as_slice());
                return out;
            },
            Some(i) => {
                let head = slice_of(cs, from, i);
                assert(head@ =~= rest.take(i - from));
                extend_chars(&mut out, head.as_slice());
                extend_chars(&mut out, to);
                assert(rest.skip(i - from + pat@.len()) =~= cs@.skip(i + pat@.len()));
                from = i + pat.len();
                assert(was + (head@ + to@ + replaced(cs@.skip(from as int), pat@, to@)) =~= out@
                    + replaced(cs@.skip(from as int), pat@, to@));
            },
        }
    }
}

/// `s` with every `pat` replaced by `to`.
pub fn str_replace_all(s: &str, pat: &str, to: &str) -> (r: String)
    requires
        pat@.len() > 0,
    ensures
        r@ == replaced(s@, pat@, to@),
{
    let cs = chars_of(s);
    let p = chars_of(pat);
    let t = chars_of(to);
    let out = replace_chars(cs.as_slice(), p.as_slice(), t.as_slice());
    string_of(out.as_slice())
}

/// How often `pat` stands in `s`, counted from left to right without overlap.
/// An empty pattern stands before every character and at the end.
pub open spec fn match_count(s: Seq<char>, pat: Seq<char>) -> nat
    decreases s.len(),
    via match_count_decreases
{
    if pat.len() == 0 {
        s.len() + 1
    } else {
        match find_from(s, pat, 0) {
            Some(i) => 1 + match_count(s.skip(i + pat.len()), pat),
            None => 0,
        }
    }
}

#[via_fn]
proof fn match_count_decreases(s: Seq<char>, pat: Seq<char>) {
    find_from_is_first(s, pat, 0);
}

/// How often `pat` stands in `cs`, without overlap.
pub fn count_matches(cs: &[char], pat: &[char]) -> (n: u128)
    ensures
        n == match_count(cs@, pat@),
{
    if pat.len() == 0 {
        return cs.len() as u128 + 1;
    }
    let mut n: u128 = 0;
    let mut from: usize = 0;
    assert(cs@.skip(0) =~= cs@);
    loop
        invariant
            from <= cs@.len() == cs.len(),
            n <= from,
            pat@.len() > 0,
            match_count(cs@, pat@) == n + match_count(cs@.skip(from as int), pat@),
        decreases cs@.len() - from,
    {
        proof {
            find_from_skips(cs@, pat@, from as int);
        }
        match find(cs, pat, from) {
            None => {
                return n;
            },
            Some(i) => {
                assert(cs@.skip(from as int).skip(i - from + pat@.len()) =~= cs@.skip(
                    i + pat@.len(),
                ));
                from = i + pat.len();
                n += 1;
            },
        }
    }
}

// ---------------------------------------------------------------------------
// ASCII classes and case.

/// `c` with an ASCII capital letter made small.
pub open spec fn lower_char(c: char) -> char {
    if 'A' <= c <= 'Z' {
        (c as u32 + 32) as char
    } else {
        c
    }
}

/// `s` with its ASCII capital letters made small.
pub open spec fn lower(s: Seq<char>) -> Seq<char> {
    s.map_values(|c: char| lower_char(c))
}

/// `c` with an ASCII capital letter made small.
pub fn lowered_char(c: char) -> (r: char)
    ensures
        r == lower_char(c),
{
    if 'A' <= c && c <= 'Z' {
        let b: u8 = c as u8;
        (b + 32) as char
    } else {
        c
    }
}

/// `s` with its ASCII capital letters made small.
pub fn lowered(s: &str) -> (r: Vec<char>)
    ensures
        r@ == lower(s@),
{
    let cs = chars_of(s);
    let mut out: Vec<char> = Vec::new();
    let mut i: usize = 0;
    while i < cs.len()
        invariant
            i <= cs@.len(),
            cs@ == s@,
            out@ == lower(s@).take(i as int),
        decreases cs@.len() - i,
    {
        out.push(lowered_char(cs[i]));
        i += 1;
        assert(out@ =~= lower(s@).take(i as int));
    }
    assert(lower(s@).take(s@.len() as int) =~= lower(s@));
    out
}

/// Whether `a` and `b` differ at most in the case of ASCII letters.
pub fn same_ignoring_case(a: &str, b: &str) -> (r: bool)
    ensures
        r == (lower(a@) == lower(b@)),
{
    let x = lowered(a);
    let y = lowered(b);
    same_chars(x.as_slice(), y.as_slice())
}

pub open spec fn is_digit(c: char) -> bool {
    '0' <= c <= '9'
}

pub open spec fn is_letter(c: char) -> bool {
    ('a' <= c <= 'z') || ('A' <= c <= 'Z')
}

/// An ASCII letter or digit.
pub open spec fn is_alphanumeric(c: char) -> bool {
    is_digit(c) || is_letter(c)
}

/// Whether `c` is an ASCII letter or digit.
pub fn alphanumeric(c: char) -> (r: bool)
    ensures
        r == is_alphanumeric(c),
{
    ('0' <= c && c <= '9') || ('a' <= c && c <= 'z') || ('A' <= c && c <= 'Z')
}

// ---------------------------------------------------------------------------
// Decimal numerals.

/// The digit character of `d`.
pub open spec fn digit_char(d: int) -> char {
    (48 + d) as char
}

/// `n` in decimal, without leading zeros.
pub open spec fn decimal(n: nat) -> Seq<char>
    decreases n,
{
    if n < 10 {
        seq![digit_char(n as int)]
    } else {
        decimal(n / 10).push(digit_char((n % 10) as int))
    }
}

/// `n` in decimal.
pub fn decimal_chars(n: u128) -> (r: Vec<char>)
    ensures
        r@ == decimal(n as nat),
    decreases n,
{
    if n < 10 {
        let d: u8 = n as u8;
        let mut out: Vec<char> = Vec::new();
        out.push((48 + d) as char);
        assert(out@ =~= decimal(n as nat));
        out
    } else {
        let mut out = decimal_chars(n / 10);
        let d: u8 = (n % 10) as u8;
        out.push((48 + d) as char);
        out
    }
}

/// `n` in decimal.
pub fn decimal_string(n: u128) -> (r: String)
    ensures
        r@ == decimal(n as nat),
{
    let cs = decimal_chars(n);
    string_of(cs.as_slice())
}

/// The value of a digit.
pub open spec fn digit_value(c: char) -> nat {
    (c as u32 - 48) as nat
}

/// The number that a run of digits denotes.
pub open spec fn digits_value(s: Seq<char>) -> nat
    decreases s.len(),
{
    if s.len() == 0 {
        0
    } else {
        digits_value(s.drop_last()) * 10 + digit_value(s.last())
    }
}

pub open spec fn all_digits(s: Seq<char>) -> bool {
    forall|i: int| 0 <= i < s.len() ==> is_digit(#[trigger] s[i])
}

/// What `s` denotes as an unsigned decimal number of at most `max`: digits
/// only, one plus sign before them allowed.
pub open spec fn parse_unsigned(s: Seq<char>, max: nat) -> Option<nat> {
    let digits = if s.len() > 0 && s[0] == '+' {
        s.skip(1)
    } else {
        s
    };
    if digits.len() > 0 && all_digits(digits) && digits_value(digits) <= max {
        Some(digits_value(digits))
    } else {
        None
    }
}

/// A numeral is made of digits and denotes the number that it was written for.
pub proof fn decimal_is_read_back(n: nat)
    ensures
        decimal(n).len() > 0,
        all_digits(decimal(n)),
        digits_value(decimal(n)) == n,
    decreases n,
{
    let d = decimal(n);
    if n < 10 {
        assert(d.drop_last() =~= Seq::empty());
        assert(digits_value(d.drop_last()) == 0);
    } else {
        decimal_is_read_back(n / 10);
        assert(d.drop_last() =~= decimal(n / 10));
        assert forall|i: int| 0 <= i < d.len() implies is_digit(#[trigger] d[i]) by {
            if i < d.len() - 1 {
                assert(d[i] == decimal(n / 10)[i]);
            }
        }
    }
}

/// A longer run of digits never denotes a smaller number.
pub proof fn digits_value_grows(s: Seq<char>, n: int)
    requires
        0 <= n <= s.len(),
    ensures
        digits_value(s.take(n)) <= digits_value(s),
    decreases s.len() - n,
{
    if n == s.len() {
        assert(s.take(n) =~= s);
    } else {
        digits_value_grows(s, n + 1);
        assert(s.take(n + 1).drop_last() =~= s.take(n));
    }
}

/// Reads `cs` as an unsigned decimal number of at most `max`.
pub fn read_unsigned(cs: &[char], max: u64) -> (r: Option<u64>)
    ensures
        match r {
            Some(n) => parse_unsigned(cs@, max as nat) == Some(n as nat),
            None => parse_unsigned(cs@, max as nat) is None,
        },
{
    let from: usize = if cs.len() > 0 && cs[0] == '+' {
        1
    } else {
        0
    };
    let ghost digits = cs@.skip(from as int);
    assert(from == 0 ==> digits =~= cs@);
    if from == cs.len() {
        return None;
    }
    let mut i: usize = from;
    let mut n: u64 = 0;
    assert(digits.take(0) =~= Seq::<char>::empty());
    while i < cs.len()
        invariant
            from <= i <= cs@.len(),
            from <= 1,
            from == 1 ==> cs@[0] == '+',
            from == 0 ==> (cs@.len() > 0 ==> cs@[0] != '+'),
            from < cs@.len(),
            digits == cs@.skip(from as int),
            from == 0 ==> digits == cs@,
            all_digits(digits.take(i - from)),
            n == digits_value(digits.take(i - from)),
            n <= max,
        decreases cs@.len() - i,
    {
        let c = cs[i];
        assert(digits[i - from] == c);
        if !('0' <= c && c <= '9') {
            assert(!all_digits(digits));
            return None;
        }
        let d: u64 = (c as u64) - 48;
        proof {
            digits_value_grows(digits, i - from + 1);
            assert(digits.take(i - from + 1).drop_last() =~= digits.take(i - from));
            assert(digits.take(i - from + 1).last() == c);
        }
        if n > (u64::MAX - d) / 10 || n * 10 + d > max {
            assert(digits_value(digits.take(i - from + 1)) == n * 10 + d);
            assert(digits_value(digits) > max);
            return None;
        }
        n = n * 10 + d;
        i += 1;
        assert(all_digits(digits.take(i - from))) by {
            assert forall|k: int| 0 <= k < digits.take(i - from).len() implies is_digit(
                #[trigger] digits.take(i - from)[k],
            ) by {
                if k < i - from - 1 {
                    assert(digits.take(i - from - 1)[k] == digits.take(i - from)[k]);
                }
            }
        }
    }
    assert(digits.take(digits.len() as int) =~= digits);
    Some(n)
}

// ---------------------------------------------------------------------------
// Byte offsets.

/// The number of bytes that `c` takes in UTF-8.
pub open spec fn utf8_width(c: char) -> nat {
    if c as u32 <= 0x7f {
        1
    } else if c as u32 <= 0x7ff {
        2
    } else if c as u32 <= 0xffff {
        3
    } else {
        4
    }
}

/// The number of bytes that `s` takes in UTF-8.
pub open spec fn byte_len(s: Seq<char>) -> nat
    decreases s.len(),
{
    if s.len() == 0 {
        0
    } else {
        byte_len(s.drop_last()) + utf8_width(s.last())
    }
}

/// `byte_len` is the length of the UTF-8 encoding.
pub proof fn byte_len_is_encoded_len(s: Seq<char>)
    ensures
        byte_len(s) == vstd::utf8::encode_utf8(s).len(),
    decreases s.len(),
{
    if s.len() == 0 {
    } else {
        byte_len_of_first(s);
        byte_len_is_encoded_len(s.drop_first());
        vstd::utf8::char_is_scalar(s[0]);
        assert(vstd::utf8::encode_scalar(s[0] as u32).len() == utf8_width(s[0]));
    }
}

proof fn byte_len_of_first(s: Seq<char>)
    requires
        s.len() > 0,
    ensures
        byte_len(s) == utf8_width(s[0]) + byte_len(s.drop_first()),
    decreases s.len(),
{
    if s.len() == 1 {
        assert(s.drop_last() =~= s.drop_first());
    } else {
        byte_len_of_first(s.drop_last());
        assert(s.drop_last().drop_first() =~= s.drop_first().drop_last());
    }
}

/// A text takes at least as many bytes as a shorter one that it begins with.
pub proof fn byte_len_grows(s: Seq<char>, n: int)
    requires
        0 <= n <= s.len(),
    ensures
        byte_len(s.take(n)) <= byte_len(s),
        s.len() - n <= byte_len(s) - byte_len(s.take(n)),
    decreases s.len() - n,
{
    if n == s.len() {
        assert(s.take(n) =~= s);
    } else {
        byte_len_grows(s, n + 1);
        assert(s.take(n + 1).drop_last() =~= s.take(n));
    }
}

/// The number of bytes that `c` takes in UTF-8.
pub fn width_of(c: char) -> (n: usize)
    ensures
        n == utf8_width(c),
        1 <= n <= 4,
{
    let v: u32 = c as u32;
    if v <= 0x7f {
        1
    } else if v <= 0x7ff {
        2
    } else if v <= 0xffff {
        3
    } else {
        4
    }
}

// ---------------------------------------------------------------------------
// Signed numerals.

/// `n` in decimal, with a minus sign where it is negative.
pub open spec fn signed_decimal(n: int) -> Seq<char> {
    if n < 0 {
        seq!['-'] + decimal((-n) as nat)
    } else {
        decimal(n as nat)
    }
}

/// What `s` denotes as a decimal number from `min` to `max`: digits only, one
/// sign before them allowed.
pub open spec fn parse_signed(s: Seq<char>, min: int, max: int) -> Option<int> {
    if s.len() > 0 && s[0] == '-' {
        let digits = s.skip(1);
        if digits.len() > 0 && all_digits(digits) && -digits_value(digits) >= min {
            Some(-(digits_value(digits) as int))
        } else {
            None
        }
    } else {
        match parse_unsigned(s, max as nat) {
            Some(n) => Some(n as int),
            None => None,
        }
    }
}

/// `n` in decimal.
pub fn signed_decimal_string(n: i64) -> (r: String)
    ensures
        r@ == signed_decimal(n as int),
{
    if n < 0 {
        let mut out = String::new();
        out.push('-');
        let size: u128 = (-(n as i128)) as u128;
        out.append(decimal_string(size).as_str());
        assert(out@ =~= seq!['-'] + decimal((-n) as nat));
        out
    } else {
        decimal_string(n as u128)
    }
}

/// Reads `cs` as a decimal number of 64 bits with a sign.
pub fn read_i64(cs: &[char]) -> (r: Option<i64>)
    ensures
        match r {
            Some(n) => parse_signed(cs@, i64::MIN as int, i64::MAX as int) == Some(n as int),
            None => parse_signed(cs@, i64::MIN as int, i64::MAX as int) is None,
        },
{
    if cs.len() > 0 && cs[0] == '-' {
        let digits = slice_of(cs, 1, cs.len());
        assert(digits@ =~= cs@.skip(1));
        if digits.len() > 0 && digits[0] == '+' {
            assert(!is_digit(digits@[0]));
            return None;
        }
        match read_unsigned(digits.as_slice(), 0x8000_0000_0000_0000) {
            Some(n) => Some((-(n as i128)) as i64),
            None => None,
        }
    } else {
        match read_unsigned(cs, 0x7fff_ffff_ffff_ffff) {
            Some(n) => Some(n as i64),
            None => None,
        }
    }
}

// ---------------------------------------------------------------------------
// Cutting and joining.

/// What stands before the first `c` and what stands behind it.
pub open spec fn halves(s: Seq<char>, c: char) -> Option<(Seq<char>, Seq<char>)> {
    let i = upto(s, c);
    if i < s.len() {
        Some((s.take(i), s.skip(i + 1)))
    } else {
        None
    }
}

/// What stands before the first `c` and what stands behind it.
pub fn split_once(cs: &[char], c: char) -> (r: Option<(Vec<char>, Vec<char>)>)
    ensures
        match r {
            Some((a, b)) => halves(cs@, c) == Some((a@, b@)),
            None => halves(cs@, c) is None,
        },
{
    let i = index_of_char(cs, c, 0);
    proof {
        assert(cs@.skip(0) =~= cs@);
        upto_shape(cs@, c);
    }
    if i < cs.len() {
        let a = slice_of(cs, 0, i);
        let b = slice_of(cs, i + 1, cs.len());
        assert(a@ =~= cs@.take(i as int));
        assert(b@ =~= cs@.skip(i + 1));
        Some((a, b))
    } else {
        None
    }
}

/// What follows `prefix`, where `s` begins with it.
pub open spec fn without_prefix(s: Seq<char>, prefix: Seq<char>) -> Option<Seq<char>> {
    if begins_with(s, prefix) {
        Some(s.skip(prefix.len() as int))
    } else {
        None
    }
}

/// What follows `prefix`, where `s` begins with it.
pub fn strip_prefix(cs: &[char], prefix: &str) -> (r: Option<Vec<char>>)
    ensures
        match r {
            Some(v) => without_prefix(cs@, prefix@) == Some(v@),
            None => without_prefix(cs@, prefix@) is None,
        },
{
    let p = chars_of(prefix);
    if starts(cs, p.as_slice()) {
        let rest = slice_of(cs, p.len(), cs.len());
        assert(rest@ =~= cs@.skip(p@.len() as int));
        Some(rest)
    } else {
        None
    }
}

/// `s` without the `c` at its front.
pub open spec fn drop_front(s: Seq<char>, c: char) -> Seq<char>
    decreases s.len(),
{
    if s.len() > 0 && s[0] == c {
        drop_front(s.skip(1), c)
    } else {
        s
    }
}

/// `s` without the `c` at its end.
pub open spec fn drop_back(s: Seq<char>, c: char) -> Seq<char>
    decreases s.len(),
{
    if s.len() > 0 && s.last() == c {
        drop_back(s.drop_last(), c)
    } else {
        s
    }
}

/// `s` without the `c` at its end.
pub fn trim_end_matches(s: &str, c: char) -> (r: String)
    ensures
        r@ == drop_back(s@, c),
{
    let cs = chars_of(s);
    let mut n: usize = cs.len();
    assert(cs@.take(n as int) =~= cs@);
    while n > 0 && cs[n - 1] == c
        invariant
            n <= cs@.len(),
            drop_back(cs@, c) == drop_back(cs@.take(n as int), c),
        decreases n,
    {
        assert(cs@.take(n as int).drop_last() =~= cs@.take(n - 1));
        n -= 1;
    }
    let r = substring_of(cs.as_slice(), 0, n);
    assert(r@ =~= cs@.take(n as int));
    r
}

/// `s` without the `c` at its front and at its end.
pub fn trim_matches(s: &str, c: char) -> (r: String)
    ensures
        r@ == drop_back(drop_front(s@, c), c),
{
    let cs = chars_of(s);
    let mut i: usize = 0;
    assert(cs@.skip(0) =~= cs@);
    while i < cs.len() && cs[i] == c
        invariant
            i <= cs@.len(),
            drop_front(cs@, c) == drop_front(cs@.skip(i as int), c),
        decreases cs@.len() - i,
    {
        assert(cs@.skip(i as int).skip(1) =~= cs@.skip(i + 1));
        i += 1;
    }
    let front = substring_of(cs.as_slice(), i, cs.len());
    assert(front@ =~= cs@.skip(i as int));
    trim_end_matches(front.as_str(), c)
}

/// The path of `part` under `base`; an absolute one stays what it is.
pub open spec fn path_under(base: Seq<char>, part: Seq<char>) -> Seq<char> {
    if base.len() == 0 || (part.len() > 0 && part[0] == '/') {
        part
    } else if base.last() == '/' {
        base + part
    } else {
        base + seq!['/'] + part
    }
}

/// The path of `part` under `base`; an absolute one stays what it is.
pub fn join_path(base: &str, part: &str) -> (r: String)
    ensures
        r@ == path_under(base@, part@),
{
    let cs = chars_of(base);
    let own = chars_of(part);
    if cs.len() == 0 || (own.len() > 0 && own[0] == '/') {
        return part.to_string();
    }
    let mut out = base.to_string();
    if cs[cs.len() - 1] != '/' {
        out.push('/');
    }
    out.append(part);
    assert(out@ =~= path_under(base@, part@));
    out
}

// ---------------------------------------------------------------------------
// Bytes.

/// `std::str::from_utf8`: the text that bytes are the UTF-8 form of; none where they
/// are not valid UTF-8.
#[verifier::external_body]
pub(crate) fn utf8_text(bytes: &[u8]) -> (r: Option<String>)
    ensures
        match r {
            Some(t) => vstd::utf8::valid_utf8(bytes@) && t@ == vstd::utf8::decode_utf8(bytes@),
            None => !vstd::utf8::valid_utf8(bytes@),
        },
{
    std::str::from_utf8(bytes).ok().map(|t| t.to_string())
}

/// The text that bytes are the UTF-8 form of.
pub open spec fn decoded(bytes: Seq<u8>) -> Option<Seq<char>> {
    if vstd::utf8::valid_utf8(bytes) {
        Some(vstd::utf8::decode_utf8(bytes))
    } else {
        None
    }
}

// ---------------------------------------------------------------------------
// Laws.

/// Cutting a text loses nothing and leaves no separator in a piece: put together
/// again, the pieces are the text.
pub proof fn pieces_make_up_the_text(s: Seq<char>, sep: char)
    ensures
        split_on(s, sep).len() >= 1,
        join(split_on(s, sep), seq![sep]) == s,
        forall|k: int, i: int|
            0 <= k < split_on(s, sep).len() && 0 <= i < split_on(s, sep)[k].len()
                ==> #[trigger] split_on(s, sep)[k][i] != sep,
    decreases s.len(),
{
    upto_shape(s, sep);
    let n = upto(s, sep);
    if n < s.len() {
        let rest = s.skip(n + 1);
        pieces_make_up_the_text(rest, sep);
        join_from_front(s.take(n), split_on(rest, sep), seq![sep]);
        assert(s =~= s.take(n) + seq![sep] + rest);
        assert forall|k: int, i: int|
            0 <= k < split_on(s, sep).len() && 0 <= i < split_on(s, sep)[k].len() implies
            #[trigger] split_on(s, sep)[k][i] != sep by {
            if k > 0 {
                assert(split_on(s, sep)[k] == split_on(rest, sep)[k - 1]);
                assert(split_on(rest, sep)[k - 1][i] != sep);
            }
        }
    }
}

/// What is joined begins with its first part.
pub proof fn join_from_front(first: Seq<char>, more: Seq<Seq<char>>, sep: Seq<char>)
    requires
        more.len() > 0,
    ensures
        join(seq![first] + more, sep) == first + sep + join(more, sep),
    decreases more.len(),
{
    let all = seq![first] + more;
    assert(all.drop_last() =~= seq![first] + more.drop_last());
    assert(all.last() == more.last());
    if more.len() == 1 {
        assert(all.drop_last() =~= seq![first]);
        assert(join(all.drop_last(), sep) == first);
        assert(join(all, sep) =~= first + sep + more[0]);
    } else {
        join_from_front(first, more.drop_last(), sep);
        assert(join(all, sep) =~= first + sep + (join(more.drop_last(), sep) + sep + more.last()));
    }
}

/// No line holds a line feed, and there are as many lines as line feeds, one more
/// where text stands behind the last of them.
pub proof fn lines_are_pieces(s: Seq<char>)
    ensures
        forall|k: int, i: int|
            0 <= k < lines(s).len() && 0 <= i < lines(s)[k].len() ==> #[trigger] lines(s)[k][i]
                != '\n',
        forall|k: int|
            0 <= k < lines(s).len() ==> {
                let piece = split_on(s, '\n')[k];
                #[trigger] lines(s)[k] == piece || lines(s)[k].push('\r') == piece
            },
        lines(s).len() == split_on(s, '\n').len() || lines(s).len() + 1 == split_on(s, '\n').len()
            && split_on(s, '\n').last().len() == 0,
{
    pieces_make_up_the_text(s, '\n');
    let parts = split_on(s, '\n');
    assert forall|k: int| 0 <= k < lines(s).len() implies {
        let piece = split_on(s, '\n')[k];
        #[trigger] lines(s)[k] == piece || lines(s)[k].push('\r') == piece
    } by {
        let piece = parts[k];
        if piece.len() > 0 && piece.last() == '\r' {
            assert(piece.drop_last().push('\r') =~= piece);
        }
    }
    assert forall|k: int, i: int| 0 <= k < lines(s).len() && 0 <= i < lines(s)[k].len() implies
        #[trigger] lines(s)[k][i] != '\n' by {
        assert(parts[k][i] != '\n');
        assert(lines(s)[k][i] == parts[k][i]);
    }
}

/// Lines that are set one below the other, each ended by a line feed alone or behind a
/// carriage return, are read as they were set.
pub proof fn lines_are_read_back(parts: Seq<Seq<char>>)
    requires
        parts.len() > 0,
        forall|k: int, i: int|
            0 <= k < parts.len() && 0 <= i < parts[k].len() ==> #[trigger] parts[k][i] != '\n',
    ensures
        lines(join(parts, seq!['\n'])).len() == if parts.last().len() == 0 {
            parts.len() - 1
        } else {
            parts.len() as int
        },
        forall|k: int|
            0 <= k < parts.len() - 1 ==> {
                let line = #[trigger] lines(join(parts, seq!['\n']))[k];
                if parts[k].len() > 0 && parts[k].last() == '\r' {
                    line.push('\r') == parts[k]
                } else {
                    line == parts[k]
                }
            },
        parts.last().len() > 0 ==> lines(join(parts, seq!['\n'])).last() == parts.last(),
{
    crate::redaction::split_of_join(parts, '\n');
    let s = join(parts, seq!['\n']);
    assert forall|k: int| 0 <= k < parts.len() - 1 implies {
        let line = #[trigger] lines(s)[k];
        if parts[k].len() > 0 && parts[k].last() == '\r' {
            line.push('\r') == parts[k]
        } else {
            line == parts[k]
        }
    } by {
        if parts[k].len() > 0 && parts[k].last() == '\r' {
            assert(parts[k].drop_last().push('\r') =~= parts[k]);
        }
    }
}

/// Bytes of texts add up.
pub proof fn byte_len_adds_up(a: Seq<char>, b: Seq<char>)
    ensures
        byte_len(a + b) == byte_len(a) + byte_len(b),
    decreases b.len(),
{
    if b.len() == 0 {
        assert(a + b =~= a);
    } else {
        byte_len_adds_up(a, b.drop_last());
        assert((a + b).drop_last() =~= a + b.drop_last());
    }
}

/// Whitespace in front of a text adds to its indentation and to nothing else.
pub proof fn trim_start_drops_white(white: Seq<char>, s: Seq<char>)
    requires
        is_blank(white),
    ensures
        trim_start(white + s) == trim_start(s),
    decreases white.len(),
{
    if white.len() == 0 {
        assert(white + s =~= s);
    } else {
        assert((white + s).skip(1) =~= white.skip(1) + s);
        assert(is_blank(white.skip(1))) by {
            assert forall|i: int| 0 <= i < white.skip(1).len() implies is_white(
                #[trigger] white.skip(1)[i],
            ) by {
                assert(white.skip(1)[i] == white[i + 1]);
            }
        }
        trim_start_drops_white(white.skip(1), s);
    }
}

/// Trimming takes off what is white on either side, and what is left begins and ends with
/// something that is not.
pub proof fn trim_takes_off_the_white(a: Seq<char>, s: Seq<char>, b: Seq<char>)
    requires
        is_blank(a),
        is_blank(b),
        s.len() > 0,
        !is_white(s[0]),
        !is_white(s.last()),
    ensures
        trim(a + s + b) == s,
        trim(s) == s,
{
    trim_start_drops_white(a, s + b);
    assert(a + s + b =~= a + (s + b));
    assert((s + b)[0] == s[0]);
    assert(trim_start(s + b) == s + b);
    trim_end_drops_white(s, b);
    assert(trim_end(s) == s);
    assert(trim_start(s) == s);
}

/// Whitespace behind a text is taken off.
pub proof fn trim_end_drops_white(s: Seq<char>, white: Seq<char>)
    requires
        is_blank(white),
    ensures
        trim_end(s + white) == trim_end(s),
    decreases white.len(),
{
    if white.len() == 0 {
        assert(s + white =~= s);
    } else {
        assert((s + white).drop_last() =~= s + white.drop_last());
        assert((s + white).last() == white.last());
        assert(is_blank(white.drop_last())) by {
            assert forall|i: int| 0 <= i < white.drop_last().len() implies is_white(
                #[trigger] white.drop_last()[i],
            ) by {
                assert(white.drop_last()[i] == white[i]);
            }
        }
        trim_end_drops_white(s, white.drop_last());
    }
}

/// Of the first characters only the blank and the five that move the cursor are white.
pub proof fn white_below_delete(c: char)
    requires
        c as u32 <= 0x7f,
    ensures
        is_white(c) <==> c == ' ' || c == '\n' || c == '\r' || c == '\t' || c as u32 == 11 || c as u32
            == 12,
{
}

/// Making letters small changes capital letters only, each into the one with its place
/// in the alphabet.
pub proof fn only_capitals_are_lowered(s: Seq<char>, i: int)
    requires
        0 <= i < s.len(),
    ensures
        lower(s).len() == s.len(),
        lower(lower(s)) == lower(s),
        if 'A' <= s[i] <= 'Z' {
            'a' <= lower(s)[i] <= 'z' && lower(s)[i] as u32 - 'a' as u32 == s[i] as u32
                - 'A' as u32
        } else {
            lower(s)[i] == s[i]
        },
{
    assert(lower(lower(s)) =~= lower(s));
}

/// A number is read back from its numeral where it is allowed, with leading zeros or a
/// plus sign too, and refused where it is too large.
pub proof fn numbers_are_read_back(n: nat, max: nat, zeros: Seq<char>)
    requires
        forall|i: int| 0 <= i < zeros.len() ==> #[trigger] zeros[i] == '0',
    ensures
        parse_unsigned(zeros + decimal(n), max) == if n <= max {
            Some(n)
        } else {
            None
        },
        parse_unsigned(seq!['+'] + (zeros + decimal(n)), max) == if n <= max {
            Some(n)
        } else {
            None
        },
{
    decimal_is_read_back(n);
    let d = zeros + decimal(n);
    assert forall|i: int| 0 <= i < d.len() implies is_digit(#[trigger] d[i]) by {
        if i < zeros.len() {
            assert(d[i] == zeros[i]);
        } else {
            assert(d[i] == decimal(n)[i - zeros.len()]);
        }
    }
    zeros_do_not_count(zeros, decimal(n));
    assert(d[0] != '+');
    assert((seq!['+'] + d).skip(1) =~= d);
}

proof fn zeros_do_not_count(zeros: Seq<char>, d: Seq<char>)
    requires
        forall|i: int| 0 <= i < zeros.len() ==> #[trigger] zeros[i] == '0',
    ensures
        digits_value(zeros + d) == digits_value(d),
    decreases zeros.len() + d.len(),
{
    let all = zeros + d;
    if d.len() > 0 {
        assert(all.drop_last() =~= zeros + d.drop_last());
        zeros_do_not_count(zeros, d.drop_last());
    } else if zeros.len() > 0 {
        assert(all =~= zeros);
        assert(zeros.drop_last() + d =~= zeros.drop_last());
        zeros_do_not_count(zeros.drop_last(), d);
        assert(zeros.last() == '0');
    }
}

/// Whatever is read as a number is written with digits, and the value of each digit
/// counts ten times that of the next.
pub proof fn only_numerals_are_numbers(s: Seq<char>, max: nat, i: int)
    requires
        parse_unsigned(s, max) is Some,
        0 <= i < s.len(),
    ensures
        parse_unsigned(s, max).unwrap() <= max,
        ('0' <= s[i] <= '9') || (s[i] == '+' && i == 0),
        s.len() > 1 || s[0] != '+',
{
    if s[0] == '+' && i > 0 {
        assert(s.skip(1)[i - 1] == s[i]);
    }
}

/// A text without the pattern stays as it is; what stands before the first occurrence
/// stays, the occurrence is exchanged, and the rest is treated likewise.
pub proof fn occurrences_are_exchanged(a: Seq<char>, pat: Seq<char>, b: Seq<char>, to: Seq<char>)
    requires
        pat.len() > 0,
        forall|j: int| 0 <= j < a.len() ==> !occurs_at(a + pat + b, pat, j),
    ensures
        replaced(a + pat + b, pat, to) == a + to + replaced(b, pat, to),
        match_count(a + pat + b, pat) == 1 + match_count(b, pat),
        !contains(b, pat) ==> replaced(b, pat, to) == b && match_count(b, pat) == 0,
{
    let s = a + pat + b;
    assert(s.subrange(a.len() as int, (a.len() + pat.len()) as int) =~= pat);
    assert(occurs_at(s, pat, a.len() as int));
    find_from_is_first(s, pat, 0);
    assert(find_from(s, pat, 0) == Some(a.len() as int));
    assert(s.take(a.len() as int) =~= a);
    assert(s.skip((a.len() + pat.len()) as int) =~= b);
    contains_is_found(b, pat);
}

/// A path below a directory keeps both, with one slash between them.
pub proof fn paths_are_kept_whole(base: Seq<char>, part: Seq<char>)
    requires
        base.len() > 0,
        part.len() > 0,
        part[0] != '/',
    ensures
        ends_in(path_under(base, part), part),
        begins_with(path_under(base, part), base),
        ({
            let n = path_under(base, part).len() - part.len();
            path_under(base, part)[n - 1] == '/' && (n == base.len() || n == base.len() + 1
                && base.last() != '/')
        }),
{
    let all = path_under(base, part);
    let n = all.len() - part.len();
    assert(all.subrange(n, n + part.len()) =~= part);
    assert(all.subrange(0, base.len() as int) =~= base);
}

/// Parts that are joined by a character that stands in none of them are cut as they were.
pub proof fn parts_are_cut_again(parts: Seq<Seq<char>>, sep: char)
    requires
        parts.len() > 0,
        forall|k: int, i: int|
            0 <= k < parts.len() && 0 <= i < parts[k].len() ==> #[trigger] parts[k][i] != sep,
    ensures
        split_on(join(parts, seq![sep]), sep) == parts,
    decreases parts.len(),
{
    let s = join(parts, seq![sep]);
    let first = parts[0];
    upto_shape(s, sep);
    assert forall|i: int| 0 <= i < first.len() implies #[trigger] first[i] != sep by {
        assert(parts[0][i] != sep);
    }
    if parts.len() == 1 {
        assert(parts =~= seq![s]);
        if upto(s, sep) < s.len() {
            assert(first[upto(s, sep)] == sep);
        }
    } else {
        let more = parts.skip(1);
        assert(parts =~= seq![first] + more);
        join_from_front(first, more, seq![sep]);
        assert forall|k: int, i: int|
            0 <= k < more.len() && 0 <= i < more[k].len() implies #[trigger] more[k][i] != sep by {
            assert(parts[k + 1][i] != sep);
        }
        parts_are_cut_again(more, sep);
        let n = upto(s, sep);
        assert(s[first.len() as int] == sep);
        if n < first.len() {
            assert(s[n] == first[n]);
        }
        assert(n == first.len());
        assert(s.take(n) =~= first);
        assert(s.skip(n + 1) =~= join(more, seq![sep]));
    }
}

/// A numeral begins and ends with a digit, and neither is white.
pub proof fn numerals_are_not_trimmed(n: nat, a: Seq<char>, b: Seq<char>)
    requires
        is_blank(a),
        is_blank(b),
    ensures
        trim(a + decimal(n) + b) == decimal(n),
        trim(decimal(n)) == decimal(n),
        decimal(n).len() > 0,
        forall|i: int| 0 <= i < decimal(n).len() ==> '0' <= #[trigger] decimal(n)[i] <= '9',
{
    let d = decimal(n);
    decimal_is_read_back(n);
    assert(is_digit(d[0]));
    assert(is_digit(d.last()));
    white_below_delete(d[0]);
    white_below_delete(d.last());
    trim_takes_off_the_white(a, d, b);
}

} // verus!
