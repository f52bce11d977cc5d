//! Server-sent events: the bytes of a response cut into events at blank lines,
//! and the payloads of their `data:` lines.

use crate::text;
use vstd::prelude::*;
use vstd::string::*;

verus! {

/// Where `needle` stands in `hay` first, from `from` on.
pub open spec fn bytes_at(hay: Seq<u8>, needle: Seq<u8>, from: int) -> Option<int>
    decreases hay.len() - from,
{
    if from < 0 || from + needle.len() > hay.len() {
        None
    } else if from >= hay.len() {
        None
    } else if hay.subrange(from, from + needle.len()) == needle {
        Some(from)
    } else {
        bytes_at(hay, needle, from + 1)
    }
}

pub open spec fn lf_lf() -> Seq<u8> {
    seq![10u8, 10u8]
}

pub open spec fn crlf_crlf() -> Seq<u8> {
    seq![13u8, 10u8, 13u8, 10u8]
}

/// The length of the first event with the blank line that ends it: at the first
/// two line feeds, or where there are none at the first two `\r\n`.
pub open spec fn event_len(buf: Seq<u8>) -> Option<int> {
    match bytes_at(buf, lf_lf(), 0) {
        Some(p) => Some(p + 2),
        None => match bytes_at(buf, crlf_crlf(), 0) {
            Some(p) => Some(p + 4),
            None => None,
        },
    }
}

proof fn bytes_at_is_first(hay: Seq<u8>, needle: Seq<u8>, from: int)
    requires
        0 <= from,
        needle.len() > 0,
    ensures
        match bytes_at(hay, needle, from) {
            Some(p) => {
                &&& from <= p
                &&& p + needle.len() <= hay.len()
                &&& hay.subrange(p, p + needle.len()) == needle
                &&& forall|k: int|
                    from <= k < p ==> #[trigger] hay.subrange(k, k + needle.len()) != needle
            },
            None => forall|k: int|
                from <= k && k + needle.len() <= hay.len() ==> #[trigger] hay.subrange(
                    k,
                    k + needle.len(),
                ) != needle,
        },
    decreases hay.len() - from,
{
    if from + needle.len() <= hay.len() && hay.subrange(from, from + needle.len()) != needle {
        bytes_at_is_first(hay, needle, from + 1);
    }
}

fn find_bytes(hay: &Vec<u8>, needle: &[u8]) -> (r: Option<usize>)
    requires
        0 < needle@.len(),
    ensures
        match r {
            Some(p) => bytes_at(hay@, needle@, 0) == Some(p as int) && p + needle@.len()
                <= hay@.len(),
            None => bytes_at(hay@, needle@, 0) is None,
        },
{
    let n: usize = hay.len();
    let m: usize = needle.len();
    if m > n {
        return None;
    }
    let mut i: usize = 0;
    while i <= n - m
        invariant
            n == hay@.len(),
            m == needle@.len(),
            0 < m <= n,
            i <= n - m + 1,
            bytes_at(hay@, needle@, 0) == bytes_at(hay@, needle@, i as int),
        decreases n - m + 1 - i,
    {
        let mut k: usize = 0;
        while k < m && hay[i + k] == needle[k]
            invariant
                n == hay@.len(),
                m == needle@.len(),
                i + m <= n,
                k <= m,
                forall|j: int| 0 <= j < k ==> hay@[i + j] == needle@[j],
            decreases m - k,
        {
            k += 1;
        }
        if k == m {
            assert(hay@.subrange(i as int, i + m) =~= needle@);
            return Some(i);
        }
        assert(hay@.subrange(i as int, i + m)[k as int] != needle@[k as int]);
        i += 1;
    }
    None
}

/// What `String::from_utf8_lossy` makes of `bytes`.
pub uninterp spec fn lossy(bytes: Seq<u8>) -> Seq<char>;

/// `String::from_utf8_lossy`: the text of `bytes`, with a replacement character
/// for what is not UTF-8. What stands in for which bytes is not said; bytes that
/// are UTF-8 are decoded.
#[verifier::external_body]
fn lossy_text(bytes: &[u8]) -> (r: String)
    ensures
        r@ == lossy(bytes@),
        vstd::utf8::valid_utf8(bytes@) ==> r@ == vstd::utf8::decode_utf8(bytes@),
{
    String::from_utf8_lossy(bytes).into_owned()
}

/// What follows `data:` in the first `n` lines that begin with it.
pub open spec fn data_of(lines: Seq<Seq<char>>, n: int) -> Seq<Seq<char>>
    decreases n,
{
    if n <= 0 {
        Seq::empty()
    } else if text::begins_with(lines[n - 1], "data:"@) {
        data_of(lines, n - 1).push(lines[n - 1].skip("data:"@.len() as int))
    } else {
        data_of(lines, n - 1)
    }
}

/// The payloads of an event.
pub open spec fn payloads_of(event: Seq<char>) -> Seq<Seq<char>> {
    data_of(text::lines(event), text::lines(event).len() as int)
}

/// The payloads of the text of one event.
pub fn event_payloads(event: &str) -> (r: Vec<String>)
    ensures
        text::strings(r@) == payloads_of(event@),
{
    let all = text::chars_of(event);
    let lines = text::lines_of(all.as_slice());
    let mark = text::chars_of("data:");
    let mut out: Vec<String> = Vec::new();
    let mut i: usize = 0;
    assert(text::strings(out@) =~= Seq::empty());
    while i < lines.len()
        invariant
            i <= lines@.len(),
            mark@ == "data:"@,
            text::texts(lines@) == text::lines(event@),
            text::strings(out@) == data_of(text::lines(event@), i as int),
        decreases lines@.len() - i,
    {
        let line = lines[i].as_slice();
        assert(line@ == text::texts(lines@)[i as int]);
        if text::starts(line, mark.as_slice()) {
            let rest = text::substring_of(line, mark.len(), line.len());
            assert(rest@ =~= line@.skip(mark@.len() as int));
            let ghost before = out@;
            out.push(rest);
            assert(text::strings(out@) =~= text::strings(before).push(rest@));
        }
        i += 1;
    }
    out
}

/// The payloads of all events that `buf` holds whole, and what is left over.
pub open spec fn drained(buf: Seq<u8>) -> (Seq<Seq<char>>, Seq<u8>)
    decreases buf.len(),
    via drained_decreases
{
    match event_len(buf) {
        Some(n) => {
            let (more, rest) = drained(buf.skip(n));
            (payloads_of(lossy(buf.take(n))) + more, rest)
        },
        None => (Seq::empty(), buf),
    }
}

#[via_fn]
proof fn drained_decreases(buf: Seq<u8>) {
    bytes_at_is_first(buf, lf_lf(), 0);
    bytes_at_is_first(buf, crlf_crlf(), 0);
}

/// The bytes of a response that do not yet make a whole event.
#[derive(Debug)]
pub struct SseBuffer {
    pub buf: Vec<u8>,
}

impl SseBuffer {
    pub fn new() -> (r: Self)
        ensures
            r.buf@.len() == 0,
    {
        SseBuffer { buf: Vec::new() }
    }

    /// Takes more bytes; carriages the payloads of the events that are now whole.
    pub fn feed(&mut self, bytes: &[u8]) -> (r: Vec<String>)
        ensures
            text::strings(r@) == drained(old(self).buf@ + bytes@).0,
            final(self).buf@ == drained(old(self).buf@ + bytes@).1,
    {
        let mut all: Vec<u8> = Vec::new();
        std::mem::swap(&mut all, &mut self.buf);
        let mut k: usize = 0;
        let ghost before = all@;
        while k < bytes.len()
            invariant
                k <= bytes@.len(),
                all@ == before + bytes@.take(k as int),
            decreases bytes@.len() - k,
        {
            assert(bytes@.take(k + 1) =~= bytes@.take(k as int).push(bytes@[k as int]));
            all.push(bytes[k]);
            k += 1;
        }
        assert(bytes@.take(k as int) =~= bytes@);
        let ghost goal = drained(all@);
        let mut out: Vec<String> = Vec::new();
        assert(text::strings(out@) =~= Seq::empty());
        assert(text::strings(out@) + drained(all@).0 =~= goal.0);
        loop
            invariant
                text::strings(out@) + drained(all@).0 == goal.0,
                drained(all@).1 == goal.1,
            ensures
                text::strings(out@) == goal.0,
                all@ == goal.1,
            decreases all@.len(),
        {
            let lf: [u8; 2] = [10, 10];
            let crlf: [u8; 4] = [13, 10, 13, 10];
            proof {
                assert(lf@ =~= lf_lf());
                assert(crlf@ =~= crlf_crlf());
            }
            let total: usize = all.len();
            let end: Option<usize> = match find_bytes(&all, lf.as_slice()) {
                Some(p) => Some(p + 2),
                None => match find_bytes(&all, crlf.as_slice()) {
                    Some(p) => Some(p + 4),
                    None => None,
                },
            };
            match end {
                None => {
                    assert(text::strings(out@) + Seq::empty() =~= text::strings(out@));
                    break ;
                },
                Some(n) => {
                    let ghost was = all@;
                    let rest = all.split_off(n);
                    assert(all@ =~= was.take(n as int));
                    assert(rest@ =~= was.skip(n as int));
                    let event = lossy_text(all.as_slice());
                    let payloads = event_payloads(event.as_str());
                    let ghost head = text::strings(out@);
                    let mut payloads = payloads;
                    let ghost found = payloads@;
                    let ghost had = out@;
                    out.append(&mut payloads);
                    assert(text::strings(out@) =~= head + text::strings(found));
                    assert(head + (text::strings(found) + drained(rest@).0) =~= (head
                        + text::strings(found)) + drained(rest@).0);
                    all = rest;
                },
            }
        }
        self.buf = all;
        out
    }
}

/// Whether at most one of the two kinds of blank line stands in `buf`.
pub open spec fn one_line_end(buf: Seq<u8>) -> bool {
    bytes_at(buf, lf_lf(), 0) is None || bytes_at(buf, crlf_crlf(), 0) is None
}

/// What is found first is found first with more behind it.
proof fn first_stays(a: Seq<u8>, b: Seq<u8>, needle: Seq<u8>)
    requires
        needle.len() > 0,
    ensures
        bytes_at(a, needle, 0) is Some ==> bytes_at(a + b, needle, 0) == bytes_at(a, needle, 0),
{
    let all = a + b;
    let n = needle.len() as int;
    bytes_at_is_first(a, needle, 0);
    bytes_at_is_first(all, needle, 0);
    match bytes_at(a, needle, 0) {
        Some(p) => {
            assert(all.subrange(p, p + n) =~= a.subrange(p, p + n));
            let q = bytes_at(all, needle, 0).unwrap();
            if q < p {
                assert(a.subrange(q, q + n) =~= all.subrange(q, q + n));
            }
        },
        None => {},
    }
}

/// What is not in `s` is not in what is left of it behind the first `n` bytes.
proof fn absent_behind(s: Seq<u8>, needle: Seq<u8>, n: int)
    requires
        0 <= n <= s.len(),
        needle.len() > 0,
        bytes_at(s, needle, 0) is None,
    ensures
        bytes_at(s.skip(n), needle, 0) is None,
{
    bytes_at_is_first(s, needle, 0);
    bytes_at_is_first(s.skip(n), needle, 0);
    match bytes_at(s.skip(n), needle, 0) {
        Some(p) => {
            let m = needle.len() as int;
            assert(s.subrange(p + n, p + n + m) =~= s.skip(n).subrange(p, p + m));
        },
        None => {},
    }
}

proof fn event_len_stays(a: Seq<u8>, b: Seq<u8>)
    requires
        one_line_end(a + b),
        event_len(a) is Some,
    ensures
        event_len(a + b) == event_len(a),
        0 < event_len(a).unwrap() <= a.len(),
{
    first_stays(a, b, lf_lf());
    first_stays(a, b, crlf_crlf());
    bytes_at_is_first(a, lf_lf(), 0);
    bytes_at_is_first(a, crlf_crlf(), 0);
}

/// How a response is cut into chunks does not matter: where its blank lines are all
/// of one kind, the payloads that come of two chunks are those that come of both
/// at once.
pub proof fn chunks_do_not_matter(a: Seq<u8>, b: Seq<u8>)
    requires
        one_line_end(a + b),
    ensures
        drained(a + b).0 == drained(a).0 + drained(drained(a).1 + b).0,
        drained(a + b).1 == drained(drained(a).1 + b).1,
    decreases a.len(),
{
    match event_len(a) {
        Some(n) => {
            event_len_stays(a, b);
            assert((a + b).take(n) =~= a.take(n));
            assert((a + b).skip(n) =~= a.skip(n) + b);
            if bytes_at(a + b, lf_lf(), 0) is None {
                absent_behind(a + b, lf_lf(), n);
            } else {
                absent_behind(a + b, crlf_crlf(), n);
            }
            chunks_do_not_matter(a.skip(n), b);
            assert(payloads_of(lossy(a.take(n))) + (drained(a.skip(n)).0 + drained(
                drained(a.skip(n)).1 + b,
            ).0) =~= (payloads_of(lossy(a.take(n))) + drained(a.skip(n)).0) + drained(
                drained(a.skip(n)).1 + b,
            ).0);
        },
        None => {
            assert(Seq::<Seq<char>>::empty() + drained(a + b).0 =~= drained(a + b).0);
        },
    }
}

// ---------------------------------------------------------------------------
// Laws.

/// Whether `needle` stands in `hay` at `i`.
pub open spec fn stands_at(hay: Seq<u8>, needle: Seq<u8>, i: int) -> bool {
    0 <= i && i + needle.len() <= hay.len() && hay.subrange(i, i + needle.len()) == needle
}

proof fn first_is_found(hay: Seq<u8>, needle: Seq<u8>, from: int)
    requires
        0 <= from,
        needle.len() > 0,
    ensures
        match bytes_at(hay, needle, from) {
            Some(p) => from <= p && stands_at(hay, needle, p) && forall|k: int|
                from <= k < p ==> !#[trigger] stands_at(hay, needle, k),
            None => forall|k: int| from <= k ==> !#[trigger] stands_at(hay, needle, k),
        },
    decreases hay.len() - from,
{
    if from + needle.len() <= hay.len() && hay.subrange(from, from + needle.len()) != needle {
        first_is_found(hay, needle, from + 1);
    }
}

/// An event ends with the first blank line, and there is none before that line has come: an
/// empty line between two line feeds or, where there is no such line, one between two pairs of
/// a carriage return and a line feed.
pub proof fn events_end_with_a_blank_line(buf: Seq<u8>, n: int)
    ensures
        ({
            let feeds = seq![10u8, 10u8];
            let carriages = seq![13u8, 10u8, 13u8, 10u8];
            let fed = exists|k: int| #[trigger] stands_at(buf, feeds, k);
            let returned = exists|k: int| #[trigger] stands_at(buf, carriages, k);
            &&& event_len(buf) is Some <==> fed || returned
            &&& stands_at(buf, feeds, n) && (forall|k: int|
                k < n ==> !#[trigger] stands_at(buf, feeds, k)) ==> event_len(buf) == Some(n + 2)
            &&& !fed && stands_at(buf, carriages, n) && (forall|k: int|
                k < n ==> !#[trigger] stands_at(buf, carriages, k)) ==> event_len(buf) == Some(n + 4)
        }),
{
    first_is_found(buf, lf_lf(), 0);
    first_is_found(buf, crlf_crlf(), 0);
}

/// What comes behind an event is read as if it came alone, and an event that has not ended
/// is kept.
pub proof fn events_are_read_in_turn(buf: Seq<u8>, n: int)
    ensures
        event_len(buf) == Some(n) && 0 <= n <= buf.len() ==> drained(buf).0 == payloads_of(
            lossy(buf.take(n)),
        ) + drained(buf.skip(n)).0 && drained(buf).1 == drained(buf.skip(n)).1,
        event_len(buf) is None ==> drained(buf).0.len() == 0 && drained(buf).1 == buf,
{
}

/// The payloads of an event are what its data lines hold behind their name, in their order;
/// the other lines have none.
pub proof fn payloads_are_the_data_lines(lines: Seq<Seq<char>>, payloads: Seq<Seq<char>>)
    ensures
        data_of(
            payloads.map_values(|p: Seq<char>| "data:"@ + p),
            payloads.len() as int,
        ) == payloads,
        forall|p: Seq<char>|
            data_of(lines, lines.len() as int).contains(p) <==> lines.contains("data:"@ + p),
{
    every_data_line(payloads, payloads.len() as int);
    assert(payloads.take(payloads.len() as int) =~= payloads);
    assert forall|p: Seq<char>|
        data_of(lines, lines.len() as int).contains(p) <==> lines.contains("data:"@ + p) by {
        data_line_among(lines, lines.len() as int, p);
        assert(lines.take(lines.len() as int) =~= lines);
    }
}

proof fn every_data_line(payloads: Seq<Seq<char>>, n: int)
    requires
        0 <= n <= payloads.len(),
    ensures
        data_of(payloads.map_values(|p: Seq<char>| "data:"@ + p), n) == payloads.take(n),
    decreases n,
{
    if n > 0 {
        every_data_line(payloads, n - 1);
        let line = "data:"@ + payloads[n - 1];
        assert(line.take("data:"@.len() as int) =~= "data:"@);
        assert(line.skip("data:"@.len() as int) =~= payloads[n - 1]);
        assert(payloads.take(n) =~= payloads.take(n - 1).push(payloads[n - 1]));
    }
}

proof fn data_line_among(lines: Seq<Seq<char>>, n: int, p: Seq<char>)
    requires
        0 <= n <= lines.len(),
    ensures
        data_of(lines, n).contains(p) <==> lines.take(n).contains("data:"@ + p),
    decreases n,
{
    if n > 0 {
        data_line_among(lines, n - 1, p);
        let before = data_of(lines, n - 1);
        let wanted = "data:"@ + p;
        let line = lines[n - 1];
        let k = "data:"@.len() as int;
        assert(wanted.take(k) =~= "data:"@);
        assert(wanted.skip(k) =~= p);
        assert(lines.take(n) =~= lines.take(n - 1).push(line));
        if lines.take(n - 1).contains(wanted) {
            let i = choose|i: int| 0 <= i < n - 1 && #[trigger] lines.take(n - 1)[i] == wanted;
            assert(lines.take(n)[i] == wanted);
        }
        if line == wanted {
            assert(lines.take(n)[n - 1] == wanted);
        }
        if text::begins_with(line, "data:"@) {
            assert(line =~= "data:"@ + line.skip(k));
            let after = before.push(line.skip(k));
            if before.contains(p) {
                let i = choose|i: int| 0 <= i < before.len() && before[i] == p;
                assert(after[i] == p);
            }
            if line.skip(k) == p {
                assert(after[before.len() as int] == p);
            }
        }
    }
}

} // verus!
