//! Re-indentation of a replacement by the difference in indentation between
//! what was asked for and what was found.

use crate::normalization;
use crate::text;
use vstd::prelude::*;
use vstd::string::*;

verus! {

/// The number of characters that take the first `n` bytes of `s`; none where
/// the byte at `n` is inside a character or `s` is too short.
pub open spec fn chars_in_bytes(s: Seq<char>, n: int) -> Option<int>
    decreases s.len(),
{
    if n == 0 {
        Some(0)
    } else if n < 0 || s.len() == 0 {
        None
    } else {
        match chars_in_bytes(s.skip(1), n - text::utf8_width(s[0])) {
            Some(k) => Some(k + 1),
            None => None,
        }
    }
}

/// The bytes that the leading whitespace of `s` takes.
pub open spec fn indent_bytes(s: Seq<char>) -> int {
    text::byte_len(s.take(normalization::indent_of(s))) as int
}

/// How one line's indentation differs from another's: whether whitespace has to
/// be added or removed, and which. None where the difference is no whole number
/// of characters.
pub open spec fn line_delta(old: Seq<char>, found: Seq<char>) -> Option<(bool, Seq<char>)> {
    let lo = indent_bytes(old);
    let lm = indent_bytes(found);
    if lm >= lo {
        match chars_in_bytes(found, lm - lo) {
            Some(k) => Some((true, found.take(k))),
            None => None,
        }
    } else {
        match chars_in_bytes(old, lo - lm) {
            Some(k) => Some((false, old.take(k))),
            None => None,
        }
    }
}

/// What the first lines of two texts say about the difference in indentation.
pub enum Delta {
    /// Nothing yet: the lines were blank.
    Unset,
    /// The same difference on every line that is not blank in both.
    Same { add: bool, ws: Seq<char> },
    /// No common difference.
    Clash,
}

/// What the first `n` lines of `old` and `found` say.
pub open spec fn delta_of(old: Seq<Seq<char>>, found: Seq<Seq<char>>, n: int) -> Delta
    decreases n,
{
    if n <= 0 {
        Delta::Unset
    } else {
        let before = delta_of(old, found, n - 1);
        if text::is_blank(old[n - 1]) && text::is_blank(found[n - 1]) {
            before
        } else {
            match (before, line_delta(old[n - 1], found[n - 1])) {
                (Delta::Clash, _) => Delta::Clash,
                (_, None) => Delta::Clash,
                (Delta::Unset, Some((add, ws))) => Delta::Same { add, ws },
                (Delta::Same { add, ws }, Some(this)) => if this == (add, ws) {
                    before
                } else {
                    Delta::Clash
                },
            }
        }
    }
}

/// One line of the replacement with the difference applied.
pub open spec fn shifted_line(line: Seq<char>, add: bool, ws: Seq<char>) -> Seq<char> {
    if text::is_blank(line) {
        line
    } else if add {
        ws + line
    } else if text::begins_with(line, ws) {
        line.skip(ws.len() as int)
    } else {
        line
    }
}

/// `new_str` with the difference applied to each of its lines, where every line
/// of the found text differs from its line of `old_str` by the same leading
/// whitespace and there is such a difference.
pub open spec fn adjusted_new_str(old_str: Seq<char>, matched: Seq<char>, new_str: Seq<char>) -> Option<
    Seq<char>,
> {
    let o = text::lines(old_str);
    let m = text::lines(matched);
    if o.len() == 0 || o.len() != m.len() {
        None
    } else {
        match delta_of(o, m, o.len() as int) {
            Delta::Same { add, ws } if ws.len() > 0 => Some(
                text::join(
                    text::split_on(new_str, '\n').map_values(
                        |line: Seq<char>| shifted_line(line, add, ws),
                    ),
                    "\n"@,
                ),
            ),
            _ => None,
        }
    }
}

/// The bytes that the leading whitespace of `cs` takes.
fn indent_in_bytes(cs: &[char]) -> (r: u128)
    ensures
        r == indent_bytes(cs@),
{
    let n = text::leading_white(cs);
    let mut i: usize = 0;
    let mut total: u128 = 0;
    assert(cs@.take(0) =~= Seq::<char>::empty());
    while i < n
        invariant
            i <= n <= cs@.len(),
            total == text::byte_len(cs@.take(i as int)),
            total <= 4 * i,
        decreases n - i,
    {
        total = total + text::width_of(cs[i]) as u128;
        i += 1;
        assert(cs@.take(i as int).drop_last() =~= cs@.take(i - 1));
    }
    total
}

/// The number of characters that take the first `n` bytes of `cs`.
pub fn count_in_bytes(cs: &[char], n: u128) -> (r: Option<usize>)
    ensures
        match r {
            Some(k) => chars_in_bytes(cs@, n as int) == Some(k as int) && k <= cs@.len(),
            None => chars_in_bytes(cs@, n as int) is None,
        },
{
    let mut k: usize = 0;
    let mut left: u128 = n;
    assert(cs@.skip(0) =~= cs@);
    while left > 0
        invariant
            k <= cs@.len(),
            left <= n,
            chars_in_bytes(cs@, n as int) == match chars_in_bytes(
                cs@.skip(k as int),
                left as int,
            ) {
                Some(q) => Some(q + k),
                None => None,
            },
        decreases left,
    {
        if k == cs.len() {
            return None;
        }
        let w = text::width_of(cs[k]) as u128;
        assert(cs@.skip(k as int)[0] == cs@[k as int]);
        assert(cs@.skip(k as int).skip(1) =~= cs@.skip(k + 1));
        if w > left {
            assert(chars_in_bytes(cs@.skip(k + 1), left - w) is None);
            return None;
        }
        left = left - w;
        k += 1;
    }
    Some(k)
}

/// How one line's indentation differs from another's.
fn delta_between(old: &[char], found: &[char]) -> (r: Option<(bool, Vec<char>)>)
    ensures
        match r {
            Some(d) => line_delta(old@, found@) == Some((d.0, d.1@)),
            None => line_delta(old@, found@) is None,
        },
{
    let lo = indent_in_bytes(old);
    let lm = indent_in_bytes(found);
    if lm >= lo {
        match count_in_bytes(found, lm - lo) {
            Some(k) => {
                let ws = text::slice_of(found, 0, k);
                assert(ws@ =~= found@.take(k as int));
                Some((true, ws))
            },
            None => None,
        }
    } else {
        match count_in_bytes(old, lo - lm) {
            Some(k) => {
                let ws = text::slice_of(old, 0, k);
                assert(ws@ =~= old@.take(k as int));
                Some((false, ws))
            },
            None => None,
        }
    }
}

/// The common difference in indentation of two texts with the same number of
/// lines; none where there is no line to tell it or the lines disagree.
fn common_delta(o: &Vec<Vec<char>>, m: &Vec<Vec<char>>) -> (r: Option<(bool, Vec<char>)>)
    requires
        o@.len() == m@.len(),
    ensures
        match r {
            Some(d) => delta_of(text::texts(o@), text::texts(m@), o@.len() as int) == (Delta::Same {
                add: d.0,
                ws: d.1@,
            }),
            None => !(delta_of(text::texts(o@), text::texts(m@), o@.len() as int) is Same),
        },
{
    let ghost to = text::texts(o@);
    let ghost tm = text::texts(m@);
    let mut delta: Option<(bool, Vec<char>)> = None;
    let mut i: usize = 0;
    while i < o.len()
        invariant
            i <= o@.len() == m@.len(),
            to == text::texts(o@),
            tm == text::texts(m@),
            match delta {
                Some(d) => delta_of(to, tm, i as int) == (Delta::Same { add: d.0, ws: d.1@ }),
                None => delta_of(to, tm, i as int) == Delta::Unset,
            },
        decreases o@.len() - i,
    {
        let ol = o[i].as_slice();
        let ml = m[i].as_slice();
        assert(to[i as int] == ol@);
        assert(tm[i as int] == ml@);
        if !(text::blank(ol) && text::blank(ml)) {
            match delta_between(ol, ml) {
                None => {
                    proof {
                        clash_stays(to, tm, i + 1, o@.len() as int);
                    }
                    return None;
                },
                Some(this) => {
                    match &delta {
                        None => {
                            delta = Some(this);
                        },
                        Some(d) => {
                            let same = d.0 == this.0 && text::same_chars(
                                d.1.as_slice(),
                                this.1.as_slice(),
                            );
                            if !same {
                                proof {
                                    clash_stays(to, tm, i + 1, o@.len() as int);
                                }
                                return None;
                            }
                        },
                    }
                },
            }
        }
        i += 1;
    }
    delta
}

/// Lines that disagree once disagree for good.
proof fn clash_stays(o: Seq<Seq<char>>, m: Seq<Seq<char>>, i: int, n: int)
    requires
        0 <= i <= n,
        delta_of(o, m, i) == Delta::Clash,
    ensures
        delta_of(o, m, n) == Delta::Clash,
    decreases n - i,
{
    if i < n {
        clash_stays(o, m, i, n - 1);
    }
}

/// One line with the difference applied.
fn shift_line(line: &[char], add: bool, ws: &[char]) -> (r: Vec<char>)
    ensures
        r@ == shifted_line(line@, add, ws@),
{
    let mut out: Vec<char> = Vec::new();
    if text::blank(line) {
        text::extend_chars(&mut out, line);
    } else if add {
        text::extend_chars(&mut out, ws);
        text::extend_chars(&mut out, line);
        assert(out@ =~= ws@ + line@);
        return out;
    } else if text::starts(line, ws) {
        return text::slice_of(line, ws.len(), line.len());
    } else {
        text::extend_chars(&mut out, line);
    }
    assert(out@ =~= line@);
    out
}

/// If every line of the matched text is the corresponding line of `old_str`
/// with the same leading-whitespace delta, applies that delta to `new_str`.
pub fn indentation_adjusted_new_str(old_str: &[char], matched: &[char], new_str: &[char]) -> (r:
    Option<String>)
    ensures
        match r {
            Some(s) => adjusted_new_str(old_str@, matched@, new_str@) == Some(s@),
            None => adjusted_new_str(old_str@, matched@, new_str@) is None,
        },
{
    let o = text::lines_of(old_str);
    let m = text::lines_of(matched);
    assert(text::texts(o@).len() == o@.len());
    assert(text::texts(m@).len() == m@.len());
    if o.len() == 0 || o.len() != m.len() {
        return None;
    }
    let (add, ws) = match common_delta(&o, &m) {
        Some(d) => d,
        None => {
            return None;
        },
    };
    if ws.len() == 0 {
        return None;
    }
    let parts = text::split_chars(new_str, '\n');
    let ghost all = text::split_on(new_str@, '\n');
    let ghost goal = all.map_values(|line: Seq<char>| shifted_line(line, add, ws@));
    let mut out: Vec<String> = Vec::new();
    let mut i: usize = 0;
    while i < parts.len()
        invariant
            i <= parts@.len(),
            all == text::texts(parts@),
            goal == all.map_values(|line: Seq<char>| shifted_line(line, add, ws@)),
            text::strings(out@) == goal.take(i as int),
        decreases parts@.len() - i,
    {
        let ghost before = text::strings(out@);
        let shifted = shift_line(parts[i].as_slice(), add, ws.as_slice());
        let line = text::string_of(shifted.as_slice());
        assert(all[i as int] == parts@[i as int]@);
        out.push(line);
        i += 1;
        assert(text::strings(out@) =~= before.push(line@));
        assert(goal.take(i as int) =~= before.push(goal[i - 1]));
    }
    assert(goal.take(goal.len() as int) =~= goal);
    Some(text::join_strings(&out, "\n"))
}

// ---------------------------------------------------------------------------
// Laws.

/// Whether each line of `long` is its line of `short` with `ws` put before it. Lines that
/// are blank in both tell nothing; one at least is not.
pub open spec fn is_deeper_by(long: Seq<Seq<char>>, short: Seq<Seq<char>>, ws: Seq<char>) -> bool {
    &&& ws.len() > 0 && text::is_blank(ws)
    &&& long.len() == short.len()
    &&& exists|i: int| 0 <= i < long.len() && !text::is_blank(#[trigger] long[i])
    &&& forall|i: int|
        0 <= i < long.len() ==> (text::is_blank(#[trigger] long[i]) && text::is_blank(short[i]))
            || long[i] == ws + short[i]
}

/// The lines between the line feeds of a text.
pub open spec fn rows(s: Seq<char>) -> Seq<Seq<char>> {
    text::split_on(s, '\n')
}

proof fn chars_in_bytes_of_front(ws: Seq<char>, rest: Seq<char>)
    ensures
        chars_in_bytes(ws + rest, text::byte_len(ws) as int) == Some(ws.len() as int),
    decreases ws.len(),
{
    if ws.len() > 0 {
        assert(ws =~= seq![ws[0]] + ws.skip(1));
        text::byte_len_adds_up(seq![ws[0]], ws.skip(1));
        assert(seq![ws[0]].drop_last() =~= Seq::<char>::empty());
        assert(text::byte_len(seq![ws[0]].drop_last()) == 0);
        assert(text::byte_len(seq![ws[0]]) == text::utf8_width(ws[0]));
        chars_in_bytes_of_front(ws.skip(1), rest);
        assert((ws + rest).skip(1) =~= ws.skip(1) + rest);
    }
}

/// A line with whitespace put before it takes that many bytes more of indentation.
proof fn indent_adds_up(ws: Seq<char>, line: Seq<char>)
    requires
        text::is_blank(ws),
    ensures
        indent_bytes(ws + line) == text::byte_len(ws) + indent_bytes(line),
{
    text::trim_start_drops_white(ws, line);
    text::trim_start_shape(line);
    let n = normalization::indent_of(line);
    assert((ws + line).take(ws.len() + n) =~= ws + line.take(n));
    text::byte_len_adds_up(ws, line.take(n));
}

proof fn delta_of_deeper(ws: Seq<char>, line: Seq<char>)
    requires
        ws.len() > 0,
        text::is_blank(ws),
    ensures
        line_delta(ws + line, line) == Some((false, ws)),
        line_delta(line, ws + line) == Some((true, ws)),
{
    indent_adds_up(ws, line);
    chars_in_bytes_of_front(ws, line);
    text::byte_len_grows(ws, 0);
    assert(ws.take(0) =~= Seq::<char>::empty());
    assert((ws + line).take(ws.len() as int) =~= ws);
}

proof fn delta_is_found(
    long: Seq<Seq<char>>,
    short: Seq<Seq<char>>,
    ws: Seq<char>,
    n: int,
    add: bool,
)
    requires
        is_deeper_by(long, short, ws),
        0 <= n <= long.len(),
    ensures
        ({
            let d = if add {
                delta_of(short, long, n)
            } else {
                delta_of(long, short, n)
            };
            if exists|i: int| 0 <= i < n && !text::is_blank(#[trigger] long[i]) {
                d == (Delta::Same { add, ws })
            } else {
                d == Delta::Unset
            }
        }),
    decreases n,
{
    if n > 0 {
        delta_is_found(long, short, ws, n - 1, add);
        let (l, s) = (long[n - 1], short[n - 1]);
        if text::is_blank(l) && text::is_blank(s) {
        } else {
            assert(l == ws + s);
            if text::is_blank(l) {
                assert forall|i: int| 0 <= i < s.len() implies text::is_white(#[trigger] s[i]) by {
                    assert(l[ws.len() + i] == s[i]);
                }
            }
            delta_of_deeper(ws, s);
            assert(!text::is_blank(long[n - 1]));
        }
    }
}

/// The rows of a text whose rows were shifted.
proof fn shifted_rows(new_str: Seq<char>, add: bool, ws: Seq<char>)
    requires
        forall|i: int| 0 <= i < ws.len() ==> #[trigger] ws[i] != '\n',
    ensures
        rows(
            text::join(
                rows(new_str).map_values(|line: Seq<char>| shifted_line(line, add, ws)),
                "\n"@,
            ),
        ) == rows(new_str).map_values(|line: Seq<char>| shifted_line(line, add, ws)),
{
    reveal_strlit("\n");
    assert("\n"@ =~= seq!['\n']);
    text::pieces_make_up_the_text(new_str, '\n');
    let before = rows(new_str);
    let after = before.map_values(|line: Seq<char>| shifted_line(line, add, ws));
    assert forall|k: int, i: int| 0 <= k < after.len() && 0 <= i < after[k].len() implies
        #[trigger] after[k][i] != '\n' by {
        let line = before[k];
        if !text::is_blank(line) && add {
            if i < ws.len() {
                assert(after[k][i] == ws[i]);
            } else {
                assert(after[k][i] == line[i - ws.len()]);
                assert(before[k][i - ws.len()] != '\n');
            }
        } else if !text::is_blank(line) && text::begins_with(line, ws) {
            assert(after[k][i] == line[i + ws.len()]);
            assert(before[k][i + ws.len()] != '\n');
        } else {
            assert(before[k][i] != '\n');
        }
    }
    crate::redaction::split_of_join(after, '\n');
}

/// What was asked for stands deeper than what was found, by `ws` on every line: then `ws`
/// is taken off every line of the replacement that begins with it, and the other lines
/// stay.
pub proof fn what_is_too_deep_is_taken_out(
    old_str: Seq<char>,
    matched: Seq<char>,
    new_str: Seq<char>,
    ws: Seq<char>,
)
    requires
        is_deeper_by(text::lines(old_str), text::lines(matched), ws),
    ensures
        adjusted_new_str(old_str, matched, new_str) is Some,
        ({
            let out = rows(adjusted_new_str(old_str, matched, new_str).unwrap());
            &&& out.len() == rows(new_str).len()
            &&& forall|k: int, rest: Seq<char>|
                0 <= k < out.len() && !text::is_blank(rest) && rows(new_str)[k] == #[trigger] (ws
                    + rest) ==> #[trigger] out[k] == rest
            &&& forall|k: int|
                0 <= k < out.len() && (text::is_blank(rows(new_str)[k]) || !text::begins_with(
                    rows(new_str)[k],
                    ws,
                )) ==> #[trigger] out[k] == rows(new_str)[k]
        }),
{
    let (o, m) = (text::lines(old_str), text::lines(matched));
    delta_is_found(o, m, ws, o.len() as int, false);
    deeper_has_no_line_feed(old_str, m, ws);
    shifted_rows(new_str, false, ws);
    let out = rows(new_str).map_values(|line: Seq<char>| shifted_line(line, false, ws));
    assert forall|k: int, rest: Seq<char>|
        0 <= k < out.len() && !text::is_blank(rest) && rows(new_str)[k] == #[trigger] (ws
            + rest) implies #[trigger] out[k] == rest by {
        let line = ws + rest;
        assert(line.subrange(0, ws.len() as int) =~= ws);
        assert(line.skip(ws.len() as int) =~= rest);
        if text::is_blank(line) {
            assert forall|i: int| 0 <= i < rest.len() implies text::is_white(
                #[trigger] rest[i],
            ) by {
                assert(line[ws.len() + i] == rest[i]);
            }
        }
    }
}

proof fn deeper_has_no_line_feed(long: Seq<char>, short: Seq<Seq<char>>, ws: Seq<char>)
    requires
        is_deeper_by(text::lines(long), short, ws),
    ensures
        forall|i: int| 0 <= i < ws.len() ==> #[trigger] ws[i] != '\n',
{
    let l = text::lines(long);
    text::lines_are_pieces(long);
    let k = choose|k: int| 0 <= k < l.len() && !text::is_blank(#[trigger] l[k]);
    assert(l[k] == ws + short[k]);
    assert forall|i: int| 0 <= i < ws.len() implies #[trigger] ws[i] != '\n' by {
        assert(l[k][i] != '\n');
    }
}

/// What was found stands deeper than what was asked for, by `ws` on every line: then `ws`
/// is put before every line of the replacement that is not blank.
pub proof fn what_is_too_shallow_is_put_deeper(
    old_str: Seq<char>,
    matched: Seq<char>,
    new_str: Seq<char>,
    ws: Seq<char>,
)
    requires
        is_deeper_by(text::lines(matched), text::lines(old_str), ws),
    ensures
        adjusted_new_str(old_str, matched, new_str) is Some,
        ({
            let out = rows(adjusted_new_str(old_str, matched, new_str).unwrap());
            &&& out.len() == rows(new_str).len()
            &&& forall|k: int|
                0 <= k < out.len() ==> #[trigger] out[k] == if text::is_blank(rows(new_str)[k]) {
                    rows(new_str)[k]
                } else {
                    ws + rows(new_str)[k]
                }
        }),
{
    let (o, m) = (text::lines(old_str), text::lines(matched));
    delta_is_found(m, o, ws, o.len() as int, true);
    deeper_has_no_line_feed(matched, o, ws);
    shifted_rows(new_str, true, ws);
}

/// A line and the row that it is, without its carriage return.
proof fn line_of_row(s: Seq<char>, k: int)
    requires
        0 <= k < text::lines(s).len(),
    ensures
        k < rows(s).len(),
        text::lines(s)[k] == if k < rows(s).len() - 1 {
            text::strip_cr(rows(s)[k])
        } else {
            rows(s)[k]
        },
{
}

/// Whitespace behind `ws` ends where that behind the line does.
proof fn cr_is_stripped_behind(ws: Seq<char>, rest: Seq<char>)
    requires
        !text::is_blank(rest),
    ensures
        text::strip_cr(ws + rest) == ws + text::strip_cr(rest),
{
    assert((ws + rest).last() == rest.last());
    if rest.last() == '\r' {
        assert((ws + rest).drop_last() =~= ws + rest.drop_last());
    }
}

/// Put in its own place, what was asked for becomes what was found: line by line, where
/// the line is not blank.
pub proof fn what_was_asked_for_becomes_what_was_found(
    old_str: Seq<char>,
    matched: Seq<char>,
    ws: Seq<char>,
    k: int,
)
    requires
        is_deeper_by(text::lines(old_str), text::lines(matched), ws) || is_deeper_by(
            text::lines(matched),
            text::lines(old_str),
            ws,
        ),
        0 <= k < text::lines(old_str).len(),
        !text::is_blank(text::lines(old_str)[k]),
    ensures
        adjusted_new_str(old_str, matched, old_str) is Some,
        k < text::lines(adjusted_new_str(old_str, matched, old_str).unwrap()).len(),
        text::lines(adjusted_new_str(old_str, matched, old_str).unwrap())[k] == text::lines(
            matched,
        )[k],
{
    let (o, m) = (text::lines(old_str), text::lines(matched));
    let r = rows(old_str);
    line_of_row(old_str, k);
    white_line_feed_is_none();
    if is_deeper_by(o, m, ws) {
        what_is_too_deep_is_taken_out(old_str, matched, old_str, ws);
        let out = rows(adjusted_new_str(old_str, matched, old_str).unwrap());
        assert(o[k] == ws + m[k]);
        let rest = r[k].skip(ws.len() as int);
        assert(r[k].len() >= o[k].len());
        assert forall|i: int| 0 <= i < ws.len() implies r[k][i] == ws[i] by {
            assert(o[k][i] == r[k][i]);
        }
        assert(r[k] =~= ws + rest);
        assert(!text::is_blank(rest)) by {
            if text::is_blank(rest) {
                assert forall|i: int| 0 <= i < o[k].len() implies text::is_white(
                    #[trigger] o[k][i],
                ) by {
                    if i >= ws.len() {
                        assert(o[k][i] == rest[i - ws.len()]);
                    }
                }
            }
        }
        assert(out[k] == rest);
        cr_is_stripped_behind(ws, rest);
        assert((ws + text::strip_cr(rest)).skip(ws.len() as int) =~= text::strip_cr(rest));
        assert((ws + rest).skip(ws.len() as int) =~= rest);
        assert((ws + m[k]).skip(ws.len() as int) =~= m[k]);
        rows_have_lines(adjusted_new_str(old_str, matched, old_str).unwrap(), k);
    } else {
        what_is_too_shallow_is_put_deeper(old_str, matched, old_str, ws);
        let out = rows(adjusted_new_str(old_str, matched, old_str).unwrap());
        assert(m[k] == ws + o[k]) by {
            if text::is_blank(m[k]) && text::is_blank(o[k]) {
            }
        }
        assert(!text::is_blank(r[k])) by {
            if text::is_blank(r[k]) {
                assert forall|i: int| 0 <= i < o[k].len() implies text::is_white(
                    #[trigger] o[k][i],
                ) by {
                    assert(o[k][i] == r[k][i]);
                }
            }
        }
        assert(out[k] == ws + r[k]);
        cr_is_stripped_behind(ws, r[k]);
        rows_have_lines(adjusted_new_str(old_str, matched, old_str).unwrap(), k);
    }
}

proof fn white_line_feed_is_none()
    ensures
        text::is_white('\r'),
{
}

/// A row with text is a line.
proof fn rows_have_lines(s: Seq<char>, k: int)
    requires
        0 <= k < rows(s).len(),
        rows(s)[k].len() > 0,
    ensures
        k < text::lines(s).len(),
        text::lines(s)[k] == if k < rows(s).len() - 1 {
            text::strip_cr(rows(s)[k])
        } else {
            rows(s)[k]
        },
{
    if k == rows(s).len() - 1 {
        assert(rows(s).last() == rows(s)[k]);
    }
}

/// A replacement is re-indented only where all lines agree: there is one whitespace, and
/// on each line that is not blank in both texts the deeper one begins with it and is
/// indented by just its bytes more.
pub proof fn only_a_common_difference_is_applied(
    old_str: Seq<char>,
    matched: Seq<char>,
    new_str: Seq<char>,
)
    requires
        adjusted_new_str(old_str, matched, new_str) is Some,
    ensures
        text::lines(old_str).len() == text::lines(matched).len(),
        exists|add: bool, ws: Seq<char>|
            ws.len() > 0 && #[trigger] lines_differ_by(
                text::lines(old_str),
                text::lines(matched),
                add,
                ws,
            ),
{
    let (o, m) = (text::lines(old_str), text::lines(matched));
    match delta_of(o, m, o.len() as int) {
        Delta::Same { add, ws } => {
            common_difference(o, m, o.len() as int, add, ws);
            assert(lines_differ_by(o, m, add, ws));
        },
        _ => {},
    }
}

/// Whether each line that is not blank in both texts is indented deeper in one of them,
/// the second where `add` holds, by just `ws`.
pub open spec fn lines_differ_by(
    old: Seq<Seq<char>>,
    found: Seq<Seq<char>>,
    add: bool,
    ws: Seq<char>,
) -> bool {
    forall|i: int|
        0 <= i < old.len() && !(text::is_blank(#[trigger] old[i]) && text::is_blank(found[i])) ==> {
            let (deep, flat) = if add {
                (found[i], old[i])
            } else {
                (old[i], found[i])
            };
            text::begins_with(deep, ws) && indent_bytes(deep) == indent_bytes(flat)
                + text::byte_len(ws)
        }
}

proof fn chars_in_bytes_fit(s: Seq<char>, n: int)
    requires
        chars_in_bytes(s, n) is Some,
    ensures
        0 <= chars_in_bytes(s, n).unwrap() <= s.len(),
        text::byte_len(s.take(chars_in_bytes(s, n).unwrap())) == n,
    decreases s.len(),
{
    let k = chars_in_bytes(s, n).unwrap();
    if n == 0 {
        assert(s.take(0) =~= Seq::<char>::empty());
    } else {
        chars_in_bytes_fit(s.skip(1), n - text::utf8_width(s[0]));
        assert(s.take(k) =~= seq![s[0]] + s.skip(1).take(k - 1));
        text::byte_len_adds_up(seq![s[0]], s.skip(1).take(k - 1));
        assert(seq![s[0]].drop_last() =~= Seq::<char>::empty());
        assert(text::byte_len(seq![s[0]].drop_last()) == 0);
        assert(text::byte_len(seq![s[0]]) == text::utf8_width(s[0]));
    }
}

proof fn common_difference(
    old: Seq<Seq<char>>,
    found: Seq<Seq<char>>,
    n: int,
    add: bool,
    ws: Seq<char>,
)
    requires
        0 <= n <= old.len(),
        delta_of(old, found, n) == (Delta::Same { add, ws }),
    ensures
        forall|i: int|
            0 <= i < n && !(text::is_blank(#[trigger] old[i]) && text::is_blank(found[i])) ==> {
                let (deep, flat) = if add {
                    (found[i], old[i])
                } else {
                    (old[i], found[i])
                };
                text::begins_with(deep, ws) && indent_bytes(deep) == indent_bytes(flat)
                    + text::byte_len(ws)
            },
    decreases n,
{
    if n > 0 {
        let (o, f) = (old[n - 1], found[n - 1]);
        if text::is_blank(o) && text::is_blank(f) {
            common_difference(old, found, n - 1, add, ws);
        } else {
            if delta_of(old, found, n - 1) is Same {
                common_difference(old, found, n - 1, add, ws);
            } else {
                nothing_before(old, found, n - 1);
            }
            let (lo, lm) = (indent_bytes(o), indent_bytes(f));
            if lm >= lo {
                chars_in_bytes_fit(f, lm - lo);
                let k = chars_in_bytes(f, lm - lo).unwrap();
                assert(f.subrange(0, k) =~= f.take(k));
            } else {
                chars_in_bytes_fit(o, lo - lm);
                let k = chars_in_bytes(o, lo - lm).unwrap();
                assert(o.subrange(0, k) =~= o.take(k));
            }
        }
    }
}

proof fn nothing_before(old: Seq<Seq<char>>, found: Seq<Seq<char>>, n: int)
    requires
        delta_of(old, found, n) == Delta::Unset,
    ensures
        forall|i: int|
            0 <= i < n ==> text::is_blank(#[trigger] old[i]) && text::is_blank(found[i]),
    decreases n,
{
    if n > 0 {
        nothing_before(old, found, n - 1);
    }
}

} // verus!
