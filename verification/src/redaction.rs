//! What a log may show of a request: neither credentials in its headers nor those in
//! its address.

use crate::json;
use crate::json::Json;
use crate::json::JsonModel;
use crate::text;
use vstd::prelude::*;
use vstd::string::*;

verus! {

/// Whether the traffic with an address is logged.
pub open spec fn is_logged(url: Seq<char>) -> bool {
    text::contains(url, "/responses"@) || text::contains(url, "/chat/completions"@)
        || text::contains(url, "/completions"@) || text::contains(url, "/realtime/calls"@)
}

/// Whether the traffic with an address is logged.
pub fn should_log_url(url: &str) -> (r: bool)
    ensures
        r == is_logged(url@),
{
    text::str_has(url, "/responses") || text::str_has(url, "/chat/completions") || text::str_has(
        url,
        "/completions",
    ) || text::str_has(url, "/realtime/calls")
}

// ---------------------------------------------------------------------------
// Addresses.

/// Whether the value of a parameter is kept out of logs.
pub open spec fn is_secret_param(name: Seq<char>) -> bool {
    let n = text::lower(name);
    text::contains(n, "key"@) || text::contains(n, "token"@) || text::contains(n, "secret"@)
        || text::contains(n, "signature"@) || n == "sig"@
}

/// Whether the value of a parameter is kept out of logs.
pub fn should_redact_query_param(name: &[char]) -> (r: bool)
    ensures
        r == is_secret_param(name@),
{
    let lowered = text::lowered(text::string_of(name).as_str());
    let n = text::string_of(lowered.as_slice());
    let n = n.as_str();
    text::str_has(n, "key") || text::str_has(n, "token") || text::str_has(n, "secret")
        || text::str_has(n, "signature") || text::same_text(n, "sig")
}

/// A parameter as a log shows it.
pub open spec fn shown_param(part: Seq<char>) -> Seq<char> {
    match text::halves(part, '=') {
        Some((key, _)) => if is_secret_param(key) {
            key + "=[REDACTED]"@
        } else {
            part
        },
        None => part,
    }
}

pub open spec fn shown_params(parts: Seq<Seq<char>>) -> Seq<Seq<char>> {
    parts.map_values(|p: Seq<char>| shown_param(p))
}

/// An address as a log shows it.
pub open spec fn shown_url(url: Seq<char>) -> Seq<char> {
    match text::halves(url, '?') {
        Some((base, query)) => base + seq!['?'] + text::join(
            shown_params(text::split_on(query, '&')),
            seq!['&'],
        ),
        None => url,
    }
}

fn param_text(part: &[char]) -> (r: Vec<char>)
    ensures
        r@ == shown_param(part@),
{
    match text::split_once(part, '=') {
        Some((key, _)) => {
            if should_redact_query_param(key.as_slice()) {
                let mut out = key;
                let mark = text::chars_of("=[REDACTED]");
                text::extend_chars(&mut out, mark.as_slice());
                out
            } else {
                text::slice_of(part, 0, part.len())
            }
        },
        None => text::slice_of(part, 0, part.len()),
    }
}

/// An address as a log shows it: without the values of parameters that hold
/// credentials.
pub fn redact_url(url: &str) -> (r: String)
    ensures
        r@ == shown_url(url@),
{
    let cs = text::chars_of(url);
    match text::split_once(cs.as_slice(), '?') {
        Some((base, query)) => {
            let parts = text::split_chars(query.as_slice(), '&');
            let ghost all = text::texts(parts@);
            let ghost goal = shown_params(all);
            let mut shown: Vec<Vec<char>> = Vec::new();
            let mut i: usize = 0;
            assert(text::texts(shown@) =~= goal.take(0));
            while i < parts.len()
                invariant
                    i <= parts@.len(),
                    all == text::texts(parts@),
                    goal == shown_params(all),
                    text::texts(shown@) == goal.take(i as int),
                decreases parts@.len() - i,
            {
                let ghost before = shown@;
                assert(all[i as int] == parts@[i as int]@);
                let part = param_text(parts[i].as_slice());
                shown.push(part);
                assert(text::texts(shown@) =~= text::texts(before).push(part@));
                assert(goal.take(i + 1) =~= goal.take(i as int).push(goal[i as int]));
                i += 1;
            }
            assert(goal.take(i as int) =~= goal);
            let sep: [char; 1] = ['&'];
            assert(sep@ =~= seq!['&']);
            let joined = text::join_chars(&shown, sep.as_slice());
            let mut out = text::string_of(base.as_slice());
            out.push('?');
            out.append(text::string_of(joined.as_slice()).as_str());
            assert(out@ =~= base@ + seq!['?'] + joined@);
            out
        },
        None => url.to_string(),
    }
}

proof fn upto_of_joint(a: Seq<char>, b: Seq<char>, c: char)
    requires
        forall|i: int| 0 <= i < a.len() ==> a[i] != c,
    ensures
        text::upto(a + seq![c] + b, c) == a.len(),
    decreases a.len(),
{
    let s = a + seq![c] + b;
    if a.len() > 0 {
        assert(s[0] == a[0]);
        assert(s.skip(1) =~= a.skip(1) + seq![c] + b);
        assert forall|i: int| 0 <= i < a.skip(1).len() implies a.skip(1)[i] != c by {
            assert(a.skip(1)[i] == a[i + 1]);
        }
        upto_of_joint(a.skip(1), b, c);
    } else {
        assert(s[0] == c);
    }
}

proof fn upto_of_none(a: Seq<char>, c: char)
    requires
        forall|i: int| 0 <= i < a.len() ==> a[i] != c,
    ensures
        text::upto(a, c) == a.len(),
    decreases a.len(),
{
    if a.len() > 0 {
        assert forall|i: int| 0 <= i < a.skip(1).len() implies a.skip(1)[i] != c by {
            assert(a.skip(1)[i] == a[i + 1]);
        }
        upto_of_none(a.skip(1), c);
    }
}

/// A parameter whose name holds a credential shows its name alone.
proof fn secret_param_is_hidden(key: Seq<char>, value: Seq<char>)
    requires
        is_secret_param(key),
        forall|i: int| 0 <= i < key.len() ==> key[i] != '=',
    ensures
        shown_param(key + seq!['='] + value) == key + "=[REDACTED]"@,
{
    upto_of_joint(key, value, '=');
    let part = key + seq!['='] + value;
    assert(part.take(key.len() as int) =~= key);
}

/// What the log shows of an address does not depend on the value of a parameter that
/// holds a credential, wherever in the address it stands.
pub proof fn secrets_do_not_show(
    base: Seq<char>,
    before: Seq<Seq<char>>,
    key: Seq<char>,
    one: Seq<char>,
    other: Seq<char>,
    after: Seq<Seq<char>>,
)
    requires
        is_secret_param(key),
        forall|i: int| 0 <= i < base.len() ==> base[i] != '?',
        forall|i: int| 0 <= i < key.len() ==> key[i] != '=' && key[i] != '&',
        forall|i: int| 0 <= i < one.len() ==> one[i] != '&',
        forall|i: int| 0 <= i < other.len() ==> other[i] != '&',
        forall|k: int, i: int|
            0 <= k < before.len() && 0 <= i < before[k].len() ==> #[trigger] before[k][i] != '&',
        forall|k: int, i: int|
            0 <= k < after.len() && 0 <= i < after[k].len() ==> #[trigger] after[k][i] != '&',
    ensures
        shown_url(
            base + seq!['?'] + text::join(
                before + seq![key + seq!['='] + one] + after,
                seq!['&'],
            ),
        ) == shown_url(
            base + seq!['?'] + text::join(
                before + seq![key + seq!['='] + other] + after,
                seq!['&'],
            ),
        ),
{
    let a = before + seq![key + seq!['='] + one] + after;
    let b = before + seq![key + seq!['='] + other] + after;
    shown_url_of_parts(base, a);
    shown_url_of_parts(base, b);
    secret_param_is_hidden(key, one);
    secret_param_is_hidden(key, other);
    assert(shown_params(a) =~= shown_params(b)) by {
        assert forall|k: int| 0 <= k < a.len() implies shown_params(a)[k] == shown_params(b)[k] by {
            if k < before.len() {
                assert(a[k] == before[k] && b[k] == before[k]);
            } else if k > before.len() {
                assert(a[k] == after[k - before.len() - 1] && b[k] == after[k - before.len() - 1]);
            }
        }
    }
}

proof fn shown_url_of_parts(base: Seq<char>, parts: Seq<Seq<char>>)
    requires
        parts.len() > 0,
        forall|i: int| 0 <= i < base.len() ==> base[i] != '?',
        forall|k: int, i: int|
            0 <= k < parts.len() && 0 <= i < parts[k].len() ==> #[trigger] parts[k][i] != '&',
    ensures
        shown_url(base + seq!['?'] + text::join(parts, seq!['&'])) == base + seq!['?']
            + text::join(shown_params(parts), seq!['&']),
{
    let query = text::join(parts, seq!['&']);
    let url = base + seq!['?'] + query;
    upto_of_joint(base, query, '?');
    assert(url.take(base.len() as int) =~= base);
    assert(url.skip(base.len() as int + 1) =~= query);
    split_of_join(parts, '&');
}

proof fn split_of_joint(a: Seq<char>, b: Seq<char>, c: char)
    ensures
        text::split_on(a + seq![c] + b, c) == text::split_on(a, c) + text::split_on(b, c),
    decreases a.len(),
{
    let s = a + seq![c] + b;
    text::upto_shape(a, c);
    let n = text::upto(a, c);
    if n < a.len() {
        let head = a.take(n);
        let rest = a.skip(n + 1);
        assert(s =~= head + seq![c] + (rest + seq![c] + b));
        upto_of_joint(head, rest + seq![c] + b, c);
        assert(s.take(n) =~= head);
        assert(s.skip(n + 1) =~= rest + seq![c] + b);
        split_of_joint(rest, b, c);
        assert(text::split_on(s, c) == seq![head] + text::split_on(rest + seq![c] + b, c));
        assert(text::split_on(a, c) == seq![head] + text::split_on(rest, c));
        assert(seq![head] + (text::split_on(rest, c) + text::split_on(b, c)) =~= (seq![head]
            + text::split_on(rest, c)) + text::split_on(b, c));
    } else {
        upto_of_joint(a, b, c);
        assert(s.take(a.len() as int) =~= a);
        assert(s.skip(a.len() as int + 1) =~= b);
        assert(text::split_on(a, c) == seq![a]);
    }
}

/// Pieces without separators come back when what joins them is cut.
pub proof fn split_of_join(parts: Seq<Seq<char>>, c: char)
    requires
        parts.len() > 0,
        forall|k: int, i: int|
            0 <= k < parts.len() && 0 <= i < parts[k].len() ==> #[trigger] parts[k][i] != c,
    ensures
        text::split_on(text::join(parts, seq![c]), c) == parts,
    decreases parts.len(),
{
    let last = parts.last();
    assert forall|i: int| 0 <= i < last.len() implies last[i] != c by {
        assert(parts[parts.len() - 1][i] != c);
    }
    upto_of_none(last, c);
    assert(text::split_on(last, c) == seq![last]);
    if parts.len() == 1 {
        assert(parts =~= seq![last]);
    } else {
        let front = parts.drop_last();
        assert forall|k: int, i: int| 0 <= k < front.len() && 0 <= i < front[k].len() implies
            #[trigger] front[k][i] != c by {
            assert(parts[k][i] != c);
        }
        split_of_join(front, c);
        split_of_joint(text::join(front, seq![c]), last, c);
        assert(front + seq![last] =~= parts);
    }
}

// ---------------------------------------------------------------------------
// Headers.

/// The value of a header: a text, or bytes that are none.
#[derive(Debug)]
pub enum HeaderText {
    Text(String),
    Binary(usize),
}

/// A header of a request or a response.
#[derive(Debug)]
pub struct LoggedHeader {
    pub name: String,
    pub value: HeaderText,
}

/// Whether the value of a header is kept out of logs.
pub open spec fn is_secret_header(name: Seq<char>) -> bool {
    let n = text::lower(name);
    n == "authorization"@ || n == "proxy-authorization"@ || n == "cookie"@ || n == "set-cookie"@
        || text::contains(n, "api-key"@) || text::contains(n, "token"@)
}

/// Whether the value of a header is kept out of logs.
pub fn should_redact_header(name: &str) -> (r: bool)
    ensures
        r == is_secret_header(name@),
{
    let lowered = text::lowered(name);
    let n = text::string_of(lowered.as_slice());
    let n = n.as_str();
    text::same_text(n, "authorization") || text::same_text(n, "proxy-authorization")
        || text::same_text(n, "cookie") || text::same_text(n, "set-cookie") || text::str_has(
        n,
        "api-key",
    ) || text::str_has(n, "token")
}

/// The value of a header as a log shows it.
pub open spec fn shown_header(h: LoggedHeader) -> Seq<char> {
    if is_secret_header(h.name@) {
        "[REDACTED]"@
    } else {
        match h.value {
            HeaderText::Text(t) => t@,
            HeaderText::Binary(n) => "<non-utf8: "@ + text::decimal(n as nat) + " bytes>"@,
        }
    }
}

/// The first `n` headers as a log shows them; of those with one name the last.
pub open spec fn shown_headers(headers: Seq<LoggedHeader>, n: int) -> JsonModel
    decreases n,
{
    if n <= 0 {
        JsonModel::Object(Seq::empty())
    } else {
        shown_headers(headers, n - 1).with(
            headers[n - 1].name@,
            JsonModel::Text(shown_header(headers[n - 1])),
        )
    }
}

fn header_text(h: &LoggedHeader) -> (r: String)
    ensures
        r@ == shown_header(*h),
{
    if should_redact_header(h.name.as_str()) {
        return "[REDACTED]".to_string();
    }
    match &h.value {
        HeaderText::Text(t) => t.clone(),
        HeaderText::Binary(n) => {
            let mut out = "<non-utf8: ".to_string();
            out.append(text::decimal_string(*n as u128).as_str());
            out.append(" bytes>");
            out
        },
    }
}

/// The headers as a log shows them.
pub fn headers_to_json(headers: &Vec<LoggedHeader>) -> (r: Json)
    ensures
        r@ == shown_headers(headers@, headers@.len() as int),
{
    let mut out = Json::object();
    let mut i: usize = 0;
    while i < headers.len()
        invariant
            i <= headers@.len(),
            out@ == shown_headers(headers@, i as int),
        decreases headers@.len() - i,
    {
        let shown = header_text(&headers[i]);
        out = out.with(headers[i].name.as_str(), Json::Text(shown));
        i += 1;
    }
    out
}

/// A header that holds a credential never shows more than that it is there.
pub proof fn secret_headers_do_not_show(headers: Seq<LoggedHeader>, n: int, i: int)
    requires
        0 <= i < n <= headers.len(),
        is_secret_header(headers[i].name@),
    ensures
        shown_headers(headers, n) is Object,
        shown_headers(headers, n).at(headers[i].name@) == Some(JsonModel::Text("[REDACTED]"@)),
    decreases n,
{
    let before = shown_headers(headers, n - 1);
    let name = headers[n - 1].name@;
    headers_make_an_object(headers, n - 1);
    json::with_sets_one_member(
        before,
        name,
        JsonModel::Text(shown_header(headers[n - 1])),
        headers[i].name@,
    );
    if i < n - 1 {
        secret_headers_do_not_show(headers, n - 1, i);
    }
}

proof fn headers_make_an_object(headers: Seq<LoggedHeader>, n: int)
    ensures
        shown_headers(headers, n) is Object,
    decreases n,
{
    if n > 0 {
        headers_make_an_object(headers, n - 1);
    }
}

// ---------------------------------------------------------------------------
// Laws.

/// The names that give away a secret, as small letters.
pub open spec fn is_told_secret(n: Seq<char>) -> bool {
    ||| text::contains(n, seq!['k', 'e', 'y'])
    ||| text::contains(n, seq!['t', 'o', 'k', 'e', 'n'])
    ||| text::contains(n, seq!['s', 'e', 'c', 'r', 'e', 't'])
    ||| text::contains(n, seq!['s', 'i', 'g', 'n', 'a', 't', 'u', 'r', 'e'])
    ||| n == seq!['s', 'i', 'g']
}

/// A parameter is withheld by its name, in small letters or capital ones; every other stays
/// as it is, and so does all before the query and an address without one.
pub proof fn only_secrets_are_withheld(
    base: Seq<char>,
    parts: Seq<Seq<char>>,
    key: Seq<char>,
    value: Seq<char>,
)
    requires
        parts.len() > 0,
        forall|i: int| 0 <= i < base.len() ==> base[i] != '?',
        forall|i: int| 0 <= i < key.len() ==> key[i] != '=',
        forall|k: int, i: int|
            0 <= k < parts.len() && 0 <= i < parts[k].len() ==> #[trigger] parts[k][i] != '&',
    ensures
        shown_url(base) == base,
        shown_url(base + seq!['?'] + text::join(parts, seq!['&'])) == base + seq!['?'] + text::join(
            parts.map_values(|p: Seq<char>| shown_param(p)),
            seq!['&'],
        ),
        shown_param(key) == key,
        shown_param(key + seq!['='] + value) == if is_told_secret(text::lower(key)) {
            key + "=[REDACTED]"@
        } else {
            key + seq!['='] + value
        },
{
    split_of_join(parts, '&');
    halved_at(base, text::join(parts, seq!['&']), '?');
    upto_of_none(base, '?');
    halved_at(key, value, '=');
    upto_of_none(key, '=');
    reveal_strlit("key");
    reveal_strlit("token");
    reveal_strlit("secret");
    reveal_strlit("signature");
    reveal_strlit("sig");
    assert("key"@ =~= seq!['k', 'e', 'y']);
    assert("token"@ =~= seq!['t', 'o', 'k', 'e', 'n']);
    assert("secret"@ =~= seq!['s', 'e', 'c', 'r', 'e', 't']);
    assert("signature"@ =~= seq!['s', 'i', 'g', 'n', 'a', 't', 'u', 'r', 'e']);
    assert("sig"@ =~= seq!['s', 'i', 'g']);
}

proof fn halved_at(a: Seq<char>, b: Seq<char>, c: char)
    requires
        forall|i: int| 0 <= i < a.len() ==> a[i] != c,
    ensures
        text::halves(a + seq![c] + b, c) == Some((a, b)),
{
    let s = a + seq![c] + b;
    text::upto_shape(s, c);
    assert(s[a.len() as int] == c);
    if text::upto(s, c) < a.len() {
        assert(s[text::upto(s, c)] == a[text::upto(s, c)]);
    }
    assert(s.take(a.len() as int) =~= a);
    assert(s.skip(a.len() as int + 1) =~= b);
}

/// A header whose name tells of no secret is shown as it is: a text whole, and of bytes that
/// are none how many they are.
pub proof fn other_headers_are_shown(h: LoggedHeader)
    requires
        ({
            let n = text::lower(h.name@);
            &&& n != "authorization"@ && n != "proxy-authorization"@
            &&& n != "cookie"@ && n != "set-cookie"@
            &&& !text::contains(n, "api-key"@) && !text::contains(n, "token"@)
        }),
    ensures
        h.value matches HeaderText::Text(t) ==> shown_header(h) == t@,
        h.value matches HeaderText::Binary(n) ==> shown_header(h) == "<non-utf8: "@ + text::decimal(
            n as nat,
        ) + " bytes>"@,
{
}

/// Every header is shown under its name, the last of those that share one.
pub proof fn every_header_is_shown(headers: Seq<LoggedHeader>, n: int, i: int)
    requires
        0 <= i < n <= headers.len(),
        forall|k: int| i < k < n ==> (#[trigger] headers[k]).name@ != headers[i].name@,
    ensures
        shown_headers(headers, n) is Object,
        shown_headers(headers, n).at(headers[i].name@) == Some(
            JsonModel::Text(shown_header(headers[i])),
        ),
    decreases n,
{
    headers_are_an_object(headers, n - 1);
    json::only_one_member_is_set(
        shown_headers(headers, n - 1),
        headers[n - 1].name@,
        JsonModel::Text(shown_header(headers[n - 1])),
    );
    if i < n - 1 {
        every_header_is_shown(headers, n - 1, i);
    }
}

proof fn headers_are_an_object(headers: Seq<LoggedHeader>, n: int)
    ensures
        shown_headers(headers, n) is Object,
    decreases n,
{
    if n > 0 {
        headers_are_an_object(headers, n - 1);
    }
}

/// The exchanges that are logged are those with an address of a completion, a response or a
/// call in real time.
pub proof fn only_model_exchanges_are_logged(front: Seq<char>, back: Seq<char>, url: Seq<char>)
    ensures
        is_logged(front + "/responses"@ + back),
        is_logged(front + "/chat/completions"@ + back),
        is_logged(front + "/completions"@ + back),
        is_logged(front + "/realtime/calls"@ + back),
        is_logged(url) ==> text::contains(url, "/responses"@) || text::contains(
            url,
            "/completions"@,
        ) || text::contains(url, "/realtime/calls"@) || text::contains(url, "/chat/completions"@),
{
    stands_between(front, "/responses"@, back);
    stands_between(front, "/chat/completions"@, back);
    stands_between(front, "/completions"@, back);
    stands_between(front, "/realtime/calls"@, back);
}

proof fn stands_between(front: Seq<char>, needle: Seq<char>, back: Seq<char>)
    ensures
        text::contains(front + needle + back, needle),
{
    let all = front + needle + back;
    assert(all.subrange(front.len() as int, front.len() as int + needle.len()) =~= needle);
    assert(text::occurs_at(all, needle, front.len() as int));
}

} // verus!
