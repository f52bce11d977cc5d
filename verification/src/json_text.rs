//! What JSON text keeps: different values have different texts.

use crate::canonical;
use crate::json;
use crate::json::JsonModel;
use vstd::prelude::*;

verus! {

// ---------------------------------------------------------------------------
// Strings.

proof fn escapes_agree(c: char, x: Seq<char>, d: char, y: Seq<char>)
    requires
        json::escaped_char(c) + x == json::escaped_char(d) + y,
    ensures
        c == d,
        x == y,
{
    let (a, b) = (json::escaped_char(c), json::escaped_char(d));
    let (s, t) = (a + x, b + y);
    assert(s[0] == a[0] && t[0] == b[0]);
    if a.len() > 1 {
        assert(s[1] == a[1]);
    }
    if b.len() > 1 {
        assert(t[1] == b[1]);
    }
    if a.len() > 2 && b.len() > 2 {
        assert(s[4] == a[4] && t[4] == b[4]);
        assert(s[5] == a[5] && t[5] == b[5]);
    }
    assert(c == d);
    assert(s.skip(a.len() as int) =~= x);
    assert(t.skip(b.len() as int) =~= y);
}

proof fn escaped_texts_agree(a: Seq<char>, x: Seq<char>, b: Seq<char>, y: Seq<char>)
    requires
        json::escaped_text(a) + seq!['"'] + x == json::escaped_text(b) + seq!['"'] + y,
    ensures
        a == b,
        x == y,
    decreases a.len(),
{
    let s = json::escaped_text(a) + seq!['"'] + x;
    let t = json::escaped_text(b) + seq!['"'] + y;
    if a.len() > 0 && b.len() > 0 {
        let u = json::escaped_text(a.skip(1)) + seq!['"'] + x;
        let v = json::escaped_text(b.skip(1)) + seq!['"'] + y;
        assert(s =~= json::escaped_char(a[0]) + u);
        assert(t =~= json::escaped_char(b[0]) + v);
        escapes_agree(a[0], u, b[0], v);
        escaped_texts_agree(a.skip(1), x, b.skip(1), y);
        assert(a =~= seq![a[0]] + a.skip(1));
        assert(b =~= seq![b[0]] + b.skip(1));
    } else if a.len() > 0 {
        assert(s[0] == json::escaped_char(a[0])[0]);
        assert(t[0] == '"');
    } else if b.len() > 0 {
        assert(t[0] == json::escaped_char(b[0])[0]);
        assert(s[0] == '"');
    } else {
        assert(a =~= b);
        assert(s.skip(1) =~= x);
        assert(t.skip(1) =~= y);
    }
}

/// A quoted string tells where it ends, and different strings are quoted differently.
pub proof fn quoted_texts_agree(a: Seq<char>, x: Seq<char>, b: Seq<char>, y: Seq<char>)
    requires
        json::quoted(a) + x == json::quoted(b) + y,
    ensures
        a == b,
        x == y,
{
    let s = json::quoted(a) + x;
    let t = json::quoted(b) + y;
    assert(s.skip(1) =~= json::escaped_text(a) + seq!['"'] + x);
    assert(t.skip(1) =~= json::escaped_text(b) + seq!['"'] + y);
    escaped_texts_agree(a, x, b, y);
}

// ---------------------------------------------------------------------------
// Values.

/// The characters of JSON numbers.
pub open spec fn is_number_char(c: char) -> bool {
    ('0' <= c <= '9') || c == '-' || c == '+' || c == '.' || c == 'e' || c == 'E'
}

/// Whether a text is made of such characters.
pub open spec fn is_number_text(n: Seq<char>) -> bool {
    n.len() > 0 && forall|i: int| 0 <= i < n.len() ==> is_number_char(#[trigger] n[i])
}

/// Whether all numbers in a value are made of such characters.
pub open spec fn has_plain_numbers(m: JsonModel) -> bool
    decreases m,
{
    match m {
        JsonModel::Number(n) => is_number_text(n),
        JsonModel::Array(items) => forall|i: int|
            0 <= i < items.len() ==> has_plain_numbers(#[trigger] items[i]),
        JsonModel::Object(members) => forall|i: int|
            0 <= i < members.len() ==> has_plain_numbers((#[trigger] members[i]).1),
        _ => true,
    }
}

/// Whether a text is empty or begins with what can stand behind a value.
pub open spec fn is_delimited(r: Seq<char>) -> bool {
    r.len() == 0 || r[0] == ',' || r[0] == ']' || r[0] == '}'
}

spec fn rest_items(items: Seq<JsonModel>, i: int) -> Seq<char>
    decreases items.len() - i,
{
    if i < 0 || i >= items.len() {
        Seq::empty()
    } else {
        (if i > 0 {
            seq![',']
        } else {
            Seq::<char>::empty()
        }) + json::text_of(items[i]) + rest_items(items, i + 1)
    }
}

spec fn rest_members(members: canonical::Members, i: int) -> Seq<char>
    decreases members.len() - i,
{
    if i < 0 || i >= members.len() {
        Seq::empty()
    } else {
        (if i > 0 {
            seq![',']
        } else {
            Seq::<char>::empty()
        }) + json::quoted(members[i].0) + seq![':'] + json::text_of(members[i].1) + rest_members(
            members,
            i + 1,
        )
    }
}

proof fn items_from_front(items: Seq<JsonModel>, n: nat)
    requires
        n <= items.len(),
    ensures
        json::items_text(items, n) + rest_items(items, n as int) == rest_items(items, 0),
    decreases n,
{
    if n > 0 {
        items_from_front(items, (n - 1) as nat);
        let before = json::items_text(items, (n - 1) as nat);
        let here = json::text_of(items[n - 1]);
        let rest = rest_items(items, n as int);
        if n == 1 {
            assert(before =~= Seq::empty());
            assert(rest_items(items, 0) =~= here + rest);
        } else {
            assert(before + seq![','] + here + rest =~= before + (seq![','] + here + rest));
        }
    } else {
        assert(json::items_text(items, 0) + rest_items(items, 0) =~= rest_items(items, 0));
    }
}

proof fn members_from_front(members: canonical::Members, n: nat)
    requires
        n <= members.len(),
    ensures
        json::members_text(members, n) + rest_members(members, n as int) == rest_members(members, 0),
    decreases n,
{
    if n > 0 {
        members_from_front(members, (n - 1) as nat);
        let before = json::members_text(members, (n - 1) as nat);
        let key = json::quoted(members[n - 1].0);
        let here = json::text_of(members[n - 1].1);
        let rest = rest_members(members, n as int);
        if n == 1 {
            assert(before =~= Seq::empty());
            assert(rest_members(members, 0) =~= key + seq![':'] + here + rest);
        } else {
            assert(before + seq![','] + key + seq![':'] + here + rest =~= before + (seq![','] + key
                + seq![':'] + here + rest));
        }
    } else {
        assert(json::members_text(members, 0) + rest_members(members, 0) =~= rest_members(
            members,
            0,
        ));
    }
}

/// What a value begins with.
proof fn first_of_text(m: JsonModel)
    requires
        has_plain_numbers(m),
    ensures
        json::text_of(m).len() > 0,
        ({
            let c = json::text_of(m)[0];
            match m {
                JsonModel::Null => c == 'n',
                JsonModel::Bool(b) => c == if b {
                    't'
                } else {
                    'f'
                },
                JsonModel::Number(_) => is_number_char(c),
                JsonModel::Text(_) => c == '"',
                JsonModel::Array(_) => c == '[',
                JsonModel::Object(_) => c == '{',
            }
        }),
{
    reveal_strlit("null");
    reveal_strlit("true");
    reveal_strlit("false");
}

/// Numbers that agree up to what stands behind them are the same.
proof fn numbers_agree(a: Seq<char>, x: Seq<char>, b: Seq<char>, y: Seq<char>)
    requires
        forall|i: int| 0 <= i < a.len() ==> is_number_char(#[trigger] a[i]),
        forall|i: int| 0 <= i < b.len() ==> is_number_char(#[trigger] b[i]),
        is_delimited(x),
        is_delimited(y),
        a + x == b + y,
    ensures
        a == b,
        x == y,
{
    let (s, t) = (a + x, b + y);
    if a.len() < b.len() {
        assert(s[a.len() as int] == x[0]);
        assert(t[a.len() as int] == b[a.len() as int]);
    } else if b.len() < a.len() {
        assert(t[b.len() as int] == y[0]);
        assert(s[b.len() as int] == a[b.len() as int]);
    }
    assert(s.take(a.len() as int) =~= a);
    assert(t.take(b.len() as int) =~= b);
    assert(s.skip(a.len() as int) =~= x);
    assert(t.skip(b.len() as int) =~= y);
}

proof fn tails_agree(a: Seq<char>, x: Seq<char>, y: Seq<char>)
    requires
        a + x == a + y,
    ensures
        x == y,
{
    assert((a + x).skip(a.len() as int) =~= x);
    assert((a + y).skip(a.len() as int) =~= y);
}

proof fn regrouped(
    a: Seq<char>,
    b: Seq<char>,
    c: Seq<char>,
    d: Seq<char>,
    e: Seq<char>,
    f: Seq<char>,
    g: Seq<char>,
)
    ensures
        a + b + c + d + e + f + g == a + (b + (c + (d + (e + f + g)))),
{
    assert(a + b + c + d + e + f + g =~= a + (b + (c + (d + (e + f + g)))));
}

/// A value tells where its text ends, and different values have different texts.
pub proof fn texts_agree(a: JsonModel, x: Seq<char>, b: JsonModel, y: Seq<char>)
    requires
        has_plain_numbers(a),
        has_plain_numbers(b),
        is_delimited(x),
        is_delimited(y),
        json::text_of(a) + x == json::text_of(b) + y,
    ensures
        a == b,
        x == y,
    decreases a, 0nat,
{
    first_of_text(a);
    first_of_text(b);
    let (s, t) = (json::text_of(a) + x, json::text_of(b) + y);
    assert(s[0] == json::text_of(a)[0]);
    assert(t[0] == json::text_of(b)[0]);
    match (a, b) {
        (JsonModel::Number(m), JsonModel::Number(n)) => {
            numbers_agree(m, x, n, y);
        },
        (JsonModel::Text(m), JsonModel::Text(n)) => {
            quoted_texts_agree(m, x, n, y);
        },
        (JsonModel::Array(m), JsonModel::Array(n)) => {
            items_from_front(m, m.len());
            items_from_front(n, n.len());
            let (p, q) = (json::items_text(m, m.len()), json::items_text(n, n.len()));
            assert(p + rest_items(m, m.len() as int) =~= p);
            assert(q + rest_items(n, n.len() as int) =~= q);
            assert(s.skip(1) =~= p + seq![']'] + x);
            assert(t.skip(1) =~= q + seq![']'] + y);
            items_agree(m, x, n, y, 0);
            assert(m.skip(0) =~= m);
            assert(n.skip(0) =~= n);
        },
        (JsonModel::Object(m), JsonModel::Object(n)) => {
            members_from_front(m, m.len());
            members_from_front(n, n.len());
            let (p, q) = (json::members_text(m, m.len()), json::members_text(n, n.len()));
            assert(p + rest_members(m, m.len() as int) =~= p);
            assert(q + rest_members(n, n.len() as int) =~= q);
            assert(s.skip(1) =~= p + seq!['}'] + x);
            assert(t.skip(1) =~= q + seq!['}'] + y);
            members_agree(m, x, n, y, 0);
            assert(m.skip(0) =~= m);
            assert(n.skip(0) =~= n);
        },
        _ => {
            assert(a == b);
            tails_agree(json::text_of(a), x, y);
        },
    }
}

proof fn items_agree(m: Seq<JsonModel>, x: Seq<char>, n: Seq<JsonModel>, y: Seq<char>, i: int)
    requires
        0 <= i <= m.len(),
        i <= n.len(),
        forall|k: int| 0 <= k < m.len() ==> has_plain_numbers(#[trigger] m[k]),
        forall|k: int| 0 <= k < n.len() ==> has_plain_numbers(#[trigger] n[k]),
        rest_items(m, i) + seq![']'] + x == rest_items(n, i) + seq![']'] + y,
    ensures
        m.skip(i) == n.skip(i),
        x == y,
    decreases m, (m.len() - i) as nat,
{
    let s = rest_items(m, i) + seq![']'] + x;
    let t = rest_items(n, i) + seq![']'] + y;
    if i < m.len() {
        first_of_text(m[i]);
    }
    if i < n.len() {
        first_of_text(n[i]);
    }
    if i < m.len() && i < n.len() {
        let comma = if i > 0 {
            seq![',']
        } else {
            Seq::<char>::empty()
        };
        let u = rest_items(m, i + 1) + seq![']'] + x;
        let v = rest_items(n, i + 1) + seq![']'] + y;
        assert(s =~= comma + (json::text_of(m[i]) + u));
        assert(t =~= comma + (json::text_of(n[i]) + v));
        tails_agree(comma, json::text_of(m[i]) + u, json::text_of(n[i]) + v);
        if i + 1 < m.len() {
            assert(u[0] == ',');
        } else {
            assert(u[0] == ']');
        }
        if i + 1 < n.len() {
            assert(v[0] == ',');
        } else {
            assert(v[0] == ']');
        }
        texts_agree(m[i], u, n[i], v);
        items_agree(m, x, n, y, i + 1);
        assert(m.skip(i) =~= seq![m[i]] + m.skip(i + 1));
        assert(n.skip(i) =~= seq![n[i]] + n.skip(i + 1));
    } else if i < m.len() {
        assert(t[0] == ']');
        assert(s[0] == if i > 0 {
            ','
        } else {
            json::text_of(m[i])[0]
        });
    } else if i < n.len() {
        assert(s[0] == ']');
        assert(t[0] == if i > 0 {
            ','
        } else {
            json::text_of(n[i])[0]
        });
    } else {
        assert(s.skip(1) =~= x);
        assert(t.skip(1) =~= y);
        assert(m.skip(i) =~= n.skip(i));
    }
}

proof fn members_agree(
    m: canonical::Members,
    x: Seq<char>,
    n: canonical::Members,
    y: Seq<char>,
    i: int,
)
    requires
        0 <= i <= m.len(),
        i <= n.len(),
        forall|k: int| 0 <= k < m.len() ==> has_plain_numbers((#[trigger] m[k]).1),
        forall|k: int| 0 <= k < n.len() ==> has_plain_numbers((#[trigger] n[k]).1),
        rest_members(m, i) + seq!['}'] + x == rest_members(n, i) + seq!['}'] + y,
    ensures
        m.skip(i) == n.skip(i),
        x == y,
    decreases m, (m.len() - i) as nat,
{
    let s = rest_members(m, i) + seq!['}'] + x;
    let t = rest_members(n, i) + seq!['}'] + y;
    if i < m.len() && i < n.len() {
        let comma = if i > 0 {
            seq![',']
        } else {
            Seq::<char>::empty()
        };
        let u = rest_members(m, i + 1) + seq!['}'] + x;
        let v = rest_members(n, i + 1) + seq!['}'] + y;
        let p = json::text_of(m[i].1) + u;
        let q = json::text_of(n[i].1) + v;
        regrouped(
            comma,
            json::quoted(m[i].0),
            seq![':'],
            json::text_of(m[i].1),
            rest_members(m, i + 1),
            seq!['}'],
            x,
        );
        regrouped(
            comma,
            json::quoted(n[i].0),
            seq![':'],
            json::text_of(n[i].1),
            rest_members(n, i + 1),
            seq!['}'],
            y,
        );
        assert(s == comma + (json::quoted(m[i].0) + (seq![':'] + p)));
        assert(t == comma + (json::quoted(n[i].0) + (seq![':'] + q)));
        tails_agree(comma, json::quoted(m[i].0) + (seq![':'] + p), json::quoted(n[i].0) + (seq![':'] + q));
        quoted_texts_agree(m[i].0, seq![':'] + p, n[i].0, seq![':'] + q);
        tails_agree(seq![':'], p, q);
        if i + 1 < m.len() {
            assert(u[0] == ',');
        } else {
            assert(u[0] == '}');
        }
        if i + 1 < n.len() {
            assert(v[0] == ',');
        } else {
            assert(v[0] == '}');
        }
        texts_agree(m[i].1, u, n[i].1, v);
        members_agree(m, x, n, y, i + 1);
        assert(m[i] == n[i]);
        assert(m.skip(i) =~= seq![m[i]] + m.skip(i + 1));
        assert(n.skip(i) =~= seq![n[i]] + n.skip(i + 1));
    } else if i < m.len() {
        assert(t[0] == '}');
        assert(s[0] == if i > 0 {
            ','
        } else {
            json::quoted(m[i].0)[0]
        });
    } else if i < n.len() {
        assert(s[0] == '}');
        assert(t[0] == if i > 0 {
            ','
        } else {
            json::quoted(n[i].0)[0]
        });
    } else {
        assert(s.skip(1) =~= x);
        assert(t.skip(1) =~= y);
        assert(m.skip(i) =~= n.skip(i));
    }
}

/// Different values have different texts.
pub proof fn different_values_have_different_texts(a: JsonModel, b: JsonModel)
    requires
        has_plain_numbers(a),
        has_plain_numbers(b),
        a != b,
    ensures
        json::text_of(a) != json::text_of(b),
{
    if json::text_of(a) == json::text_of(b) {
        let none = Seq::<char>::empty();
        assert(json::text_of(a) + none =~= json::text_of(b) + none);
        texts_agree(a, none, b, none);
    }
}

/// Putting members in order changes no number.
pub proof fn canonical_keeps_numbers(m: JsonModel)
    requires
        has_plain_numbers(m),
        canonical::all_distinct(m),
    ensures
        has_plain_numbers(canonical::canonical(m)),
    decreases m,
{
    match m {
        JsonModel::Array(items) => {
            canonical::items_are_canonical(items, items.len());
            let all = canonical::canonical_items(items, items.len());
            assert forall|k: int| 0 <= k < all.len() implies has_plain_numbers(#[trigger] all[k]) by {
                canonical_keeps_numbers(items[k]);
            }
        },
        JsonModel::Object(members) => {
            let all = canonical::ordered(members, members.len());
            assert forall|k: int| 0 <= k < all.len() implies has_plain_numbers(
                (#[trigger] all[k]).1,
            ) by {
                canonical::canonical_members_come_from(members, k);
                let i = choose|i: int|
                    0 <= i < members.len() && canonical::canonical((#[trigger] members[i]).1)
                        == all[k].1;
                canonical_keeps_numbers(members[i].1);
            }
        },
        _ => {},
    }
}

} // verus!
