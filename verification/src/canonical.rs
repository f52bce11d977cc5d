//! JSON with the members of its objects in the order of their keys, so that two
//! values that differ only in the order of members are the same text.

use crate::json;
use crate::json::Json;
use crate::json::JsonModel;
use crate::text;
use vstd::prelude::*;
use vstd::string::*;

verus! {

// ---------------------------------------------------------------------------
// The order of texts.

/// Whether `a` comes before `b`: by the first character in which they differ, the
/// shorter one first where there is none.
pub open spec fn comes_before(a: Seq<char>, b: Seq<char>) -> bool
    decreases a.len(),
{
    if b.len() == 0 {
        false
    } else if a.len() == 0 {
        true
    } else if a[0] != b[0] {
        a[0] < b[0]
    } else {
        comes_before(a.skip(1), b.skip(1))
    }
}

/// No text comes before itself, and of two texts that differ one comes before the
/// other.
pub proof fn order_is_total(a: Seq<char>, b: Seq<char>)
    ensures
        !comes_before(a, a),
        a != b ==> comes_before(a, b) != comes_before(b, a),
    decreases a.len(),
{
    if a.len() > 0 {
        order_is_total(a.skip(1), if b.len() > 0 {
            b.skip(1)
        } else {
            b
        });
        if b.len() > 0 && a[0] == b[0] && a != b {
            if a.skip(1) == b.skip(1) {
                assert(a =~= seq![a[0]] + a.skip(1));
                assert(b =~= seq![b[0]] + b.skip(1));
            }
        }
    } else if b.len() == 0 {
        assert(a =~= b);
    }
}

/// The order is transitive.
pub proof fn order_is_transitive(a: Seq<char>, b: Seq<char>, c: Seq<char>)
    requires
        comes_before(a, b),
        comes_before(b, c),
    ensures
        comes_before(a, c),
    decreases a.len(),
{
    if a.len() > 0 && a[0] == b[0] && b[0] == c[0] {
        order_is_transitive(a.skip(1), b.skip(1), c.skip(1));
    }
}

/// Whether `a` comes before `b`.
pub fn is_before(a: &str, b: &str) -> (r: bool)
    ensures
        r == comes_before(a@, b@),
{
    let x = text::chars_of(a);
    let y = text::chars_of(b);
    let mut i: usize = 0;
    assert(x@.skip(0) =~= x@);
    assert(y@.skip(0) =~= y@);
    while i < x.len() && i < y.len()
        invariant
            i <= x@.len(),
            i <= y@.len(),
            x@ == a@,
            y@ == b@,
            comes_before(a@, b@) == comes_before(x@.skip(i as int), y@.skip(i as int)),
        decreases x@.len() - i,
    {
        let ghost (s, t) = (x@.skip(i as int), y@.skip(i as int));
        assert(s[0] == x@[i as int]);
        assert(t[0] == y@[i as int]);
        assert(s.skip(1) =~= x@.skip(i + 1));
        assert(t.skip(1) =~= y@.skip(i + 1));
        if x[i] != y[i] {
            return x[i] < y[i];
        }
        i += 1;
    }
    i < y.len()
}

// ---------------------------------------------------------------------------
// Sorting members.

pub type Members = Seq<(Seq<char>, JsonModel)>;

/// How many members, from `from` on, have a key that comes before `key`, up to the
/// first that has not.
pub open spec fn rank(members: Members, key: Seq<char>, from: int) -> int
    decreases members.len() - from,
{
    if 0 <= from < members.len() && comes_before(members[from].0, key) {
        rank(members, key, from + 1)
    } else {
        from
    }
}

/// `members`, which are in order, with `m` in its place.
pub open spec fn inserted(members: Members, m: (Seq<char>, JsonModel)) -> Members {
    let i = rank(members, m.0, 0);
    if i < members.len() && members[i].0 == m.0 {
        members.update(i, m)
    } else {
        members.insert(i, m)
    }
}

/// A value with the members of all its objects in order.
pub open spec fn canonical(m: JsonModel) -> JsonModel
    decreases m, 0nat,
{
    match m {
        JsonModel::Array(items) => JsonModel::Array(canonical_items(items, items.len())),
        JsonModel::Object(members) => JsonModel::Object(ordered(members, members.len())),
        other => other,
    }
}

pub open spec fn canonical_items(items: Seq<JsonModel>, n: nat) -> Seq<JsonModel>
    decreases items, n,
{
    if n == 0 || n > items.len() {
        Seq::empty()
    } else {
        canonical_items(items, (n - 1) as nat).push(canonical(items[n - 1]))
    }
}

/// The first `n` members in order.
pub open spec fn ordered(members: Members, n: nat) -> Members
    decreases members, n,
{
    if n == 0 || n > members.len() {
        Seq::empty()
    } else {
        inserted(
            ordered(members, (n - 1) as nat),
            (members[n - 1].0, canonical(members[n - 1].1)),
        )
    }
}

fn insert_member(members: &mut Vec<(String, Json)>, key: &String, value: Json)
    ensures
        json::member_models(final(members)@) == inserted(
            json::member_models(old(members)@),
            (key@, value@),
        ),
{
    let ghost before = json::member_models(members@);
    let ghost v = value@;
    let mut i: usize = 0;
    while i < members.len() && is_before(members[i].0.as_str(), key.as_str())
        invariant
            i <= members@.len(),
            before == json::member_models(members@),
            rank(before, key@, 0) == rank(before, key@, i as int),
        decreases members@.len() - i,
    {
        i += 1;
    }
    assert(rank(before, key@, 0) == i);
    if i < members.len() && text::same_text(members[i].0.as_str(), key.as_str()) {
        members.set(i, (key.clone(), value));
        assert(json::member_models(members@) =~= before.update(i as int, (key@, v)));
    } else {
        members.insert(i, (key.clone(), value));
        assert(json::member_models(members@) =~= before.insert(i as int, (key@, v)));
    }
}

/// A value with the members of all its objects in order.
pub fn sort_members(value: &Json) -> (r: Json)
    ensures
        r@ == canonical(value@),
    decreases value,
{
    match value {
        Json::Array(items) => {
            let ghost all = json::models(items@);
            let mut out: Vec<Json> = Vec::new();
            let mut i: usize = 0;
            assert(json::models(out@) =~= Seq::empty());
            while i < items.len()
                invariant
                    i <= items@.len(),
                    value == Json::Array(*items),
                    all == json::models(items@),
                    json::models(out@) == canonical_items(all, i as nat),
                decreases items@.len() - i,
            {
                assert(decreases_to!(*value => (*value)->Array_0@[i as int]));
                let item = sort_members(&items[i]);
                assert(all[i as int] == items@[i as int]@);
                let ghost before = out@;
                out.push(item);
                assert(json::models(out@) =~= json::models(before).push(item@));
                i += 1;
            }
            proof {
                json::array_model(*items);
                json::array_model(out);
            }
            Json::Array(out)
        },
        Json::Object(members) => {
            let ghost all = json::member_models(members@);
            let mut out: Vec<(String, Json)> = Vec::new();
            let mut i: usize = 0;
            assert(json::member_models(out@) =~= Seq::empty());
            while i < members.len()
                invariant
                    i <= members@.len(),
                    value == Json::Object(*members),
                    all == json::member_models(members@),
                    json::member_models(out@) == ordered(all, i as nat),
                decreases members@.len() - i,
            {
                assert(decreases_to!(*value => (*value)->Object_0@[i as int].1));
                let item = sort_members(&members[i].1);
                assert(all[i as int] == (members@[i as int].0@, members@[i as int].1@));
                insert_member(&mut out, &members[i].0, item);
                i += 1;
            }
            proof {
                json::object_model(*members);
                json::object_model(out);
            }
            Json::Object(out)
        },
        other => other.clone(),
    }
}

// ---------------------------------------------------------------------------
// What the order of members does not change.

/// Whether the keys are in order, each one once.
pub open spec fn in_order(members: Members) -> bool {
    forall|i: int, j: int|
        0 <= i < j < members.len() ==> comes_before(
            (#[trigger] members[i]).0,
            (#[trigger] members[j]).0,
        )
}

/// Whether no key occurs twice.
pub open spec fn distinct_keys(members: Members) -> bool {
    forall|i: int, j: int|
        0 <= i < j < members.len() ==> (#[trigger] members[i]).0 != (#[trigger] members[j]).0
}

proof fn rank_splits(members: Members, key: Seq<char>, from: int)
    requires
        0 <= from <= members.len(),
    ensures
        from <= rank(members, key, from) <= members.len(),
        forall|k: int|
            from <= k < rank(members, key, from) ==> comes_before((#[trigger] members[k]).0, key),
        rank(members, key, from) < members.len() ==> !comes_before(
            members[rank(members, key, from)].0,
            key,
        ),
    decreases members.len() - from,
{
    if from < members.len() && comes_before(members[from].0, key) {
        rank_splits(members, key, from + 1);
    }
}

/// What an insertion does: the members stay in order, and those with another key
/// stay.
proof fn inserted_in_order(members: Members, m: (Seq<char>, JsonModel))
    requires
        in_order(members),
    ensures
        in_order(inserted(members, m)),
        inserted(members, m).contains(m),
        forall|e: (Seq<char>, JsonModel)| #[trigger]
            inserted(members, m).contains(e) ==> e == m || members.contains(e),
        forall|e: (Seq<char>, JsonModel)| #[trigger]
            members.contains(e) && e.0 != m.0 ==> inserted(members, m).contains(e),
{
    let key = m.0;
    let i = rank(members, key, 0);
    rank_splits(members, key, 0);
    let out = inserted(members, m);
    let there = i < members.len() && members[i].0 == key;
    assert forall|k: int| i < k < members.len() implies comes_before(key, (#[trigger] members[k]).0) by {
        if there {
            assert(comes_before(members[i].0, members[k].0));
        } else {
            order_is_total(members[i].0, key);
            assert(comes_before(members[i].0, members[k].0));
            order_is_transitive(key, members[i].0, members[k].0);
        }
    }
    if !there && i < members.len() {
        order_is_total(members[i].0, key);
    }
    assert forall|a: int, b: int| 0 <= a < b < out.len() implies comes_before(
        (#[trigger] out[a]).0,
        (#[trigger] out[b]).0,
    ) by {
        if there {
            if a != i && b != i {
                assert(out[a] == members[a]);
                assert(out[b] == members[b]);
            }
        } else {
            let x = if a < i {
                a
            } else {
                a - 1
            };
            let y = if b < i {
                b
            } else {
                b - 1
            };
            if a != i {
                assert(out[a] == members[x]);
            }
            if b != i {
                assert(out[b] == members[y]);
            }
        }
    }
    assert(out[i] == m);
    assert forall|e: (Seq<char>, JsonModel)| #[trigger] out.contains(e) implies e == m
        || members.contains(e) by {
        let k = choose|k: int| 0 <= k < out.len() && out[k] == e;
        if k != i {
            if there || k < i {
                assert(members[k] == e);
            } else {
                assert(members[k - 1] == e);
            }
        }
    }
    assert forall|e: (Seq<char>, JsonModel)| #[trigger] members.contains(e) && e.0 != key implies out.contains(
    e) by {
        let k = choose|k: int| 0 <= k < members.len() && members[k] == e;
        if there || k < i {
            assert(out[k] == e);
        } else {
            assert(out[k + 1] == e);
        }
    }
}

/// Putting members in order keeps them, with their values in canonical form.
proof fn ordered_keeps_members(members: Members, n: nat)
    requires
        n <= members.len(),
        distinct_keys(members),
    ensures
        in_order(ordered(members, n)),
        forall|k: int|
            0 <= k < n ==> ordered(members, n).contains(
                ((#[trigger] members[k]).0, canonical(members[k].1)),
            ),
        forall|e: (Seq<char>, JsonModel)| #[trigger]
            ordered(members, n).contains(e) ==> exists|k: int|
                0 <= k < n && (#[trigger] members[k]).0 == e.0 && canonical(members[k].1) == e.1,
    decreases n,
{
    if n > 0 {
        let m = (members[n - 1].0, canonical(members[n - 1].1));
        let before = ordered(members, (n - 1) as nat);
        ordered_keeps_members(members, (n - 1) as nat);
        inserted_in_order(before, m);
        assert forall|k: int| 0 <= k < n implies ordered(members, n).contains(
            ((#[trigger] members[k]).0, canonical(members[k].1)),
        ) by {
            if k < n - 1 {
                assert(members[k].0 != members[n - 1].0);
                assert(before.contains((members[k].0, canonical(members[k].1))));
            }
        }
        assert forall|e: (Seq<char>, JsonModel)| #[trigger]
            ordered(members, n).contains(e) implies exists|k: int|
            0 <= k < n && (#[trigger] members[k]).0 == e.0 && canonical(members[k].1) == e.1 by {
            if e == m {
                assert(members[n - 1].0 == e.0);
            } else {
                assert(before.contains(e));
                let k = choose|k: int|
                    0 <= k < n - 1 && (#[trigger] members[k]).0 == e.0 && canonical(members[k].1)
                        == e.1;
                assert(members[k].0 == e.0);
            }
        }
    }
}

/// Two sequences in order with the same members are the same.
proof fn one_order(a: Members, b: Members)
    requires
        in_order(a),
        in_order(b),
        forall|e: (Seq<char>, JsonModel)| #[trigger] a.contains(e) <==> b.contains(e),
    ensures
        a == b,
    decreases a.len(),
{
    if a.len() == 0 {
        if b.len() > 0 {
            assert(b.contains(b[0]));
            assert(a.contains(b[0]) <==> b.contains(b[0]));
        }
        assert(a =~= b);
    } else {
        assert(a.contains(a[0]));
        assert(b.contains(a[0]));
        let j = choose|j: int| 0 <= j < b.len() && b[j] == a[0];
        assert(b.contains(b[0]));
        assert(a.contains(b[0]));
        let i = choose|i: int| 0 <= i < a.len() && a[i] == b[0];
        if j > 0 {
            assert(comes_before(b[0].0, b[j].0));
            if i > 0 {
                assert(comes_before(a[0].0, a[i].0));
                order_is_total(a[0].0, b[0].0);
            } else {
                order_is_total(a[0].0, a[0].0);
            }
        }
        assert(a[0] == b[0]);
        let (x, y) = (a.skip(1), b.skip(1));
        assert forall|e: (Seq<char>, JsonModel)| #[trigger] x.contains(e) <==> y.contains(e) by {
            if x.contains(e) {
                let k = choose|k: int| 0 <= k < x.len() && x[k] == e;
                assert(a[k + 1] == e);
                assert(a.contains(e));
                let q = choose|q: int| 0 <= q < b.len() && b[q] == e;
                if q == 0 {
                    assert(comes_before(a[0].0, a[k + 1].0));
                    order_is_total(e.0, e.0);
                }
                assert(y[q - 1] == e);
            }
            if y.contains(e) {
                let k = choose|k: int| 0 <= k < y.len() && y[k] == e;
                assert(b[k + 1] == e);
                assert(b.contains(e));
                assert(a.contains(e) <==> b.contains(e));
                let q = choose|q: int| 0 <= q < a.len() && a[q] == e;
                if q == 0 {
                    assert(comes_before(b[0].0, b[k + 1].0));
                    order_is_total(e.0, e.0);
                }
                assert(x[q - 1] == e);
            }
        }
        assert forall|p: int, q: int| 0 <= p < q < x.len() implies comes_before(
            (#[trigger] x[p]).0,
            (#[trigger] x[q]).0,
        ) by {
            assert(comes_before(a[p + 1].0, a[q + 1].0));
        }
        assert forall|p: int, q: int| 0 <= p < q < y.len() implies comes_before(
            (#[trigger] y[p]).0,
            (#[trigger] y[q]).0,
        ) by {
            assert(comes_before(b[p + 1].0, b[q + 1].0));
        }
        one_order(x, y);
        assert(a =~= seq![a[0]] + x);
        assert(b =~= seq![b[0]] + y);
    }
}

/// Whether two values differ at most in the order of members.
pub open spec fn same_but_for_order(a: JsonModel, b: JsonModel) -> bool
    decreases a,
{
    match (a, b) {
        (JsonModel::Array(x), JsonModel::Array(y)) => {
            &&& x.len() == y.len()
            &&& forall|i: int|
                0 <= i < x.len() ==> same_but_for_order(#[trigger] x[i], y[i])
        },
        (JsonModel::Object(x), JsonModel::Object(y)) => {
            &&& distinct_keys(x)
            &&& distinct_keys(y)
            &&& x.len() == y.len()
            &&& forall|i: int|
                0 <= i < x.len() ==> exists|j: int|
                    0 <= j < y.len() && (#[trigger] x[i]).0 == (#[trigger] y[j]).0
                        && same_but_for_order(x[i].1, y[j].1)
            &&& forall|j: int|
                0 <= j < y.len() ==> exists|i: int|
                    0 <= i < x.len() && (#[trigger] x[i]).0 == (#[trigger] y[j]).0
        },
        _ => a == b,
    }
}

/// Values that differ only in the order of members have one canonical form.
pub proof fn canonical_form_has_one_order(a: JsonModel, b: JsonModel)
    requires
        same_but_for_order(a, b),
    ensures
        canonical(a) == canonical(b),
    decreases a,
{
    match (a, b) {
        (JsonModel::Array(x), JsonModel::Array(y)) => {
            assert forall|i: int| 0 <= i < x.len() implies canonical(#[trigger] x[i]) == canonical(
                y[i],
            ) by {
                canonical_form_has_one_order(x[i], y[i]);
            }
            same_items(x, y, x.len());
        },
        (JsonModel::Object(x), JsonModel::Object(y)) => {
            assert forall|i: int| 0 <= i < x.len() implies #[trigger] has_like(x[i], y) by {
                let j = choose|j: int|
                    0 <= j < y.len() && x[i].0 == (#[trigger] y[j]).0 && same_but_for_order(
                        x[i].1,
                        y[j].1,
                    );
                canonical_form_has_one_order(x[i].1, y[j].1);
                assert(alike(x[i], y[j]));
            }
            assert forall|j: int| 0 <= j < y.len() implies #[trigger] has_like(y[j], x) by {
                let i = choose|i: int| 0 <= i < x.len() && (#[trigger] x[i]).0 == y[j].0;
                assert(has_like(x[i], y));
                let k = choose|k: int| 0 <= k < y.len() && #[trigger] alike(x[i], y[k]);
                if k < j {
                    assert(y[k].0 != y[j].0);
                }
                if j < k {
                    assert(y[j].0 != y[k].0);
                }
                assert(alike(y[j], x[i]));
            }
            same_members(x, y);
        },
        _ => {},
    }
}

/// Whether two members are the same but for the order inside them.
spec fn alike(a: (Seq<char>, JsonModel), b: (Seq<char>, JsonModel)) -> bool {
    a.0 == b.0 && canonical(a.1) == canonical(b.1)
}

spec fn has_like(m: (Seq<char>, JsonModel), members: Members) -> bool {
    exists|j: int| 0 <= j < members.len() && #[trigger] alike(m, members[j])
}

proof fn same_members(x: Members, y: Members)
    requires
        distinct_keys(x),
        distinct_keys(y),
        forall|i: int| 0 <= i < x.len() ==> #[trigger] has_like(x[i], y),
        forall|j: int| 0 <= j < y.len() ==> #[trigger] has_like(y[j], x),
    ensures
        ordered(x, x.len()) == ordered(y, y.len()),
{
    let p = ordered(x, x.len());
    let q = ordered(y, y.len());
    ordered_keeps_members(x, x.len());
    ordered_keeps_members(y, y.len());
    assert forall|e: (Seq<char>, JsonModel)| #[trigger] p.contains(e) <==> q.contains(e) by {
        if p.contains(e) {
            let i = choose|k: int|
                0 <= k < x.len() && (#[trigger] x[k]).0 == e.0 && canonical(x[k].1) == e.1;
            assert(has_like(x[i], y));
            let j = choose|j: int| 0 <= j < y.len() && #[trigger] alike(x[i], y[j]);
            assert(q.contains((y[j].0, canonical(y[j].1))));
        }
        if q.contains(e) {
            let j = choose|k: int|
                0 <= k < y.len() && (#[trigger] y[k]).0 == e.0 && canonical(y[k].1) == e.1;
            assert(has_like(y[j], x));
            let i = choose|i: int| 0 <= i < x.len() && #[trigger] alike(y[j], x[i]);
            assert(p.contains((x[i].0, canonical(x[i].1))));
        }
    }
    one_order(p, q);
}

proof fn same_items(x: Seq<JsonModel>, y: Seq<JsonModel>, n: nat)
    requires
        x.len() == y.len(),
        n <= x.len(),
        forall|i: int| 0 <= i < x.len() ==> canonical(#[trigger] x[i]) == canonical(y[i]),
    ensures
        canonical_items(x, n) == canonical_items(y, n),
    decreases n,
{
    if n > 0 {
        same_items(x, y, (n - 1) as nat);
        assert(canonical(x[n - 1]) == canonical(y[n - 1]));
    }
}

// ---------------------------------------------------------------------------
// What it keeps.

/// A step into a value.
pub enum Step {
    /// To the member with a key.
    Key(Seq<char>),
    /// To an item.
    Index(int),
}

/// What stands at a place in a value.
pub open spec fn value_at(m: JsonModel, path: Seq<Step>) -> Option<JsonModel>
    decreases path.len(),
{
    if path.len() == 0 {
        Some(m)
    } else {
        match (m, path[0]) {
            (JsonModel::Object(members), Step::Key(key)) => match json::lookup(members, key) {
                Some(v) => value_at(v, path.skip(1)),
                None => None,
            },
            (JsonModel::Array(items), Step::Index(i)) => if 0 <= i < items.len() {
                value_at(items[i], path.skip(1))
            } else {
                None
            },
            _ => None,
        }
    }
}

/// Whether no object in a value has a key twice.
pub open spec fn all_distinct(m: JsonModel) -> bool
    decreases m,
{
    match m {
        JsonModel::Array(items) => forall|i: int|
            0 <= i < items.len() ==> all_distinct(#[trigger] items[i]),
        JsonModel::Object(members) => {
            &&& distinct_keys(members)
            &&& forall|i: int| 0 <= i < members.len() ==> all_distinct((#[trigger] members[i]).1)
        },
        _ => true,
    }
}

pub proof fn items_are_canonical(items: Seq<JsonModel>, n: nat)
    requires
        n <= items.len(),
    ensures
        canonical_items(items, n).len() == n,
        forall|k: int| 0 <= k < n ==> #[trigger] canonical_items(items, n)[k] == canonical(items[k]),
    decreases n,
{
    if n > 0 {
        items_are_canonical(items, (n - 1) as nat);
    }
}

/// A member that is found stands somewhere.
proof fn found_is_there(members: Members, key: Seq<char>)
    requires
        json::lookup(members, key) is Some,
    ensures
        exists|k: int|
            0 <= k < members.len() && (#[trigger] members[k]).0 == key && members[k].1
                == json::lookup(members, key).unwrap(),
    decreases members.len(),
{
    if members[0].0 == key {
        assert(members[0].0 == key);
    } else {
        let rest = members.skip(1);
        found_is_there(rest, key);
        let k = choose|k: int|
            0 <= k < rest.len() && (#[trigger] rest[k]).0 == key && rest[k].1 == json::lookup(
                rest,
                key,
            ).unwrap();
        assert(members[k + 1] == rest[k]);
    }
}

/// A member that stands somewhere, and its key nowhere else, is found.
proof fn there_is_found(members: Members, k: int)
    requires
        0 <= k < members.len(),
        distinct_keys(members),
    ensures
        json::lookup(members, members[k].0) == Some(members[k].1),
    decreases k,
{
    if k > 0 {
        assert(members[0].0 != members[k].0);
        let rest = members.skip(1);
        assert forall|i: int, j: int| 0 <= i < j < rest.len() implies (#[trigger] rest[i]).0 != (
        #[trigger] rest[j]).0 by {
            assert(members[i + 1].0 != members[j + 1].0);
        }
        there_is_found(rest, k - 1);
        assert(rest[k - 1] == members[k]);
    }
}

/// What stands at a place in a value stands there in its canonical form too.
pub proof fn canonical_keeps_places(m: JsonModel, path: Seq<Step>)
    requires
        all_distinct(m),
        value_at(m, path) is Some,
    ensures
        value_at(canonical(m), path) == Some(canonical(value_at(m, path).unwrap())),
    decreases path.len(),
{
    if path.len() > 0 {
        match (m, path[0]) {
            (JsonModel::Object(members), Step::Key(key)) => {
                let v = json::lookup(members, key).unwrap();
                found_is_there(members, key);
                let k = choose|k: int|
                    0 <= k < members.len() && (#[trigger] members[k]).0 == key && members[k].1 == v;
                canonical_keeps_places(v, path.skip(1));
                ordered_keeps_members(members, members.len());
                let all = ordered(members, members.len());
                assert(all.contains((members[k].0, canonical(members[k].1))));
                let j = choose|j: int|
                    0 <= j < all.len() && all[j] == (members[k].0, canonical(members[k].1));
                assert forall|p: int, q: int| 0 <= p < q < all.len() implies (#[trigger] all[p]).0
                    != (#[trigger] all[q]).0 by {
                    order_is_total(all[p].0, all[q].0);
                }
                there_is_found(all, j);
            },
            (JsonModel::Array(items), Step::Index(i)) => {
                canonical_keeps_places(items[i], path.skip(1));
                items_are_canonical(items, items.len());
            },
            _ => {},
        }
    }
}

/// The members of a canonical object are those of the object, in canonical form.
pub proof fn canonical_members_come_from(members: Members, k: int)
    requires
        distinct_keys(members),
        0 <= k < ordered(members, members.len()).len(),
    ensures
        exists|i: int|
            0 <= i < members.len() && canonical((#[trigger] members[i]).1) == ordered(
                members,
                members.len(),
            )[k].1,
{
    ordered_keeps_members(members, members.len());
    let all = ordered(members, members.len());
    assert(all.contains(all[k]));
    let i = choose|i: int|
        0 <= i < members.len() && (#[trigger] members[i]).0 == all[k].0 && canonical(members[i].1)
            == all[k].1;
    assert(canonical(members[i].1) == all[k].1);
}

// ---------------------------------------------------------------------------
// Laws.

/// A name comes before another that goes on from it, and before one that differs from it in a
/// greater character first.
pub proof fn names_come_by_their_characters(a: Seq<char>, c: char, d: char, x: Seq<char>, y: Seq<char>)
    requires
        c < d,
    ensures
        comes_before(a, a.push(c)),
        comes_before(a.push(c) + x, a.push(d) + y),
        !comes_before(a.push(c), a),
        !comes_before(a.push(d) + y, a.push(c) + x),
    decreases a.len(),
{
    let (p, q) = (a.push(c) + x, a.push(d) + y);
    if a.len() == 0 {
        assert(p[0] == c && q[0] == d);
        assert(a.push(c)[0] == c);
    } else {
        let t = a.skip(1);
        names_come_by_their_characters(t, c, d, x, y);
        assert(a.push(c).skip(1) =~= t.push(c));
        assert(p.skip(1) =~= t.push(c) + x);
        assert(q.skip(1) =~= t.push(d) + y);
        assert(p[0] == a[0] && q[0] == a[0] && a.push(c)[0] == a[0]);
    }
}

/// The members of an object come by their names, each once.
pub proof fn members_come_by_their_names(members: Members, i: int, j: int)
    requires
        0 <= i < j < ordered(members, members.len()).len(),
    ensures
        comes_before(
            ordered(members, members.len())[i].0,
            ordered(members, members.len())[j].0,
        ),
        canonical(JsonModel::Object(members)) == JsonModel::Object(ordered(members, members.len())),
{
    ordered_keeps_order(members, members.len());
}

proof fn ordered_keeps_order(members: Members, n: nat)
    ensures
        in_order(ordered(members, n)),
    decreases n,
{
    if n != 0 && n <= members.len() {
        ordered_keeps_order(members, (n - 1) as nat);
        inserted_in_order(
            ordered(members, (n - 1) as nat),
            (members[n - 1].0, canonical(members[n - 1].1)),
        );
    }
}

/// What is no array and no object is its own canonical form.
pub proof fn plain_values_stay(m: JsonModel)
    requires
        !(m is Array) && !(m is Object),
    ensures
        canonical(m) == m,
{
}

} // verus!
