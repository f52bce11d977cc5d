//! A lazy GBNF grammar that admits, from the `<tool_call>` trigger on, only
//! well-formed calls of the declared tools.

use crate::json;
use crate::json::Json;
use crate::json::JsonModel;
use crate::prompt;
use crate::text;
use vstd::prelude::*;
use vstd::string::*;

verus! {

/// A name as part of a rule name: what is no ASCII letter or digit becomes a
/// hyphen.
pub open spec fn rule_part(name: Seq<char>) -> Seq<char> {
    name.map_values(
        |c: char|
            if text::is_alphanumeric(c) {
                c
            } else {
                '-'
            },
    )
}

/// A name as part of a rule name.
pub fn rule_frag(name: &str) -> (r: String)
    ensures
        r@ == rule_part(name@),
{
    let cs = text::chars_of(name);
    let mut out = String::new();
    let mut i: usize = 0;
    while i < cs.len()
        invariant
            i <= cs@.len(),
            cs@ == name@,
            out@ == rule_part(name@).take(i as int),
        decreases cs@.len() - i,
    {
        out.push(
            if text::alphanumeric(cs[i]) {
                cs[i]
            } else {
                '-'
            },
        );
        i += 1;
        assert(out@ =~= rule_part(name@).take(i as int));
    }
    assert(rule_part(name@).take(name@.len() as int) =~= rule_part(name@));
    out
}

/// A character inside a double-quoted string of the grammar.
pub open spec fn escaped(c: char) -> Seq<char> {
    if c == '"' {
        "\\\""@
    } else if c == '\\' {
        "\\\\"@
    } else if c == '\n' {
        "\\n"@
    } else {
        seq![c]
    }
}

/// The first `n` characters inside a double-quoted string.
pub open spec fn escaped_text(s: Seq<char>, n: int) -> Seq<char>
    decreases n,
{
    if n <= 0 {
        Seq::empty()
    } else {
        escaped_text(s, n - 1) + escaped(s[n - 1])
    }
}

/// `s` as a double-quoted string of the grammar.
pub open spec fn literal(s: Seq<char>) -> Seq<char> {
    seq!['"'] + escaped_text(s, s.len() as int) + seq!['"']
}

/// `s` inside a double-quoted string of the grammar.
fn escape(s: &str) -> (r: String)
    ensures
        r@ == escaped_text(s@, s@.len() as int),
{
    let cs = text::chars_of(s);
    let mut inner = String::new();
    let mut i: usize = 0;
    while i < cs.len()
        invariant
            i <= cs@.len(),
            cs@ == s@,
            inner@ == escaped_text(s@, i as int),
        decreases cs@.len() - i,
    {
        let c = cs[i];
        let ghost before = inner@;
        if c == '"' {
            inner.append("\\\"");
        } else if c == '\\' {
            inner.append("\\\\");
        } else if c == '\n' {
            inner.append("\\n");
        } else {
            inner.push(c);
            assert(inner@ =~= before + seq![c]);
        }
        i += 1;
    }
    inner
}

/// `s` as a double-quoted string of the grammar.
pub fn lit(s: &str) -> (r: String)
    ensures
        r@ == literal(s@),
{
    let mut out = String::new();
    out.push('"');
    out.append(escape(s).as_str());
    out.push('"');
    assert(out@ =~= literal(s@));
    out
}

// ---------------------------------------------------------------------------
// Text that does not contain a given string.

/// The state of the automaton after `c`: how long a prefix of `forbidden` the
/// text ends with. None where `c` would complete `forbidden`.
pub open spec fn advance(forbidden: Seq<char>, state: int, c: char) -> Option<int> {
    if c == forbidden[state] {
        if state + 1 < forbidden.len() {
            Some(state + 1)
        } else {
            None
        }
    } else if c == forbidden[0] {
        Some(1)
    } else {
        Some(0)
    }
}

/// The state of the automaton after a text; none once a character was refused.
pub open spec fn run(forbidden: Seq<char>, s: Seq<char>) -> Option<int>
    decreases s.len(),
{
    if s.len() == 0 {
        Some(0)
    } else {
        match run(forbidden, s.drop_last()) {
            Some(state) => advance(forbidden, state, s.last()),
            None => None,
        }
    }
}

/// The first character of `f` stands nowhere else in it.
pub open spec fn begins_uniquely(f: Seq<char>) -> bool {
    f.len() > 0 && forall|i: int| 1 <= i < f.len() ==> #[trigger] f[i] != f[0]
}

proof fn run_tracks_prefix(f: Seq<char>, s: Seq<char>)
    requires
        begins_uniquely(f),
    ensures
        match run(f, s) {
            Some(i) => {
                &&& 0 <= i < f.len()
                &&& text::ends_in(s, f.take(i))
                &&& !text::contains(s, f)
                &&& forall|j: int| i < j <= f.len() ==> !text::ends_in(s, #[trigger] f.take(j))
            },
            None => text::contains(s, f),
        },
    decreases s.len(),
{
    if s.len() == 0 {
        assert(f.take(0) =~= Seq::<char>::empty());
        assert(s.subrange(0, 0) =~= f.take(0));
        assert forall|i: int| !text::occurs_at(s, f, i) by {}
    } else {
        let t = s.drop_last();
        let c = s.last();
        run_tracks_prefix(f, t);
        assert(f.take(f.len() as int) =~= f);
        match run(f, t) {
            None => {
                let at = choose|i: int| text::occurs_at(t, f, i);
                assert(s.subrange(at, at + f.len()) =~= t.subrange(at, at + f.len()));
                assert(text::occurs_at(s, f, at));
            },
            Some(i) => {
                // Of the prefixes that end t only the longest and the empty one count.
                assert forall|k: int| 1 <= k < i implies !text::ends_in(t, #[trigger] f.take(k)) by {
                    if text::ends_in(t, f.take(k)) {
                        let a = t.subrange(t.len() - k, t.len() as int);
                        let b = t.subrange(t.len() - i, t.len() as int);
                        assert(a[0] == f[0]);
                        assert(b[i - k] == f[i - k]);
                        assert(a[0] == b[i - k]);
                    }
                }
                assert(f.take(0) =~= Seq::<char>::empty());
                assert(s.subrange(s.len() as int, s.len() as int) =~= f.take(0));
                assert(t.subrange(t.len() as int, t.len() as int) =~= f.take(0));
                match advance(f, i, c) {
                    None => {
                        ends_by_one(s, f, i + 1);
                        assert(text::ends_in(s, f.take(i + 1)));
                        assert(text::occurs_at(s, f, s.len() - f.len()));
                    },
                    Some(next) => {
                        if next > 0 {
                            ends_by_one(s, f, next);
                            assert(text::ends_in(s, f.take(next)));
                        }
                        assert forall|j: int| next < j <= f.len() implies !text::ends_in(
                            s,
                            #[trigger] f.take(j),
                        ) by {
                            if text::ends_in(s, f.take(j)) {
                                // A prefix of f ends s only where the one before it
                                // ends t.
                                ends_by_one(s, f, j);
                                assert(text::ends_in(t, f.take(j - 1)));
                                if j - 1 > i {
                                } else if 1 <= j - 1 < i {
                                } else if j - 1 == i {
                                    assert(c == f[i]);
                                } else {
                                    assert(c == f[0]);
                                }
                                assert(false);
                            }
                        }
                        assert forall|p: int| !text::occurs_at(s, f, p) by {
                            if text::occurs_at(s, f, p) {
                                if p + f.len() == s.len() {
                                    assert(text::ends_in(s, f.take(f.len() as int)));
                                } else {
                                    assert(t.subrange(p, p + f.len()) =~= s.subrange(
                                        p,
                                        p + f.len(),
                                    ));
                                    assert(text::occurs_at(t, f, p));
                                }
                                assert(false);
                            }
                        }
                    },
                }
            },
        }
    }
}

proof fn ends_by_one(s: Seq<char>, f: Seq<char>, j: int)
    requires
        s.len() > 0,
        1 <= j <= f.len(),
    ensures
        text::ends_in(s, f.take(j)) <==> text::ends_in(s.drop_last(), f.take(j - 1)) && s.last()
            == f[j - 1],
{
    let t = s.drop_last();
    let a = f.take(j);
    let b = f.take(j - 1);
    if j <= s.len() {
        let x = s.subrange(s.len() - j, s.len() as int);
        let y = t.subrange(t.len() - (j - 1), t.len() as int);
        assert(x.drop_last() =~= y);
        assert(a.drop_last() =~= b);
        assert(x =~= y.push(s.last()));
        assert(a =~= b.push(f[j - 1]));
        if x == a {
            assert(y == b);
            assert(x.last() == a.last());
        }
    }
}

/// The terminator of a parameter value is such a string.
pub proof fn parameter_terminator_begins_uniquely()
    ensures
        begins_uniquely("</parameter"@),
{
    reveal_strlit("</parameter");
}

/// The name of the rule for a state.
pub open spec fn state_rule(base: Seq<char>, i: int) -> Seq<char> {
    if i == 0 {
        base + "-v"@
    } else {
        base + "-v"@ + text::decimal(i as nat)
    }
}

/// A character inside a class of the grammar.
pub open spec fn class_char(c: char) -> Seq<char> {
    if c == '\n' {
        "\\n"@
    } else if c == ']' {
        "\\]"@
    } else if c == '\\' {
        "\\\\"@
    } else {
        seq![c]
    }
}

/// One alternative of a rule.
pub enum Way {
    /// A text of one character, then the rule of a state.
    One(Seq<char>, int),
    /// Any character but two, then the rule of a state.
    Others(Seq<char>, int),
    /// Nothing.
    End,
}

/// Whether an alternative begins with `c`.
pub open spec fn takes(way: Way, c: char) -> bool {
    match way {
        Way::One(d, _) => d == seq![c],
        Way::Others(not, _) => c != not[0] && c != not[1],
        Way::End => false,
    }
}

/// The state whose rule follows.
pub open spec fn next_state(way: Way) -> int {
    match way {
        Way::One(_, j) => j,
        Way::Others(_, j) => j,
        Way::End => 0,
    }
}

/// The way on with the next character of the forbidden string, unless it completes it.
pub open spec fn extension(f: Seq<char>, i: int) -> Seq<Way> {
    if i + 1 < f.len() {
        seq![Way::One(seq![f[i]], i + 1)]
    } else {
        Seq::<Way>::empty()
    }
}

/// The way on with the first character of the forbidden string, where that is another.
pub open spec fn restart(f: Seq<char>, i: int) -> Seq<Way> {
    if f[i] != f[0] {
        seq![Way::One(seq![f[0]], 1)]
    } else {
        Seq::<Way>::empty()
    }
}

/// The ways on from state `i`: the next character of the forbidden string
/// unless it completes it, its first character, any other character, and the
/// end.
pub open spec fn ways(f: Seq<char>, i: int) -> Seq<Way> {
    extension(f, i) + restart(f, i) + seq![Way::Others(seq![f[i], f[0]], 0), Way::End]
}

/// Whether the rule of state `i` derives a text: nothing where the end is one of its
/// alternatives, else a character that one of them begins with and what the rule that
/// follows derives.
pub open spec fn derives(f: Seq<char>, i: int, s: Seq<char>) -> bool
    decreases s.len(),
{
    if s.len() == 0 {
        ways(f, i).contains(Way::End)
    } else {
        exists|k: int|
            0 <= k < ways(f, i).len() && takes(#[trigger] ways(f, i)[k], s[0]) && derives(
                f,
                next_state(ways(f, i)[k]),
                s.skip(1),
            )
    }
}

/// An alternative as it is written.
pub open spec fn way_text(base: Seq<char>, way: Way) -> Seq<char> {
    match way {
        Way::One(c, j) => literal(c) + " "@ + state_rule(base, j),
        Way::Others(not, j) => "[^"@ + class_char(not[0]) + class_char(not[1]) + "]"@ + " "@
            + state_rule(base, j),
        Way::End => "\"\""@,
    }
}

/// The alternatives of state `i` as they are written.
pub open spec fn alternatives(base: Seq<char>, f: Seq<char>, i: int) -> Seq<Seq<char>> {
    ways(f, i).map_values(|w: Way| way_text(base, w))
}

/// The state of the automaton that starts in state `i` after a text.
spec fn run_from(f: Seq<char>, i: int, s: Seq<char>) -> Option<int>
    decreases s.len(),
{
    if s.len() == 0 {
        Some(i)
    } else {
        match advance(f, i, s[0]) {
            Some(j) => run_from(f, j, s.skip(1)),
            None => None,
        }
    }
}

proof fn run_from_behind(f: Seq<char>, i: int, s: Seq<char>)
    requires
        s.len() > 0,
    ensures
        run_from(f, i, s) == match run_from(f, i, s.drop_last()) {
            Some(j) => advance(f, j, s.last()),
            None => None,
        },
    decreases s.len(),
{
    if s.len() == 1 {
        assert(s.skip(1) =~= Seq::empty());
        assert(s.drop_last() =~= Seq::empty());
        reveal_with_fuel(run_from, 2);
    } else {
        assert(s.drop_last()[0] == s[0]);
        assert(s.drop_last().skip(1) =~= s.skip(1).drop_last());
        match advance(f, i, s[0]) {
            Some(j) => {
                run_from_behind(f, j, s.skip(1));
                assert(s.skip(1).last() == s.last());
            },
            None => {},
        }
    }
}

proof fn run_is_from_start(f: Seq<char>, s: Seq<char>)
    ensures
        run(f, s) == run_from(f, 0, s),
    decreases s.len(),
{
    if s.len() > 0 {
        run_is_from_start(f, s.drop_last());
        run_from_behind(f, 0, s);
    }
}

/// The alternatives of a state lead where the automaton goes.
proof fn ways_are_the_automaton(f: Seq<char>, i: int, c: char)
    requires
        begins_uniquely(f),
        0 <= i < f.len(),
    ensures
        forall|k: int|
            0 <= k < ways(f, i).len() && takes(#[trigger] ways(f, i)[k], c) ==> advance(f, i, c)
                == Some(next_state(ways(f, i)[k])),
        advance(f, i, c) is Some ==> exists|k: int|
            0 <= k < ways(f, i).len() && takes(#[trigger] ways(f, i)[k], c),
        advance(f, i, c) matches Some(j) ==> 0 <= j < f.len(),
{
    let all = ways(f, i);
    let n = all.len() as int;
    let tail = seq![Way::Others(seq![f[i], f[0]], 0), Way::End];
    assert(all.len() == extension(f, i).len() + restart(f, i).len() + 2);
    assert(all[n - 1] == tail[1]);
    assert(all[n - 2] == tail[0]);
    if f[i] != f[0] {
        assert(all[n - 3] == restart(f, i)[0]);
    }
    if i + 1 < f.len() {
        assert(all[0] == extension(f, i)[0]);
    }
    assert(seq![c][0] == c);
    assert(seq![f[i]][0] == f[i]);
    assert(seq![f[0]][0] == f[0]);
    if c == f[i] {
        if i + 1 < f.len() {
            assert(takes(all[0], c));
        }
    } else if c == f[0] {
        assert(takes(all[n - 3], c));
    } else {
        assert(takes(all[n - 2], c));
    }
}

proof fn derives_is_run(f: Seq<char>, i: int, s: Seq<char>)
    requires
        begins_uniquely(f),
        0 <= i < f.len(),
    ensures
        derives(f, i, s) <==> run_from(f, i, s) is Some,
    decreases s.len(),
{
    let all = ways(f, i);
    if s.len() == 0 {
        assert(all[all.len() - 1] == seq![Way::Others(seq![f[i], f[0]], 0), Way::End][1]);
    } else {
        ways_are_the_automaton(f, i, s[0]);
        match advance(f, i, s[0]) {
            Some(j) => {
                derives_is_run(f, j, s.skip(1));
                if derives(f, j, s.skip(1)) {
                    let k = choose|k: int|
                        0 <= k < all.len() && takes(#[trigger] all[k], s[0]);
                    assert(next_state(all[k]) == j);
                }
            },
            None => {},
        }
    }
}

/// The value rules derive exactly the texts that do not contain the forbidden
/// string, for every string whose first character does not recur in it.
pub proof fn rules_derive_what_does_not_contain(forbidden: Seq<char>, s: Seq<char>)
    requires
        begins_uniquely(forbidden),
    ensures
        derives(forbidden, 0, s) <==> !text::contains(s, forbidden),
{
    derives_is_run(forbidden, 0, s);
    run_is_from_start(forbidden, s);
    run_tracks_prefix(forbidden, s);
}

/// The rule of one state.
pub open spec fn one_state_rule(base: Seq<char>, f: Seq<char>, i: int) -> Seq<char> {
    state_rule(base, i) + " ::= "@ + text::join(alternatives(base, f, i), " | "@) + "\n"@
}

/// The rules of the first `n` states.
pub open spec fn state_rules(base: Seq<char>, f: Seq<char>, n: int) -> Seq<char>
    decreases n,
{
    if n <= 0 {
        Seq::empty()
    } else {
        state_rules(base, f, n - 1) + one_state_rule(base, f, n - 1)
    }
}

fn rule_of_state(base: &str, i: usize) -> (r: String)
    ensures
        r@ == state_rule(base@, i as int),
{
    let mut out = base.to_string();
    out.append("-v");
    if i > 0 {
        out.append(text::decimal_string(i as u128).as_str());
    }
    out
}

fn push_class_char(out: &mut String, c: char)
    ensures
        final(out)@ == old(out)@ + class_char(c),
{
    let ghost before = out@;
    if c == '\n' {
        out.append("\\n");
    } else if c == ']' {
        out.append("\\]");
    } else if c == '\\' {
        out.append("\\\\");
    } else {
        out.push(c);
        assert(out@ =~= before + seq![c]);
    }
}

fn one_char(c: char) -> (r: String)
    ensures
        r@ == seq![c],
{
    let mut out = String::new();
    out.push(c);
    assert(out@ =~= seq![c]);
    out
}

fn alternatives_of(base: &str, f: &Vec<char>, i: usize) -> (alts: Vec<String>)
    requires
        i < f@.len(),
    ensures
        text::strings(alts@) == alternatives(base@, f@, i as int),
{
    let ghost write = |w: Way| way_text(base@, w);
    let mut alts: Vec<String> = Vec::new();
    assert(text::strings(alts@) =~= Seq::empty());
    if i < f.len() - 1 {
        let mut alt = lit(one_char(f[i]).as_str());
        alt.append(" ");
        alt.append(rule_of_state(base, i + 1).as_str());
        alts.push(alt);
        assert(text::strings(alts@) =~= seq![alt@]);
    }
    assert(text::strings(alts@) =~= extension(f@, i as int).map_values(write));
    let ghost a1 = text::strings(alts@);
    if f[i] != f[0] {
        let mut alt = lit(one_char(f[0]).as_str());
        alt.append(" ");
        alt.append(rule_of_state(base, 1).as_str());
        alts.push(alt);
        assert(text::strings(alts@) =~= a1.push(alt@));
    }
    let ghost two = extension(f@, i as int) + restart(f@, i as int);
    assert(text::strings(alts@) =~= two.map_values(write));
    let ghost a2 = text::strings(alts@);
    let mut class = "[^".to_string();
    push_class_char(&mut class, f[i]);
    push_class_char(&mut class, f[0]);
    class.append("]");
    class.append(" ");
    class.append(rule_of_state(base, 0).as_str());
    let ghost k = class@;
    alts.push(class);
    assert(text::strings(alts@) =~= a2.push(k));
    let end = "\"\"".to_string();
    alts.push(end);
    assert(text::strings(alts@) =~= a2.push(k).push(end@));
    proof {
        let all = ways(f@, i as int);
        let tail = seq![Way::Others(seq![f@[i as int], f@[0]], 0), Way::End];
        assert(tail[0] == Way::Others(seq![f@[i as int], f@[0]], 0));
        assert(tail[1] == Way::End);
        assert(all =~= two + tail);
        assert(tail.map_values(write) =~= seq![k, end@]);
        assert(a2.push(k).push(end@) =~= all.map_values(write));
    }
    alts
}

/// Appends the rules that match any text without `forbidden`. Returns the name
/// of the rule to enter by.
pub fn not_containing_rules(out: &mut String, base: &str, forbidden: &str) -> (r: String)
    ensures
        final(out)@ == old(out)@ + state_rules(base@, forbidden@, forbidden@.len() as int),
        r@ == state_rule(base@, 0),
{
    let f = text::chars_of(forbidden);
    let n: usize = f.len();
    let ghost before = out@;
    let mut i: usize = 0;
    assert(before + Seq::<char>::empty() =~= before);
    while i < n
        invariant
            i <= n == f@.len(),
            f@ == forbidden@,
            out@ == before + state_rules(base@, forbidden@, i as int),
        decreases n - i,
    {
        let alts = alternatives_of(base, &f, i);
        let mut rule = rule_of_state(base, i);
        rule.append(" ::= ");
        rule.append(text::join_strings(&alts, " | ").as_str());
        rule.append("\n");
        let ghost earlier = state_rules(base@, forbidden@, i as int);
        out.append(rule.as_str());
        assert((before + earlier) + rule@ =~= before + (earlier + rule@));
        i += 1;
    }
    rule_of_state(base, 0)
}

// ---------------------------------------------------------------------------
// The grammar of the declared tools.

/// A tool's name and the names of its parameters.
#[derive(Debug)]
pub struct ToolShape {
    pub name: String,
    pub params: Vec<String>,
}

pub open spec fn shape_models(v: Seq<ToolShape>) -> Seq<(Seq<char>, Seq<Seq<char>>)> {
    v.map_values(|t: ToolShape| (t.name@, text::strings(t.params@)))
}

/// The names of the members of an object.
pub open spec fn keys(members: Seq<(Seq<char>, JsonModel)>) -> Seq<Seq<char>> {
    members.map_values(|m: (Seq<char>, JsonModel)| m.0)
}

/// The shapes of the first `n` flattened tools; those without a name are left
/// out.
pub open spec fn shapes(tools: Seq<JsonModel>, n: int) -> Seq<(Seq<char>, Seq<Seq<char>>)>
    decreases n,
{
    if n <= 0 {
        Seq::empty()
    } else {
        match tools[n - 1].text_at("name"@) {
            Some(name) => shapes(tools, n - 1).push((name, keys(prompt::properties_of(tools[n - 1])))),
            None => shapes(tools, n - 1),
        }
    }
}

fn shapes_of(tools: &Vec<Json>) -> (r: Vec<ToolShape>)
    ensures
        shape_models(r@) == shapes(json::models(tools@), tools@.len() as int),
{
    let ghost all = json::models(tools@);
    let mut out: Vec<ToolShape> = Vec::new();
    let mut i: usize = 0;
    assert(shape_models(out@) =~= Seq::empty());
    while i < tools.len()
        invariant
            i <= tools@.len(),
            all == json::models(tools@),
            shape_models(out@) == shapes(all, i as int),
        decreases tools@.len() - i,
    {
        let ghost before = shape_models(out@);
        assert(all[i as int] == tools@[i as int]@);
        match tools[i].str_at("name") {
            None => {},
            Some(name) => {
                let mut params: Vec<String> = Vec::new();
                match prompt::tool_properties(&tools[i]) {
                    None => {
                        assert(text::strings(params@) =~= keys(
                            prompt::properties_of(all[i as int]),
                        ));
                    },
                    Some(members) => {
                        let ghost ks = keys(json::member_models(members@));
                        let mut k: usize = 0;
                        while k < members.len()
                            invariant
                                k <= members@.len(),
                                ks == keys(json::member_models(members@)),
                                text::strings(params@) == ks.take(k as int),
                            decreases members@.len() - k,
                        {
                            let ghost now = text::strings(params@);
                            let key = members[k].0.clone();
                            params.push(key);
                            assert(text::strings(params@) =~= now.push(key@));
                            assert(ks.take(k + 1) =~= ks.take(k as int).push(ks[k as int]));
                            k += 1;
                        }
                        assert(ks.take(ks.len() as int) =~= ks);
                    },
                }
                let shape = ToolShape { name: name.to_string(), params };
                out.push(shape);
                assert(shape_models(out@) =~= before.push(
                    (shape.name@, text::strings(shape.params@)),
                ));
            },
        }
        i += 1;
    }
    out
}

/// The rule names of the functions.
pub open spec fn function_rules(tools: Seq<(Seq<char>, Seq<Seq<char>>)>) -> Seq<Seq<char>> {
    tools.map_values(|t: (Seq<char>, Seq<Seq<char>>)| "func-"@ + rule_part(t.0))
}

/// The rule name of a parameter.
pub open spec fn parameter_rule(tool: Seq<char>, param: Seq<char>) -> Seq<char> {
    "param-"@ + rule_part(tool) + "-"@ + rule_part(param)
}

/// The rules of the first `n` parameters of a tool.
pub open spec fn parameter_rules(tool: Seq<char>, params: Seq<Seq<char>>, n: int) -> Seq<char>
    decreases n,
{
    if n <= 0 {
        Seq::empty()
    } else {
        parameter_rules(tool, params, n - 1) + parameter_rule(tool, params[n - 1])
            + " ::= \"<parameter="@ + escaped_text(params[n - 1], params[n - 1].len() as int)
            + ">\\n\" "@ + state_rule("val"@, 0)
            + " \"\\n</parameter>\\n\"\n"@
    }
}

/// The rules of one tool.
pub open spec fn one_tool_rules(name: Seq<char>, params: Seq<Seq<char>>) -> Seq<char> {
    let start = "func-"@ + rule_part(name) + " ::= \"<function="@ + escaped_text(
        name,
        name.len() as int,
    );
    if params.len() == 0 {
        start + ">\" \"\\n\"? \"</function>\"\n"@
    } else {
        start + ">\\n\" ("@ + text::join(
            params.map_values(|p: Seq<char>| parameter_rule(name, p)),
            " | "@,
        ) + ")* \"</function>\"\n"@ + parameter_rules(name, params, params.len() as int)
    }
}

/// The rules of the first `n` tools.
pub open spec fn tool_rules(tools: Seq<(Seq<char>, Seq<Seq<char>>)>, n: int) -> Seq<char>
    decreases n,
{
    if n <= 0 {
        Seq::empty()
    } else {
        tool_rules(tools, n - 1) + one_tool_rules(tools[n - 1].0, tools[n - 1].1)
    }
}

/// The whole grammar.
pub open spec fn grammar_text(tools: Seq<(Seq<char>, Seq<Seq<char>>)>) -> Seq<char> {
    "root ::= tool-call (\"\\n\" tool-call)* \"\\n\"?\ntool-call ::= \"<tool_call>\\n\" ("@
        + text::join(function_rules(tools), " | "@) + ") \"\\n</tool_call>\"\n"@ + state_rules(
        "val"@,
        "</parameter"@,
        "</parameter"@.len() as int,
    ) + tool_rules(tools, tools.len() as int)
}

fn function_rule_names(tools: &Vec<ToolShape>) -> (r: Vec<String>)
    ensures
        text::strings(r@) == function_rules(shape_models(tools@)),
{
    let ghost all = function_rules(shape_models(tools@));
    let mut out: Vec<String> = Vec::new();
    let mut i: usize = 0;
    while i < tools.len()
        invariant
            i <= tools@.len(),
            all == function_rules(shape_models(tools@)),
            text::strings(out@) == all.take(i as int),
        decreases tools@.len() - i,
    {
        let ghost before = text::strings(out@);
        let mut rule = "func-".to_string();
        rule.append(rule_frag(tools[i].name.as_str()).as_str());
        out.push(rule);
        assert(text::strings(out@) =~= before.push(rule@));
        assert(all.take(i + 1) =~= all.take(i as int).push(all[i as int]));
        i += 1;
    }
    assert(all.take(all.len() as int) =~= all);
    out
}

fn rule_of_parameter(tool: &str, param: &str) -> (r: String)
    ensures
        r@ == parameter_rule(tool@, param@),
{
    let mut rule = "param-".to_string();
    rule.append(rule_frag(tool).as_str());
    rule.append("-");
    rule.append(rule_frag(param).as_str());
    rule
}

/// The rules of one tool.
fn rules_of_tool(tool: &ToolShape, value_entry: &str) -> (g: String)
    requires
        value_entry@ == state_rule("val"@, 0),
    ensures
        g@ == one_tool_rules(tool.name@, text::strings(tool.params@)),
{
    let name = tool.name.as_str();
    let ghost params = text::strings(tool.params@);
    let mut g = "func-".to_string();
    g.append(rule_frag(name).as_str());
    g.append(" ::= \"<function=");
    g.append(escape(name).as_str());
    if tool.params.len() == 0 {
        g.append(">\" \"\\n\"? \"</function>\"\n");
        return g;
    }
    let ghost all = params.map_values(|p: Seq<char>| parameter_rule(name@, p));
    let mut alts: Vec<String> = Vec::new();
    let mut rules = String::new();
    let mut i: usize = 0;
    while i < tool.params.len()
        invariant
            i <= tool.params@.len(),
            name@ == tool.name@,
            value_entry@ == state_rule("val"@, 0),
            params == text::strings(tool.params@),
            all == params.map_values(|p: Seq<char>| parameter_rule(name@, p)),
            text::strings(alts@) == all.take(i as int),
            rules@ == parameter_rules(name@, params, i as int),
        decreases tool.params@.len() - i,
    {
        let ghost before = text::strings(alts@);
        let param = tool.params[i].as_str();
        assert(params[i as int] == param@);
        let rule = rule_of_parameter(name, param);
        rules.append(rule.as_str());
        rules.append(" ::= \"<parameter=");
        rules.append(escape(param).as_str());
        rules.append(">\\n\" ");
        rules.append(value_entry);
        rules.append(" \"\\n</parameter>\\n\"\n");
        alts.push(rule);
        assert(text::strings(alts@) =~= before.push(rule@));
        assert(all.take(i + 1) =~= all.take(i as int).push(all[i as int]));
        i += 1;
    }
    assert(all.take(all.len() as int) =~= all);
    g.append(">\\n\" (");
    g.append(text::join_strings(&alts, " | ").as_str());
    g.append(")* \"</function>\"\n");
    g.append(rules.as_str());
    g
}

/// Builds the grammar of the flattened tools; none where there is no usable
/// tool.
pub fn tool_call_grammar(tools: &Vec<Json>) -> (r: Option<String>)
    ensures
        match r {
            Some(g) => shapes(json::models(tools@), tools@.len() as int).len() > 0 && g@
                == grammar_text(shapes(json::models(tools@), tools@.len() as int)),
            None => shapes(json::models(tools@), tools@.len() as int).len() == 0,
        },
{
    let found = shapes_of(tools);
    let ghost all = shape_models(found@);
    assert(all.len() == found@.len());
    if found.len() == 0 {
        return None;
    }
    let mut g =
        "root ::= tool-call (\"\\n\" tool-call)* \"\\n\"?\ntool-call ::= \"<tool_call>\\n\" (".to_string();
    let names = function_rule_names(&found);
    g.append(text::join_strings(&names, " | ").as_str());
    g.append(") \"\\n</tool_call>\"\n");
    let value_entry = not_containing_rules(&mut g, "val", "</parameter");
    let ghost head = g@;
    let mut i: usize = 0;
    assert(head + tool_rules(all, 0) =~= head);
    while i < found.len()
        invariant
            i <= found@.len(),
            all == shape_models(found@),
            value_entry@ == state_rule("val"@, 0),
            g@ == head + tool_rules(all, i as int),
        decreases found@.len() - i,
    {
        assert(all[i as int] == (found@[i as int].name@, text::strings(found@[i as int].params@)));
        let ghost before = tool_rules(all, i as int);
        let rules = rules_of_tool(&found[i], value_entry.as_str());
        g.append(rules.as_str());
        assert((head + before) + rules@ =~= head + (before + rules@));
        i += 1;
    }
    Some(g)
}

// ---------------------------------------------------------------------------
// Laws.

/// The name of a rule keeps the letters and digits of what it is named after, and has a dash
/// for every other character.
pub proof fn rule_names_keep_letters_and_digits(name: Seq<char>, i: int)
    requires
        0 <= i < name.len(),
    ensures
        rule_part(name).len() == name.len(),
        ('a' <= name[i] <= 'z') || ('A' <= name[i] <= 'Z') || ('0' <= name[i] <= '9')
            ==> rule_part(name)[i] == name[i],
        !(('a' <= name[i] <= 'z') || ('A' <= name[i] <= 'Z') || ('0' <= name[i] <= '9'))
            ==> rule_part(name)[i] == '-',
{
}

/// What the characters between the quotes of a literal denote.
pub open spec fn denoted(t: Seq<char>) -> Seq<char>
    decreases t.len(),
{
    if t.len() == 0 {
        Seq::empty()
    } else if t[0] == '\\' && t.len() > 1 {
        seq![
            if t[1] == 'n' {
                '\n'
            } else {
                t[1]
            },
        ] + denoted(t.skip(2))
    } else {
        seq![t[0]] + denoted(t.skip(1))
    }
}

/// A literal denotes the text that it was written for, and holds no quote and no line feed of
/// its own.
pub proof fn literals_denote_their_text(s: Seq<char>)
    ensures
        literal(s).len() >= 2,
        literal(s)[0] == '"',
        literal(s).last() == '"',
        denoted(literal(s).subrange(1, literal(s).len() - 1)) == s,
        !literal(s).contains('\n'),
{
    reveal_strlit("\\\"");
    reveal_strlit("\\\\");
    reveal_strlit("\\n");
    let inner = escaped_text(s, s.len() as int);
    assert(literal(s).subrange(1, literal(s).len() - 1) =~= inner);
    escaped_from_front(s);
    denotes(s);
    feeds_are_escaped(s, s.len() as int);
    if literal(s).contains('\n') {
        let i = choose|i: int| 0 <= i < literal(s).len() && literal(s)[i] == '\n';
        assert(0 < i && i < literal(s).len() - 1);
        assert(inner[i - 1] == '\n');
    }
}

proof fn feeds_are_escaped(s: Seq<char>, n: int)
    requires
        0 <= n <= s.len(),
    ensures
        !escaped_text(s, n).contains('\n'),
    decreases n,
{
    reveal_strlit("\\\"");
    reveal_strlit("\\\\");
    reveal_strlit("\\n");
    if n > 0 {
        feeds_are_escaped(s, n - 1);
        let (a, b) = (escaped_text(s, n - 1), escaped(s[n - 1]));
        assert forall|i: int| 0 <= i < (a + b).len() implies (a + b)[i] != '\n' by {
            if i < a.len() {
                assert(a.contains(a[i]));
            } else {
                assert((a + b)[i] == b[i - a.len()]);
            }
        }
    }
}

spec fn escaped_front(s: Seq<char>) -> Seq<char>
    decreases s.len(),
{
    if s.len() == 0 {
        Seq::empty()
    } else {
        escaped(s[0]) + escaped_front(s.skip(1))
    }
}

proof fn escaped_behind(c: char, t: Seq<char>, n: int)
    requires
        0 <= n <= t.len(),
    ensures
        escaped_text(seq![c] + t, n + 1) == escaped(c) + escaped_text(t, n),
    decreases n,
{
    let s = seq![c] + t;
    if n == 0 {
        assert(escaped_text(s, 0) =~= Seq::empty());
        assert(escaped_text(s, 1) =~= escaped(c));
        assert(escaped_text(t, 0) =~= Seq::empty());
    } else {
        escaped_behind(c, t, n - 1);
        assert(s[n] == t[n - 1]);
        assert(escaped(c) + escaped_text(t, n - 1) + escaped(t[n - 1]) =~= escaped(c) + (
        escaped_text(t, n - 1) + escaped(t[n - 1])));
    }
}

proof fn escaped_from_front(s: Seq<char>)
    ensures
        escaped_text(s, s.len() as int) == escaped_front(s),
    decreases s.len(),
{
    if s.len() > 0 {
        let t = s.skip(1);
        escaped_from_front(t);
        escaped_behind(s[0], t, t.len() as int);
        assert(seq![s[0]] + t =~= s);
    }
}

proof fn denotes(s: Seq<char>)
    ensures
        denoted(escaped_front(s)) == s,
    decreases s.len(),
{
    reveal_strlit("\\\"");
    reveal_strlit("\\\\");
    reveal_strlit("\\n");
    if s.len() > 0 {
        let t = s.skip(1);
        denotes(t);
        let (e, rest) = (escaped(s[0]), escaped_front(t));
        let all = e + rest;
        if s[0] == '"' || s[0] == '\\' || s[0] == '\n' {
            assert(e.len() == 2);
            assert(all[0] == '\\' && all[1] == e[1]);
            assert(all.skip(2) =~= rest);
        } else {
            assert(e.len() == 1);
            assert(all[0] == s[0]);
            assert(all.skip(1) =~= rest);
        }
        assert(seq![s[0]] + t =~= s);
    }
}

/// Every tool that has a name can be called, with the parameters of its schema, in the order
/// in which they are declared.
pub proof fn every_named_tool_can_be_called(tools: Seq<JsonModel>, names: Seq<Seq<char>>, n: int)
    requires
        0 <= n <= tools.len(),
        names.len() == tools.len(),
        forall|i: int|
            0 <= i < tools.len() ==> (#[trigger] tools[i]).at("name"@) == Some(
                JsonModel::Text(names[i]),
            ),
    ensures
        shapes(tools, n).len() == n,
        forall|i: int|
            0 <= i < n ==> (#[trigger] shapes(tools, n)[i]).0 == names[i] && shapes(tools, n)[i].1
                == keys(prompt::properties_of(tools[i])),
    decreases n,
{
    if n > 0 {
        every_named_tool_can_be_called(tools, names, n - 1);
        assert(tools[n - 1].text_at("name"@) == Some(names[n - 1]));
    }
}

/// A tool without a name cannot be called.
pub proof fn nameless_tools_cannot_be_called(tools: Seq<JsonModel>, nameless: JsonModel)
    requires
        nameless.at("name"@) is None,
    ensures
        shapes(tools.push(nameless), tools.len() as int + 1) == shapes(tools, tools.len() as int),
{
    same_shapes(tools, nameless, tools.len() as int);
}

proof fn same_shapes(tools: Seq<JsonModel>, last: JsonModel, n: int)
    requires
        0 <= n <= tools.len(),
    ensures
        shapes(tools.push(last), n) == shapes(tools, n),
    decreases n,
{
    if n > 0 {
        same_shapes(tools, last, n - 1);
        assert(tools.push(last)[n - 1] == tools[n - 1]);
    }
}

proof fn held_behind(a: Seq<char>, b: Seq<char>, needle: Seq<char>)
    ensures
        text::contains(a, needle) ==> text::contains(a + b, needle),
        text::contains(b, needle) ==> text::contains(a + b, needle),
        text::contains(needle, needle),
{
    assert(needle.subrange(0, needle.len() as int) =~= needle);
    assert(text::occurs_at(needle, needle, 0));
    if text::contains(a, needle) {
        let i = choose|i: int| text::occurs_at(a, needle, i);
        assert((a + b).subrange(i, i + needle.len()) =~= a.subrange(i, i + needle.len()));
        assert(text::occurs_at(a + b, needle, i));
    }
    if text::contains(b, needle) {
        let i = choose|i: int| text::occurs_at(b, needle, i);
        let k = i + a.len();
        assert((a + b).subrange(k, k + needle.len()) =~= b.subrange(i, i + needle.len()));
        assert(text::occurs_at(a + b, needle, k));
    }
}

/// The rule of a tool lets the model open a call of that name, and the rule of a parameter
/// lets it write a value of that name.
pub proof fn tools_and_parameters_are_ruled(
    tools: Seq<(Seq<char>, Seq<Seq<char>>)>,
    i: int,
    k: int,
)
    requires
        0 <= i < tools.len(),
        0 <= k < tools[i].1.len(),
    ensures
        ({
            let (name, param) = (tools[i].0, tools[i].1[k]);
            let escaped_name = escaped_text(name, name.len() as int);
            let escaped_param = escaped_text(param, param.len() as int);
            &&& text::contains(
                grammar_text(tools),
                "func-"@ + rule_part(name) + " ::= \"<function="@ + escaped_name,
            )
            &&& text::contains(
                grammar_text(tools),
                "param-"@ + rule_part(name) + "-"@ + rule_part(param) + " ::= \"<parameter="@
                    + escaped_param + ">\\n\" "@ + state_rule("val"@, 0)
                    + " \"\\n</parameter>\\n\"\n"@,
            )
        }),
{
    let (name, params) = tools[i];
    let param = params[k];
    let start = "func-"@ + rule_part(name) + " ::= \"<function="@ + escaped_text(
        name,
        name.len() as int,
    );
    let rule = parameter_rule(name, param) + " ::= \"<parameter="@ + escaped_text(
        param,
        param.len() as int,
    ) + ">\\n\" "@ + state_rule("val"@, 0) + " \"\\n</parameter>\\n\"\n"@;
    let one = one_tool_rules(name, params);
    let middle = ">\\n\" ("@ + text::join(
        params.map_values(|p: Seq<char>| parameter_rule(name, p)),
        " | "@,
    ) + ")* \"</function>\"\n"@;
    let more = parameter_rules(name, params, params.len() as int);
    assert(one =~= start + (middle + more));
    held_behind(start, middle + more, start);
    parameter_is_ruled(name, params, params.len() as int, k);
    assert(one =~= start + middle + more);
    held_behind(start + middle, more, rule);
    one_tool_is_ruled(tools, tools.len() as int, i, start);
    one_tool_is_ruled(tools, tools.len() as int, i, rule);
    let all = tool_rules(tools, tools.len() as int);
    let front = "root ::= tool-call (\"\\n\" tool-call)* \"\\n\"?\ntool-call ::= \"<tool_call>\\n\" ("@
        + text::join(function_rules(tools), " | "@) + ") \"\\n</tool_call>\"\n"@ + state_rules(
        "val"@,
        "</parameter"@,
        "</parameter"@.len() as int,
    );
    assert(grammar_text(tools) == front + all);
    held_behind(front, all, start);
    held_behind(front, all, rule);
}

proof fn parameter_is_ruled(tool: Seq<char>, params: Seq<Seq<char>>, n: int, k: int)
    requires
        0 <= k < n <= params.len(),
    ensures
        text::contains(
            parameter_rules(tool, params, n),
            parameter_rule(tool, params[k]) + " ::= \"<parameter="@ + escaped_text(
                params[k],
                params[k].len() as int,
            ) + ">\\n\" "@ + state_rule("val"@, 0) + " \"\\n</parameter>\\n\"\n"@,
        ),
    decreases n,
{
    let before = parameter_rules(tool, params, n - 1);
    let last = parameter_rule(tool, params[n - 1]) + " ::= \"<parameter="@ + escaped_text(
        params[n - 1],
        params[n - 1].len() as int,
    ) + ">\\n\" "@ + state_rule("val"@, 0) + " \"\\n</parameter>\\n\"\n"@;
    assert(parameter_rules(tool, params, n) =~= before + last);
    if k < n - 1 {
        parameter_is_ruled(tool, params, n - 1, k);
        let rule = parameter_rule(tool, params[k]) + " ::= \"<parameter="@ + escaped_text(
            params[k],
            params[k].len() as int,
        ) + ">\\n\" "@ + state_rule("val"@, 0) + " \"\\n</parameter>\\n\"\n"@;
        held_behind(before, last, rule);
    } else {
        held_behind(before, last, last);
    }
}

proof fn one_tool_is_ruled(tools: Seq<(Seq<char>, Seq<Seq<char>>)>, n: int, i: int, needle: Seq<char>)
    requires
        0 <= i < n <= tools.len(),
        text::contains(one_tool_rules(tools[i].0, tools[i].1), needle),
    ensures
        text::contains(tool_rules(tools, n), needle),
    decreases n,
{
    let before = tool_rules(tools, n - 1);
    let last = one_tool_rules(tools[n - 1].0, tools[n - 1].1);
    if i < n - 1 {
        one_tool_is_ruled(tools, n - 1, i, needle);
    }
    held_behind(before, last, needle);
}

} // verus!
