//! A short line diff: which lines left and which came.

use crate::text;
use vstd::prelude::*;
use vstd::string::*;

verus! {

/// The length of the longest common subsequence of the lines of `a` from `i`
/// on and the lines of `b` from `j` on.
pub open spec fn common(a: Seq<Seq<char>>, b: Seq<Seq<char>>, i: int, j: int) -> nat
    decreases (a.len() - i) + (b.len() - j),
{
    if i < 0 || j < 0 || i >= a.len() || j >= b.len() {
        0
    } else if a[i] == b[j] {
        common(a, b, i + 1, j + 1) + 1
    } else if common(a, b, i + 1, j) >= common(a, b, i, j + 1) {
        common(a, b, i + 1, j)
    } else {
        common(a, b, i, j + 1)
    }
}

/// The changed lines between `a` from `i` on and `b` from `j` on: a line of `a`
/// alone is marked with a minus sign, one of `b` alone with a plus sign. Where
/// both would do, the line of `a` comes first if that loses no common line.
pub open spec fn changes(a: Seq<Seq<char>>, b: Seq<Seq<char>>, i: int, j: int) -> Seq<Seq<char>>
    decreases (a.len() - i) + (b.len() - j),
    when 0 <= i <= a.len() && 0 <= j <= b.len()
{
    if i == a.len() && j == b.len() {
        Seq::empty()
    } else if i < a.len() && j < b.len() && a[i] == b[j] {
        changes(a, b, i + 1, j + 1)
    } else if i < a.len() && (j == b.len() || common(a, b, i + 1, j) >= common(a, b, i, j + 1)) {
        seq![seq!['-'] + a[i]] + changes(a, b, i + 1, j)
    } else {
        seq![seq!['+'] + b[j]] + changes(a, b, i, j + 1)
    }
}

/// The diff marks as few lines as a longest common subsequence allows.
pub proof fn changes_are_fewest(a: Seq<Seq<char>>, b: Seq<Seq<char>>, i: int, j: int)
    requires
        0 <= i <= a.len(),
        0 <= j <= b.len(),
    ensures
        changes(a, b, i, j).len() + 2 * common(a, b, i, j) == (a.len() - i) + (b.len() - j),
    decreases (a.len() - i) + (b.len() - j),
{
    if i == a.len() && j == b.len() {
    } else if i < a.len() && j < b.len() && a[i] == b[j] {
        changes_are_fewest(a, b, i + 1, j + 1);
    } else if i < a.len() && (j == b.len() || common(a, b, i + 1, j) >= common(a, b, i, j + 1)) {
        changes_are_fewest(a, b, i + 1, j);
    } else {
        changes_are_fewest(a, b, i, j + 1);
    }
}

/// Texts with the same lines have an empty diff.
pub proof fn no_changes_between_equal_lines(a: Seq<Seq<char>>, i: int)
    requires
        0 <= i <= a.len(),
    ensures
        changes(a, a, i, i) == Seq::<Seq<char>>::empty(),
    decreases a.len() - i,
{
    if i < a.len() {
        no_changes_between_equal_lines(a, i + 1);
    }
}

/// What `short_diff` shows: the changed lines of two texts, and where there are
/// more than `max_lines` of them, so many and a count of the rest.
pub open spec fn short_diff_spec(old_str: Seq<char>, matched: Seq<char>, max_lines: nat) -> Seq<
    char,
> {
    let all = changes(text::lines(old_str), text::lines(matched), 0, 0);
    if all.len() > max_lines {
        text::join(
            all.take(max_lines as int).push(
                "... ("@ + text::decimal((all.len() - max_lines) as nat) + " more changed lines)"@,
            ),
            "\n"@,
        )
    } else {
        text::join(all, "\n"@)
    }
}

/// `row` holds the common lengths of the row of `i`, from the last column
/// backwards.
spec fn is_table_row(a: Seq<Seq<char>>, b: Seq<Seq<char>>, i: int, row: Seq<usize>) -> bool {
    forall|q: int|
        0 <= q < row.len() ==> #[trigger] row[q] == common(a, b, i, b.len() - 1 - q) && row[q] <= q
            + 1
}

/// `table` holds the rows of the common lengths, from the last row backwards.
spec fn is_table(a: Seq<Seq<char>>, b: Seq<Seq<char>>, table: Seq<Vec<usize>>) -> bool {
    forall|k: int|
        0 <= k < table.len() ==> is_table_row(a, b, a.len() - 1 - k, (#[trigger] table[k])@)
            && table[k]@.len() == b.len()
}

/// The common length of `a` from `i` on and `b` from `j` on.
fn look_up(
    table: &Vec<Vec<usize>>,
    n: usize,
    m: usize,
    i: usize,
    j: usize,
    Ghost(a): Ghost<Seq<Seq<char>>>,
    Ghost(b): Ghost<Seq<Seq<char>>>,
) -> (r: usize)
    requires
        i <= n == a.len(),
        j <= m == b.len(),
        n - i <= table@.len(),
        is_table(a, b, table@),
    ensures
        r == common(a, b, i as int, j as int),
        r <= m - j,
{
    if i == n || j == m {
        return 0;
    }
    assert(is_table_row(a, b, i as int, table@[n - i - 1]@));
    assert(table@[n - i - 1]@[m - j - 1] == common(a, b, i as int, j as int));
    table[n - i - 1][m - j - 1]
}

/// The common lengths of the row of `a[i]`, from the last column backwards.
fn table_row(a: &Vec<Vec<char>>, b: &Vec<Vec<char>>, i: usize, table: &Vec<Vec<usize>>) -> (r: Vec<
    usize,
>)
    requires
        i < a@.len(),
        table@.len() == a@.len() - i - 1,
        is_table(text::texts(a@), text::texts(b@), table@),
    ensures
        r@.len() == b@.len(),
        is_table_row(text::texts(a@), text::texts(b@), i as int, r@),
{
    let n: usize = a.len();
    let m: usize = b.len();
    let ghost ta = text::texts(a@);
    let ghost tb = text::texts(b@);
    let mut row: Vec<usize> = Vec::new();
    let mut q: usize = 0;
    while q < m
        invariant
            q <= m == b@.len(),
            i < n == a@.len(),
            ta == text::texts(a@),
            tb == text::texts(b@),
            table@.len() == n - i - 1,
            is_table(ta, tb, table@),
            row@.len() == q,
            is_table_row(ta, tb, i as int, row@),
        decreases m - q,
    {
        let j: usize = m - q - 1;
        assert(ta[i as int] == a@[i as int]@);
        assert(tb[j as int] == b@[j as int]@);
        let value: usize = if text::same_chars(a[i].as_slice(), b[j].as_slice()) {
            look_up(table, n, m, i + 1, j + 1, Ghost(ta), Ghost(tb)) + 1
        } else {
            let down: usize = look_up(table, n, m, i + 1, j, Ghost(ta), Ghost(tb));
            let right: usize = if q == 0 {
                0
            } else {
                row[q - 1]
            };
            assert(right == common(ta, tb, i as int, j + 1));
            if down >= right {
                down
            } else {
                right
            }
        };
        row.push(value);
        q += 1;
    }
    row
}

/// The marked lines between `a` and `b`.
fn marked_lines(a: &Vec<Vec<char>>, b: &Vec<Vec<char>>) -> (r: Vec<String>)
    ensures
        text::strings(r@) == changes(text::texts(a@), text::texts(b@), 0, 0),
{
    let n: usize = a.len();
    let m: usize = b.len();
    let ghost ta = text::texts(a@);
    let ghost tb = text::texts(b@);
    let mut table: Vec<Vec<usize>> = Vec::new();
    let mut k: usize = 0;
    while k < n
        invariant
            k <= n == a@.len(),
            m == b@.len(),
            ta == text::texts(a@),
            tb == text::texts(b@),
            table@.len() == k,
            is_table(ta, tb, table@),
        decreases n - k,
    {
        let row = table_row(a, b, n - k - 1, &table);
        table.push(row);
        k += 1;
    }
    let mut out: Vec<String> = Vec::new();
    let mut i: usize = 0;
    let mut j: usize = 0;
    assert(text::strings(out@) + changes(ta, tb, 0, 0) =~= changes(ta, tb, 0, 0));
    while i < n || j < m
        invariant
            i <= n == a@.len(),
            j <= m == b@.len(),
            ta == text::texts(a@),
            tb == text::texts(b@),
            table@.len() == n,
            is_table(ta, tb, table@),
            text::strings(out@) + changes(ta, tb, i as int, j as int) == changes(ta, tb, 0, 0),
        decreases (n - i) + (m - j),
    {
        let ghost before = text::strings(out@);
        assert(i < n ==> ta[i as int] == a@[i as int]@);
        assert(j < m ==> tb[j as int] == b@[j as int]@);
        if i < n && j < m && text::same_chars(a[i].as_slice(), b[j].as_slice()) {
            i += 1;
            j += 1;
        } else {
            let removes: bool = i < n && (j >= m || look_up(
                &table,
                n,
                m,
                i + 1,
                j,
                Ghost(ta),
                Ghost(tb),
            ) >= look_up(&table, n, m, i, j + 1, Ghost(ta), Ghost(tb)));
            let mut line = String::new();
            if removes {
                line.push('-');
                line.append(text::string_of(a[i].as_slice()).as_str());
                assert(line@ =~= seq!['-'] + ta[i as int]);
                i += 1;
            } else {
                line.push('+');
                line.append(text::string_of(b[j].as_slice()).as_str());
                assert(line@ =~= seq!['+'] + tb[j as int]);
                j += 1;
            }
            out.push(line);
            assert(text::strings(out@) =~= before.push(line@));
            assert(before + (seq![line@] + changes(ta, tb, i as int, j as int))
                =~= text::strings(out@) + changes(ta, tb, i as int, j as int));
        }
    }
    out
}

/// A short line diff of `old_str` against the matched text, of at most
/// `max_lines` lines and a line that counts the rest.
pub fn short_diff(old_str: &str, matched: &str, max_lines: usize) -> (r: String)
    ensures
        r@ == short_diff_spec(old_str@, matched@, max_lines as nat),
{
    let a = text::lines_of(text::chars_of(old_str).as_slice());
    let b = text::lines_of(text::chars_of(matched).as_slice());
    let mut out = marked_lines(&a, &b);
    let ghost all = text::strings(out@);
    if out.len() > max_lines {
        let rest: usize = out.len() - max_lines;
        out.truncate(max_lines);
        let mut tail = "... (".to_string();
        tail.append(text::decimal_string(rest as u128).as_str());
        tail.append(" more changed lines)");
        let ghost kept = text::strings(out@);
        out.push(tail);
        assert(kept =~= all.take(max_lines as int));
        assert(text::strings(out@) =~= kept.push(tail@));
    }
    text::join_strings(&out, "\n")
}

// ---------------------------------------------------------------------------
// Laws.

/// The lines of a diff that are marked so.
pub open spec fn marked(all: Seq<Seq<char>>, mark: char) -> Seq<Seq<char>>
    decreases all.len(),
{
    if all.len() == 0 {
        Seq::empty()
    } else if all[0].len() > 0 && all[0][0] == mark {
        seq![all[0].skip(1)] + marked(all.skip(1), mark)
    } else {
        marked(all.skip(1), mark)
    }
}

/// Whether `part` is `whole` without some of its lines.
pub open spec fn is_part_of(part: Seq<Seq<char>>, whole: Seq<Seq<char>>, from: int) -> bool
    decreases whole.len() - from,
{
    if part.len() == 0 {
        true
    } else if from < 0 || from >= whole.len() {
        false
    } else {
        (part[0] == whole[from] && is_part_of(part.skip(1), whole, from + 1)) || is_part_of(
            part,
            whole,
            from + 1,
        )
    }
}

/// What is marked as gone are lines of the first text and what is marked as new lines of the
/// second, in their order, and of each text just those lines are not marked that both have in
/// common.
pub proof fn diffs_name_lines_of_both(a: Seq<Seq<char>>, b: Seq<Seq<char>>, i: int, j: int)
    requires
        0 <= i <= a.len(),
        0 <= j <= b.len(),
    ensures
        is_part_of(marked(changes(a, b, i, j), '-'), a, i),
        is_part_of(marked(changes(a, b, i, j), '+'), b, j),
        marked(changes(a, b, i, j), '-').len() + common(a, b, i, j) == a.len() - i,
        marked(changes(a, b, i, j), '+').len() + common(a, b, i, j) == b.len() - j,
    decreases (a.len() - i) + (b.len() - j),
{
    let all = changes(a, b, i, j);
    if i == a.len() && j == b.len() {
    } else if i < a.len() && j < b.len() && a[i] == b[j] {
        diffs_name_lines_of_both(a, b, i + 1, j + 1);
    } else if i < a.len() && (j == b.len() || common(a, b, i + 1, j) >= common(a, b, i, j + 1)) {
        diffs_name_lines_of_both(a, b, i + 1, j);
        let rest = changes(a, b, i + 1, j);
        assert(all.skip(1) =~= rest);
        assert((seq!['-'] + a[i]).skip(1) =~= a[i]);
        let gone = marked(all, '-');
        assert(gone.skip(1) =~= marked(rest, '-'));
    } else {
        diffs_name_lines_of_both(a, b, i, j + 1);
        let rest = changes(a, b, i, j + 1);
        assert(all.skip(1) =~= rest);
        assert((seq!['+'] + b[j]).skip(1) =~= b[j]);
        let new = marked(all, '+');
        assert(new.skip(1) =~= marked(rest, '+'));
    }
}

/// A diff shows its changes one below the other; of more than fit, the first and how many
/// are left.
pub proof fn diffs_are_shown_up_to_a_limit(old_str: Seq<char>, matched: Seq<char>, max_lines: nat)
    ensures
        ({
            let all = changes(text::lines(old_str), text::lines(matched), 0, 0);
            let shown = short_diff_spec(old_str, matched, max_lines);
            &&& all.len() <= max_lines ==> shown == text::join(all, seq!['\n'])
            &&& all.len() > max_lines ==> shown == text::join(
                all.take(max_lines as int).push(
                    "... ("@ + text::decimal((all.len() - max_lines) as nat)
                        + " more changed lines)"@,
                ),
                seq!['\n'],
            )
        }),
{
    reveal_strlit("\n");
    assert("\n"@ =~= seq!['\n']);
}

} // verus!
