//! Settings as texts: what a value that is set means, and what holds where none is.

use crate::text;
use vstd::prelude::*;
use vstd::string::*;

verus! {

pub open spec fn value_text(value: Option<&str>) -> Option<Seq<char>> {
    match value {
        Some(v) => Some(v@),
        None => None,
    }
}

/// A value that is set to more than whitespace.
pub open spec fn filled(value: Option<Seq<char>>) -> Option<Seq<char>> {
    match value {
        Some(v) if !text::is_blank(v) => Some(v),
        _ => None,
    }
}

/// A value that is set to more than whitespace.
pub fn nonblank(value: Option<String>) -> (r: Option<String>)
    ensures
        text::optional(r) == filled(text::optional(value)),
{
    match value {
        Some(v) => if text::str_blank(v.as_str()) {
            None
        } else {
            Some(v)
        },
        None => None,
    }
}

pub open spec fn is_on(trimmed: Seq<char>) -> bool {
    trimmed == "1"@ || trimmed == "true"@ || trimmed == "on"@
}

pub(crate) fn on(trimmed: &str) -> (r: bool)
    ensures
        r == is_on(trimmed@),
{
    text::same_text(trimmed, "1") || text::same_text(trimmed, "true") || text::same_text(
        trimmed,
        "on",
    )
}

/// What a switch is set to: left open where it is absent or blank, on for `1`,
/// `true` and `on`, off for anything else.
pub open spec fn switch(value: Option<Seq<char>>) -> Option<bool> {
    match value {
        Some(v) => if text::trim(v).len() == 0 {
            None
        } else {
            Some(is_on(text::trim(v)))
        },
        None => None,
    }
}

/// What the vision setting says, for download and launch alike.
pub fn parse_vision_setting(value: Option<&str>) -> (r: Option<bool>)
    ensures
        r == switch(value_text(value)),
{
    match value {
        Some(v) => {
            let trimmed = text::str_trim(v);
            if trimmed.as_str().is_empty() {
                None
            } else {
                Some(on(trimmed.as_str()))
            }
        },
        None => None,
    }
}

/// The whole number that a value names, whitespace round it aside; else `usual`.
pub open spec fn number_or(value: Option<Seq<char>>, usual: u32) -> nat {
    match value {
        Some(v) => match text::parse_unsigned(text::trim(v), u32::MAX as nat) {
            Some(n) => n,
            None => usual as nat,
        },
        None => usual as nat,
    }
}

/// The whole number that a value names; else `usual`.
pub fn read_u32(value: Option<&str>, usual: u32) -> (r: u32)
    ensures
        r == number_or(value_text(value), usual),
{
    match value {
        Some(v) => {
            let cs = text::chars_of(v);
            let trimmed = text::trimmed(cs.as_slice());
            match text::read_unsigned(trimmed.as_slice(), u32::MAX as u64) {
                Some(n) => n as u32,
                None => usual,
            }
        },
        None => usual,
    }
}

/// Whether a value names a whole number, whitespace round it aside.
pub open spec fn is_number(value: Option<Seq<char>>) -> bool {
    value matches Some(v) && text::parse_unsigned(text::trim(v), u32::MAX as nat) is Some
}

/// What is said, once, where a limit had to be made up; nothing where it is set.
pub open spec fn limit_note(name: Seq<char>, value: Option<Seq<char>>, usual: u32) -> Option<
    Seq<char>,
> {
    if is_number(value) {
        None
    } else {
        Some(
            "millie: WARNING: "@ + name
                + " not set by catalog/config; using compiled fallback "@ + text::decimal(
                usual as nat,
            ),
        )
    }
}

/// What is said, once, where a limit had to be made up.
pub fn limit_warning(name: &str, value: Option<&str>, usual: u32) -> (r: Option<String>)
    ensures
        text::optional(r) == limit_note(name@, value_text(value), usual),
{
    if let Some(v) = value {
        let cs = text::chars_of(v);
        let trimmed = text::trimmed(cs.as_slice());
        if text::read_unsigned(trimmed.as_slice(), u32::MAX as u64).is_some() {
            return None;
        }
    }
    let mut out = "millie: WARNING: ".to_string();
    out.append(name);
    out.append(" not set by catalog/config; using compiled fallback ");
    out.append(text::decimal_string(usual as u128).as_str());
    Some(out)
}

pub const DEFAULT_PORT: u16 = 8090;

/// The port that a setting names: `own`, else `shared`, whichever is set to more than
/// whitespace first; the usual port where that is no port or neither is set.
pub open spec fn port_of(own: Option<Seq<char>>, shared: Option<Seq<char>>) -> nat {
    let named = match filled(own) {
        Some(v) => Some(v),
        None => filled(shared),
    };
    match named {
        Some(v) => match text::parse_unsigned(text::trim(v), u16::MAX as nat) {
            Some(n) => n,
            None => DEFAULT_PORT as nat,
        },
        None => DEFAULT_PORT as nat,
    }
}

/// The port of the managed server.
pub fn server_port(own: Option<String>, shared: Option<String>) -> (r: u16)
    ensures
        r == port_of(text::optional(own), text::optional(shared)),
{
    let named = match nonblank(own) {
        Some(v) => Some(v),
        None => nonblank(shared),
    };
    match named {
        Some(v) => {
            let cs = text::chars_of(v.as_str());
            let trimmed = text::trimmed(cs.as_slice());
            match text::read_unsigned(trimmed.as_slice(), u16::MAX as u64) {
                Some(n) => n as u16,
                None => DEFAULT_PORT,
            }
        },
        None => DEFAULT_PORT,
    }
}

/// The truth value that a value spells out, whitespace round it aside; else
/// `usual`.
pub open spec fn flag_or(value: Option<Seq<char>>, usual: bool) -> bool {
    match value {
        Some(v) => if text::trim(v) == "true"@ {
            true
        } else if text::trim(v) == "false"@ {
            false
        } else {
            usual
        },
        None => usual,
    }
}

/// The truth value that a value spells out; else `usual`.
pub fn read_bool(value: Option<&str>, usual: bool) -> (r: bool)
    ensures
        r == flag_or(value_text(value), usual),
{
    match value {
        Some(v) => {
            let trimmed = text::str_trim(v);
            if text::same_text(trimmed.as_str(), "true") {
                true
            } else if text::same_text(trimmed.as_str(), "false") {
                false
            } else {
                usual
            }
        },
        None => usual,
    }
}

/// The name under which a model is served; `millie` where none is set.
pub fn served_model(value: Option<String>) -> (r: String)
    ensures
        r@ == match filled(text::optional(value)) {
            Some(v) => v,
            None => "millie"@,
        },
{
    match nonblank(value) {
        Some(v) => v,
        None => "millie".to_string(),
    }
}

// ---------------------------------------------------------------------------
// Numbers that must be right.

/// Why a text is no number.
#[derive(Debug, Clone, Copy, PartialEq, Eq, Structural)]
pub enum NumberError {
    Empty,
    InvalidDigit,
    TooLarge,
}

impl NumberError {
    pub open spec fn words(self) -> Seq<char> {
        match self {
            NumberError::Empty => "cannot parse integer from empty string"@,
            NumberError::InvalidDigit => "invalid digit found in string"@,
            NumberError::TooLarge => "number too large to fit in target type"@,
        }
    }

    /// Why a text is no number, in words.
    pub fn message(self) -> (r: String)
        ensures
            r@ == self.words(),
    {
        match self {
            NumberError::Empty => "cannot parse integer from empty string".to_string(),
            NumberError::InvalidDigit => "invalid digit found in string".to_string(),
            NumberError::TooLarge => "number too large to fit in target type".to_string(),
        }
    }
}

/// The number that digits denote, from `i` on with `so_far` before them.
pub open spec fn digits_from(d: Seq<char>, i: int, so_far: nat) -> Result<nat, NumberError>
    decreases d.len() - i,
{
    if i >= d.len() {
        Ok(so_far)
    } else if !text::is_digit(d[i]) {
        Err(NumberError::InvalidDigit)
    } else {
        let next = so_far * 10 + text::digit_value(d[i]);
        if next > u32::MAX {
            Err(NumberError::TooLarge)
        } else {
            digits_from(d, i + 1, next)
        }
    }
}

/// The number that a text denotes, one plus sign before it allowed; else what is
/// wrong with it first.
pub open spec fn number_of(s: Seq<char>) -> Result<nat, NumberError> {
    if s.len() == 0 {
        Err(NumberError::Empty)
    } else if s.len() == 1 && (s[0] == '+' || s[0] == '-') {
        Err(NumberError::InvalidDigit)
    } else if s[0] == '+' {
        digits_from(s, 1, 0)
    } else {
        digits_from(s, 0, 0)
    }
}

/// The number that a text denotes; else what is wrong with it first.
pub fn parse_number(cs: &[char]) -> (r: Result<u32, NumberError>)
    ensures
        match number_of(cs@) {
            Ok(n) => r matches Ok(m) && m == n,
            Err(e) => r == Err::<u32, NumberError>(e),
        },
{
    let n: usize = cs.len();
    if n == 0 {
        return Err(NumberError::Empty);
    }
    if n == 1 && (cs[0] == '+' || cs[0] == '-') {
        return Err(NumberError::InvalidDigit);
    }
    let mut i: usize = if cs[0] == '+' {
        1
    } else {
        0
    };
    let mut value: u32 = 0;
    while i < n
        invariant
            i <= n == cs@.len(),
            number_of(cs@) == digits_from(cs@, i as int, value as nat),
        decreases n - i,
    {
        let c = cs[i];
        if !('0' <= c && c <= '9') {
            return Err(NumberError::InvalidDigit);
        }
        let next: u64 = value as u64 * 10 + (c as u32 - '0' as u32) as u64;
        assert(next == value * 10 + text::digit_value(c));
        if next > u32::MAX as u64 {
            return Err(NumberError::TooLarge);
        }
        value = next as u32;
        i += 1;
    }
    Ok(value)
}

/// The numbers that the first `n` parts denote, whitespace round each aside.
pub open spec fn numbers_of(parts: Seq<Seq<char>>, n: int) -> Result<Seq<u32>, NumberError>
    decreases n,
{
    if n <= 0 {
        Ok(Seq::empty())
    } else {
        match numbers_of(parts, n - 1) {
            Err(e) => Err(e),
            Ok(before) => match number_of(text::trim(parts[n - 1])) {
                Ok(v) => Ok(before.push(v as u32)),
                Err(e) => Err(e),
            },
        }
    }
}

/// The numbers of a list with commas; else what is wrong with it first.
pub fn parse_numbers(list: &str) -> (r: Result<Vec<u32>, NumberError>)
    ensures
        ({
            let parts = text::split_on(list@, ',');
            match numbers_of(parts, parts.len() as int) {
                Ok(v) => r matches Ok(w) && w@ == v,
                Err(e) => r matches Err(f) && f == e,
            }
        }),
{
    let cs = text::chars_of(list);
    let parts = text::split_chars(cs.as_slice(), ',');
    let ghost all = text::texts(parts@);
    let mut out: Vec<u32> = Vec::new();
    let mut i: usize = 0;
    assert(out@ =~= Seq::empty());
    while i < parts.len()
        invariant
            i <= parts@.len(),
            all == text::texts(parts@),
            all == text::split_on(list@, ','),
            numbers_of(all, i as int) == Ok::<Seq<u32>, NumberError>(out@),
        decreases parts@.len() - i,
    {
        let trimmed = text::trimmed(parts[i].as_slice());
        assert(trimmed@ == text::trim(all[i as int]));
        match parse_number(trimmed.as_slice()) {
            Ok(v) => {
                out.push(v);
            },
            Err(e) => {
                proof {
                    numbers_stop(all, i + 1, all.len() as int);
                }
                return Err(e);
            },
        }
        i += 1;
    }
    Ok(out)
}

proof fn numbers_stop(parts: Seq<Seq<char>>, m: int, n: int)
    requires
        0 <= m <= n,
        numbers_of(parts, m) is Err,
    ensures
        numbers_of(parts, n) == numbers_of(parts, m),
    decreases n,
{
    if m < n {
        numbers_stop(parts, m, n - 1);
    }
}

// ---------------------------------------------------------------------------
// Values of last resort.

pub const FALLBACK_THINKING_BUDGET: u32 = 1024;

pub const FALLBACK_MAX_OUTPUT_TOKENS: u32 = 8192;

/// The number of tokens that the model may think for.
pub fn thinking_budget(value: Option<&str>) -> (r: u32)
    ensures
        r == number_or(value_text(value), FALLBACK_THINKING_BUDGET),
{
    read_u32(value, FALLBACK_THINKING_BUDGET)
}

/// The number of tokens that the model may answer with.
pub fn max_output_tokens(value: Option<&str>) -> (r: u32)
    ensures
        r == number_or(value_text(value), FALLBACK_MAX_OUTPUT_TOKENS),
{
    read_u32(value, FALLBACK_MAX_OUTPUT_TOKENS)
}

/// Sampling values as they are shown.
#[derive(Debug)]
pub struct ShownSampling {
    pub temperature: String,
    pub min_p: String,
    pub top_k: String,
    pub top_p: String,
}

/// What is said, once, where sampling values had to be made up; nothing where all of
/// them are set.
pub open spec fn fallback_warning(missing: Seq<Seq<char>>, s: ShownSampling) -> Option<Seq<char>> {
    if missing.len() == 0 {
        None
    } else {
        Some(
            "millie: WARNING: sampling parameter(s) ["@ + text::join(missing, ", "@)
                + "] not set by catalog/config; using compiled fallback (temp "@
                + s.temperature@ + ", min_p "@ + s.min_p@ + ", top_k "@ + s.top_k@ + ", top_p "@
                + s.top_p@ + ")"@,
        )
    }
}

/// What is said where sampling values had to be made up. `missing` names them.
pub fn sampling_warning(missing: &Vec<String>, s: &ShownSampling) -> (r: Option<String>)
    ensures
        text::optional(r) == fallback_warning(text::strings(missing@), *s),
{
    assert(text::strings(missing@).len() == missing@.len());
    if missing.len() == 0 {
        return None;
    }
    let mut m = "millie: WARNING: sampling parameter(s) [".to_string();
    m.append(text::join_strings(missing, ", ").as_str());
    m.append("] not set by catalog/config; using compiled fallback (temp ");
    m.append(s.temperature.as_str());
    m.append(", min_p ");
    m.append(s.min_p.as_str());
    m.append(", top_k ");
    m.append(s.top_k.as_str());
    m.append(", top_p ");
    m.append(s.top_p.as_str());
    m.append(")");
    Some(m)
}

/// The version that the program reports: the one it was stamped with, else the one of
/// the sources, marked as a development build and with the commit where it is known.
pub open spec fn version(
    stamped: Option<Seq<char>>,
    base: Seq<char>,
    commit: Option<Seq<char>>,
    dirty: bool,
) -> Seq<char> {
    match filled(stamped) {
        Some(v) => v,
        None => match commit {
            Some(h) => base + "-dev+g"@ + h + (if dirty {
                ".dirty"@
            } else {
                Seq::empty()
            }),
            None => base + "-dev"@,
        },
    }
}

/// The version that the program reports.
pub fn version_string(stamped: Option<&str>, base: &str, commit: Option<&str>, dirty: bool) -> (r: String)
    ensures
        r@ == version(value_text(stamped), base@, value_text(commit), dirty),
{
    match stamped {
        Some(v) => {
            if !text::str_blank(v) {
                return v.to_string();
            }
        },
        None => {},
    }
    let mut out = base.to_string();
    match commit {
        Some(h) => {
            out.append("-dev+g");
            out.append(h);
            if dirty {
                out.append(".dirty");
            } else {
                assert(out@ + Seq::<char>::empty() =~= out@);
            }
        },
        None => {
            out.append("-dev");
        },
    }
    out
}

// ---------------------------------------------------------------------------
// Laws.

/// A number that is set is read, whatever blanks are around it; where none is set, or what is
/// set is no number or too large a one, the usual one holds, and only then is that told.
pub proof fn numbers_that_are_set_hold(
    n: nat,
    usual: u32,
    a: Seq<char>,
    b: Seq<char>,
    name: Seq<char>,
    other: Seq<char>,
)
    requires
        text::is_blank(a),
        text::is_blank(b),
    ensures
        ({
            let set = Some(a + text::decimal(n) + b);
            &&& number_or(set, usual) == if n <= u32::MAX {
                n
            } else {
                usual as nat
            }
            &&& limit_note(name, set, usual) is None <==> n <= u32::MAX
        }),
        number_or(None, usual) == usual,
        limit_note(name, None, usual) is Some,
        (exists|i: int|
            0 <= i < text::trim(other).len() && text::trim(other)[i] != '+' && !text::is_digit(
                #[trigger] text::trim(other)[i],
            )) || text::is_blank(other) ==> number_or(Some(other), usual) == usual && limit_note(
            name,
            Some(other),
            usual,
        ) is Some,
{
    text::numerals_are_not_trimmed(n, a, b);
    text::numbers_are_read_back(n, u32::MAX as nat, Seq::empty());
    assert(Seq::<char>::empty() + text::decimal(n) =~= text::decimal(n));
    text::trim_of_blank(other);
    if text::parse_unsigned(text::trim(other), u32::MAX as nat) is Some {
        let t = text::trim(other);
        assert forall|i: int| 0 <= i < t.len() implies t[i] == '+' || text::is_digit(
            #[trigger] t[i],
        ) by {
            text::only_numerals_are_numbers(t, u32::MAX as nat, i);
        }
    }
}

/// A note names the setting and the number that holds in its place.
pub proof fn notes_name_the_setting(name: Seq<char>, usual: u32)
    ensures
        limit_note(name, None, usual) matches Some(note) && text::ends_in(
            note,
            text::decimal(usual as nat),
        ) && note.subrange("millie: WARNING: "@.len() as int, "millie: WARNING: "@.len() as int + name.len())
            == name,
{
    let note = limit_note(name, None, usual).unwrap();
    let d = text::decimal(usual as nat);
    assert(note.skip(note.len() - d.len()) =~= d);
    assert(note.subrange("millie: WARNING: "@.len() as int, "millie: WARNING: "@.len() as int + name.len())
        =~= name);
}

/// A switch that is not set, or set to nothing, leaves the choice open; one that is set is on
/// where it says so, and off where it says anything else.
pub proof fn switches_say_on(a: Seq<char>, s: Seq<char>, b: Seq<char>)
    requires
        text::is_blank(a),
        text::is_blank(b),
        s.len() > 0,
        !text::is_white(s[0]),
        !text::is_white(s.last()),
    ensures
        switch(None) is None,
        switch(Some(a)) is None,
        switch(Some(a + s + b)) == Some(s == "1"@ || s == "true"@ || s == "on"@),
        flag_or(None, true) && !flag_or(None, false),
        flag_or(Some(a + s + b), true) <==> s != "false"@,
        flag_or(Some(a + s + b), false) <==> s == "true"@,
{
    text::trim_takes_off_the_white(a, s, b);
    text::trim_of_blank(a);
    reveal_strlit("true");
    reveal_strlit("false");
    assert("true"@.len() == 4 && "false"@.len() == 5);
}

/// The port is the one set for this program, else the one set for both, else the usual one;
/// a setting that is blank counts as none.
pub proof fn ports_are_looked_up_in_turn(n: nat, m: nat, blank: Seq<char>, shared: Option<Seq<char>>)
    requires
        n <= u16::MAX,
        m <= u16::MAX,
        text::is_blank(blank),
    ensures
        port_of(Some(text::decimal(n)), shared) == n,
        port_of(None, Some(text::decimal(m))) == m,
        port_of(Some(blank), Some(text::decimal(m))) == m,
        port_of(None, None) == 8090,
        port_of(None, Some(blank)) == 8090,
        port_of(Some(blank), None) == 8090,
        port_of(Some(text::decimal(65536 + n)), shared) == 8090,
{
    let none = Seq::<char>::empty();
    text::numerals_are_not_trimmed(n, none, none);
    text::numerals_are_not_trimmed(m, none, none);
    text::numerals_are_not_trimmed(65536 + n, none, none);
    text::numbers_are_read_back(n, u16::MAX as nat, none);
    text::numbers_are_read_back(m, u16::MAX as nat, none);
    text::numbers_are_read_back(65536 + n, u16::MAX as nat, none);
    assert(none + text::decimal(n) =~= text::decimal(n));
    assert(none + text::decimal(m) =~= text::decimal(m));
    assert(none + text::decimal(65536 + n) =~= text::decimal(65536 + n));
    assert(!text::is_blank(text::decimal(n))) by {
        text::white_below_delete(text::decimal(n)[0]);
    }
    assert(!text::is_blank(text::decimal(m))) by {
        text::white_below_delete(text::decimal(m)[0]);
    }
    assert(!text::is_blank(text::decimal(65536 + n))) by {
        text::white_below_delete(text::decimal(65536 + n)[0]);
    }
}

/// A value counts as set exactly where it holds something that is not white, and is then
/// taken as it is.
pub proof fn blank_values_are_no_values(v: Seq<char>)
    ensures
        filled(None) is None,
        filled(Some(v)) is Some <==> exists|i: int| 0 <= i < v.len() && !text::is_white(#[trigger] v[i]),
        filled(Some(v)) matches Some(w) ==> w == v,
{
}

proof fn digits_are_added_up(d: Seq<char>, i: int, so_far: nat)
    requires
        0 <= i <= d.len(),
        so_far == text::digits_value(d.take(i)),
        text::all_digits(d.take(i)),
        so_far <= u32::MAX,
    ensures
        match digits_from(d, i, so_far) {
            Ok(n) => text::all_digits(d) && text::digits_value(d) == n && n <= u32::MAX,
            Err(NumberError::TooLarge) => exists|k: int|
                i < k <= d.len() && text::all_digits(#[trigger] d.take(k)) && text::digits_value(
                    d.take(k),
                ) > u32::MAX,
            Err(NumberError::InvalidDigit) => !text::all_digits(d),
            Err(NumberError::Empty) => false,
        },
    decreases d.len() - i,
{
    if i >= d.len() {
        assert(d.take(i) =~= d);
    } else if text::is_digit(d[i]) {
        let next = so_far * 10 + text::digit_value(d[i]);
        let t = d.take(i + 1);
        assert(t.drop_last() =~= d.take(i));
        assert(t.last() == d[i]);
        assert(text::digits_value(t) == next);
        assert(text::all_digits(t)) by {
            assert forall|k: int| 0 <= k < t.len() implies text::is_digit(#[trigger] t[k]) by {
                if k < i {
                    assert(t[k] == d.take(i)[k]);
                }
            }
        }
        if next <= u32::MAX {
            digits_are_added_up(d, i + 1, next);
        }
    } else if text::all_digits(d) {
        assert(text::is_digit(d[i]));
    }
}

/// A number of 32 bits is read from its numeral, with leading zeros or a plus sign too; a
/// larger one is too large, a text with anything but digits is invalid unless it is too large
/// before that, and an empty one says that it is.
pub proof fn numerals_are_read_or_refused(s: Seq<char>, n: nat)
    ensures
        number_of(text::decimal(n)) == if n <= u32::MAX {
            Ok::<nat, NumberError>(n)
        } else {
            Err::<nat, NumberError>(NumberError::TooLarge)
        },
        number_of(seq!['+'] + text::decimal(n)) == number_of(text::decimal(n)),
        number_of(s) matches Ok(v) ==> text::parse_unsigned(s, u32::MAX as nat) == Some(v),
        text::parse_unsigned(s, u32::MAX as nat) matches Some(v) ==> number_of(s) == Ok::<
            nat,
            NumberError,
        >(v),
        number_of(s) == Err::<nat, NumberError>(NumberError::Empty) <==> s.len() == 0,
{
    let none = Seq::<char>::empty();
    let d = text::decimal(n);
    text::numerals_are_not_trimmed(n, none, none);
    text::decimal_is_read_back(n);
    read_from_front(d);
    let plus = seq!['+'] + d;
    read_behind_plus(plus);
    assert(plus.skip(1) =~= d);
    if s.len() > 0 {
        if s[0] == '+' && s.len() > 1 {
            read_behind_plus(s);
        } else {
            read_from_front(s);
            if s.len() == 1 && (s[0] == '+' || s[0] == '-') {
                assert(!text::is_digit(s[0]));
                assert(s[0] == '+' ==> s.skip(1).len() == 0);
            }
        }
    }
}

proof fn read_from_front(d: Seq<char>)
    ensures
        match digits_from(d, 0, 0) {
            Ok(n) => text::all_digits(d) && text::digits_value(d) == n && n <= u32::MAX,
            Err(NumberError::TooLarge) => text::all_digits(d) ==> text::digits_value(d) > u32::MAX,
            Err(NumberError::InvalidDigit) => !text::all_digits(d),
            Err(NumberError::Empty) => false,
        },
{
    assert(d.take(0) =~= Seq::empty());
    digits_are_added_up(d, 0, 0);
    if digits_from(d, 0, 0) == Err::<nat, NumberError>(NumberError::TooLarge) {
        let k = choose|k: int|
            0 < k <= d.len() && text::all_digits(#[trigger] d.take(k)) && text::digits_value(
                d.take(k),
            ) > u32::MAX;
        text::digits_value_grows(d, k);
    }
}

proof fn read_behind_plus(s: Seq<char>)
    requires
        s.len() > 1,
        s[0] == '+',
    ensures
        digits_from(s, 1, 0) == digits_from(s.skip(1), 0, 0),
        match digits_from(s, 1, 0) {
            Ok(n) => text::all_digits(s.skip(1)) && text::digits_value(s.skip(1)) == n && n <= u32::MAX,
            Err(NumberError::TooLarge) => text::all_digits(s.skip(1)) ==> text::digits_value(s.skip(1))
                > u32::MAX,
            Err(NumberError::InvalidDigit) => !text::all_digits(s.skip(1)),
            Err(NumberError::Empty) => false,
        },
{
    shifted(s, 1, 0);
    read_from_front(s.skip(1));
}

proof fn shifted(s: Seq<char>, i: int, so_far: nat)
    requires
        1 <= i <= s.len(),
    ensures
        digits_from(s, i, so_far) == digits_from(s.skip(1), i - 1, so_far),
    decreases s.len() - i,
{
    if i < s.len() && text::is_digit(s[i]) {
        assert(s.skip(1)[i - 1] == s[i]);
        let next = so_far * 10 + text::digit_value(s[i]);
        if next <= u32::MAX {
            shifted(s, i + 1, next);
        }
    }
}

/// A list of numbers with commas between them is read back.
pub proof fn lists_of_numbers_are_read_back(numbers: Seq<u32>)
    requires
        numbers.len() > 0,
    ensures
        ({
            let list = text::join(
                numbers.map_values(|n: u32| text::decimal(n as nat)),
                seq![','],
            );
            let parts = text::split_on(list, ',');
            numbers_of(parts, parts.len() as int) == Ok::<Seq<u32>, NumberError>(numbers)
        }),
{
    let parts = numbers.map_values(|n: u32| text::decimal(n as nat));
    assert forall|k: int, i: int|
        0 <= k < parts.len() && 0 <= i < parts[k].len() implies #[trigger] parts[k][i] != ',' by {
        text::numerals_are_not_trimmed(numbers[k] as nat, Seq::empty(), Seq::empty());
        assert(parts[k] == text::decimal(numbers[k] as nat));
    }
    text::parts_are_cut_again(parts, ',');
    read_upto(numbers, parts, numbers.len() as int);
    assert(numbers.take(numbers.len() as int) =~= numbers);
}

proof fn read_upto(numbers: Seq<u32>, parts: Seq<Seq<char>>, n: int)
    requires
        0 <= n <= numbers.len(),
        parts == numbers.map_values(|n: u32| text::decimal(n as nat)),
    ensures
        numbers_of(parts, n) == Ok::<Seq<u32>, NumberError>(numbers.take(n)),
    decreases n,
{
    if n > 0 {
        read_upto(numbers, parts, n - 1);
        let none = Seq::<char>::empty();
        assert(none + text::decimal(numbers[n - 1] as nat) + none =~= text::decimal(
            numbers[n - 1] as nat,
        ));
        text::numerals_are_not_trimmed(numbers[n - 1] as nat, Seq::empty(), Seq::empty());
        numerals_are_read_or_refused(Seq::empty(), numbers[n - 1] as nat);
        assert(parts[n - 1] == text::decimal(numbers[n - 1] as nat));
        assert(number_of(text::trim(parts[n - 1])) == Ok::<nat, NumberError>(numbers[n - 1] as nat));
        assert(numbers_of(parts, n) == Ok::<Seq<u32>, NumberError>(
            numbers.take(n - 1).push(numbers[n - 1]),
        ));
        assert(numbers.take(n) =~= numbers.take(n - 1).push(numbers[n - 1]));
    } else {
        assert(numbers.take(0) =~= Seq::empty());
    }
}

/// A version that was stamped is the version; one that was not begins with the base and
/// names the commit where there is one, and whether anything was changed since.
pub proof fn versions_name_the_commit(
    v: Seq<char>,
    blank: Seq<char>,
    base: Seq<char>,
    commit: Seq<char>,
)
    requires
        !text::is_blank(v),
        text::is_blank(blank),
    ensures
        forall|c: Option<Seq<char>>, d: bool| #[trigger] version(Some(v), base, c, d) == v,
        version(None, base, None, true) == base + "-dev"@,
        version(Some(blank), base, None, false) == base + "-dev"@,
        version(None, base, Some(commit), false) == base + "-dev+g"@ + commit,
        version(None, base, Some(commit), true) == base + "-dev+g"@ + commit + ".dirty"@,
{
}

} // verus!
