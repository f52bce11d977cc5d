//! The served system prompt: a text file that is looked up at run time. A session
//! never starts on a prompt that nobody chose.

use crate::text;
use vstd::prelude::*;
use vstd::string::*;

verus! {

/// The prompt and where it came from.
#[derive(Debug, PartialEq, Eq)]
pub struct ResolvedSystemPrompt {
    pub text: String,
    pub path: String,
}

/// What kind of error a lookup ends in.
#[derive(Debug, Clone, Copy, PartialEq, Eq, Structural)]
pub enum LookupErrorKind {
    NotFound,
    InvalidData,
    /// The error that reading gave.
    Read,
}

/// Why a lookup failed.
#[derive(Debug)]
pub struct LookupError {
    pub kind: LookupErrorKind,
    pub message: String,
}

/// Where a file is looked for.
pub open spec fn places(
    explicit: Option<Seq<char>>,
    home: Seq<char>,
    exe_dir: Option<Seq<char>>,
    checkout: Option<Seq<char>>,
    name: Seq<char>,
) -> Seq<Seq<char>> {
    (match explicit {
        Some(p) => seq![p],
        None => Seq::empty(),
    }) + seq![text::path_under(home, name)] + (match exe_dir {
        Some(d) => seq![text::path_under(d, name)],
        None => Seq::empty(),
    }) + match checkout {
        Some(p) => seq![p],
        None => Seq::empty(),
    }
}

pub open spec fn explicit_missing(variable: Seq<char>, path: Seq<char>) -> Seq<char> {
    variable + " is set to "@ + path + " but no such file exists"@
}

/// Where a file is looked for: the place that is set, the home, beside the program,
/// in a checkout. A place that is set and is no file is an error: nothing else is
/// looked for in its stead.
pub fn candidates(
    explicit: &Option<String>,
    explicit_is_file: bool,
    home: &str,
    exe_dir: &Option<String>,
    checkout: &Option<String>,
    variable: &str,
    name: &str,
) -> (r: Result<Vec<String>, LookupError>)
    ensures
        if explicit is Some && !explicit_is_file {
            r matches Err(e) && e.kind == LookupErrorKind::NotFound && e.message@
                == explicit_missing(variable@, explicit.unwrap()@)
        } else {
            r matches Ok(v) && text::strings(v@) == places(
                text::optional(*explicit),
                home@,
                text::optional(*exe_dir),
                text::optional(*checkout),
                name@,
            )
        },
{
    let mut out: Vec<String> = Vec::new();
    assert(text::strings(out@) =~= Seq::empty());
    match explicit {
        Some(p) => {
            if !explicit_is_file {
                let mut m = variable.to_string();
                m.append(" is set to ");
                m.append(p.as_str());
                m.append(" but no such file exists");
                return Err(LookupError { kind: LookupErrorKind::NotFound, message: m });
            }
            out.push(p.clone());
        },
        None => {},
    }
    out.push(text::join_path(home, name));
    match exe_dir {
        Some(d) => {
            out.push(text::join_path(d.as_str(), name));
        },
        None => {},
    }
    match checkout {
        Some(p) => {
            out.push(p.clone());
        },
        None => {},
    }
    assert(text::strings(out@) =~= places(
        text::optional(*explicit),
        home@,
        text::optional(*exe_dir),
        text::optional(*checkout),
        name@,
    ));
    Ok(out)
}

/// What reading a place gave.
#[derive(Debug)]
pub enum ReadOutcome {
    Text(String),
    Missing,
    Failed(String),
}

/// What to do behind a read.
#[derive(Debug)]
pub enum PromptStep {
    Found(ResolvedSystemPrompt),
    TryNext,
    Fail(LookupError),
}

/// Takes what reading a place gave: a prompt ends the lookup, and so does an empty
/// file or an error; only a place without a file is passed over.
pub fn prompt_step(path: &str, outcome: ReadOutcome) -> (r: PromptStep)
    ensures
        match outcome {
            ReadOutcome::Text(t) => if text::is_blank(t@) {
                r matches PromptStep::Fail(e) && e.kind == LookupErrorKind::InvalidData
                    && e.message@ == "system prompt file "@ + path@ + " is empty"@
            } else {
                r matches PromptStep::Found(p) && p.text@ == t@ && p.path@ == path@
            },
            ReadOutcome::Missing => r is TryNext,
            ReadOutcome::Failed(m) => r matches PromptStep::Fail(e) && e.kind
                == LookupErrorKind::Read && e.message@ == "failed to read system prompt "@ + path@
                + ": "@ + m@,
        },
{
    match outcome {
        ReadOutcome::Text(t) => {
            if text::str_blank(t.as_str()) {
                let mut m = "system prompt file ".to_string();
                m.append(path);
                m.append(" is empty");
                PromptStep::Fail(LookupError { kind: LookupErrorKind::InvalidData, message: m })
            } else {
                PromptStep::Found(ResolvedSystemPrompt { text: t, path: path.to_string() })
            }
        },
        ReadOutcome::Missing => PromptStep::TryNext,
        ReadOutcome::Failed(e) => {
            let mut m = "failed to read system prompt ".to_string();
            m.append(path);
            m.append(": ");
            m.append(e.as_str());
            PromptStep::Fail(LookupError { kind: LookupErrorKind::Read, message: m })
        },
    }
}

/// The first `n` places as a list.
pub open spec fn place_list(paths: Seq<Seq<char>>, n: int) -> Seq<char>
    decreases n,
{
    if n <= 0 {
        Seq::empty()
    } else if n == 1 {
        "  "@ + paths[0]
    } else {
        place_list(paths, n - 1) + "\n"@ + ("  "@ + paths[n - 1])
    }
}

/// The message where nothing was found: what was looked for, and where.
pub open spec fn nothing_found(
    what: Seq<char>,
    name: Seq<char>,
    variable: Seq<char>,
    paths: Seq<Seq<char>>,
) -> Seq<char> {
    "no "@ + what + " found. Looked for "@ + name + " at:\n"@ + place_list(
        paths,
        paths.len() as int,
    ) + "\nSet "@ + variable + "=<file> or place the file in one of those locations."@
}

/// The message where nothing was found.
pub fn not_found(what: &str, name: &str, variable: &str, paths: &Vec<String>) -> (r: LookupError)
    ensures
        r.kind == LookupErrorKind::NotFound,
        r.message@ == nothing_found(what@, name@, variable@, text::strings(paths@)),
{
    let ghost all = text::strings(paths@);
    let mut list = String::new();
    let mut i: usize = 0;
    assert(list@ =~= Seq::empty());
    while i < paths.len()
        invariant
            i <= paths@.len(),
            all == text::strings(paths@),
            list@ == place_list(all, i as int),
        decreases paths@.len() - i,
    {
        let mut entry = "  ".to_string();
        entry.append(paths[i].as_str());
        assert(entry@ == "  "@ + all[i as int]);
        if i > 0 {
            list.append("\n");
        }
        let ghost before = list@;
        list.append(entry.as_str());
        i += 1;
        assert(list@ =~= place_list(all, i as int));
    }
    let mut m = "no ".to_string();
    m.append(what);
    m.append(" found. Looked for ");
    m.append(name);
    m.append(" at:\n");
    m.append(list.as_str());
    m.append("\nSet ");
    m.append(variable);
    m.append("=<file> or place the file in one of those locations.");
    LookupError { kind: LookupErrorKind::NotFound, message: m }
}

/// The prompt that a lookup gave, for a caller that cannot go on without one.
pub fn resolve_system_prompt_for_tests(found: Result<ResolvedSystemPrompt, LookupError>) -> (r:
    ResolvedSystemPrompt)
    requires
        found is Ok,
    ensures
        found == Ok::<ResolvedSystemPrompt, LookupError>(r),
{
    match found {
        Ok(p) => p,
        Err(e) => ResolvedSystemPrompt { text: String::new(), path: e.message },
    }
}

/// A place that is set is the first that is looked at, and the home comes before the
/// program and a checkout.
pub proof fn chosen_places_come_first(
    explicit: Option<Seq<char>>,
    home: Seq<char>,
    exe_dir: Option<Seq<char>>,
    checkout: Option<Seq<char>>,
    name: Seq<char>,
)
    ensures
        explicit is Some ==> places(explicit, home, exe_dir, checkout, name)[0]
            == explicit.unwrap(),
        explicit is None ==> places(explicit, home, exe_dir, checkout, name)[0]
            == text::path_under(home, name),
{
}

// ---------------------------------------------------------------------------
// Laws.

/// The file is looked for where it was said to be, then below the home, then beside the
/// program, then in the checkout, and nowhere else.
pub proof fn places_are_looked_at_in_turn(
    said: Seq<char>,
    home: Seq<char>,
    beside: Seq<char>,
    checkout: Seq<char>,
    name: Seq<char>,
)
    ensures
        places(Some(said), home, Some(beside), Some(checkout), name) == seq![
            said,
            text::path_under(home, name),
            text::path_under(beside, name),
            checkout,
        ],
        places(None, home, Some(beside), Some(checkout), name) == seq![
            text::path_under(home, name),
            text::path_under(beside, name),
            checkout,
        ],
        places(None, home, None, Some(checkout), name) == seq![
            text::path_under(home, name),
            checkout,
        ],
        places(None, home, Some(beside), None, name) == seq![
            text::path_under(home, name),
            text::path_under(beside, name),
        ],
        places(None, home, None, None, name) == seq![text::path_under(home, name)],
{
}

/// Every place that was looked at is listed, each on a line of its own.
pub proof fn every_place_is_listed(paths: Seq<Seq<char>>, n: int)
    requires
        0 < n <= paths.len(),
    ensures
        place_list(paths, n) == text::join(
            paths.take(n).map_values(|p: Seq<char>| "  "@ + p),
            "\n"@,
        ),
    decreases n,
{
    let rows = paths.take(n).map_values(|p: Seq<char>| "  "@ + p);
    if n > 1 {
        every_place_is_listed(paths, n - 1);
        assert(rows.drop_last() =~= paths.take(n - 1).map_values(|p: Seq<char>| "  "@ + p));
    }
}

} // verus!
