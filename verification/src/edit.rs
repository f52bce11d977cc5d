//! The file editing tools: what each call does to its file and what it
//! answers. The caller looks the file up, reads it and writes it.

use crate::correction;
use crate::correction::Outcome;
use crate::correction::OutcomeModel;
use crate::line_diff;
use crate::normalization;
use crate::normalization::Normalization;
use crate::reindent;
use crate::text;
use vstd::prelude::*;
use vstd::string::*;

verus! {

#[derive(Clone, Copy, Debug, PartialEq, Eq, Structural)]
pub struct CreateFileHandler;

#[derive(Clone, Copy, Debug, PartialEq, Eq, Structural)]
pub struct StrReplaceHandler;

#[derive(Clone, Copy, Debug, PartialEq, Eq, Structural)]
pub struct DeleteFileHandler;

/// What a tool answers, and whether it did what was asked.
#[derive(Clone, Debug)]
pub struct ToolReply {
    pub text: String,
    pub success: bool,
}

/// What a look at the target found.
#[derive(Clone, Debug)]
pub enum Lookup {
    Present,
    NotFound,
    /// The look failed for another reason.
    Failed(String),
}

/// What reading the target gave.
#[derive(Clone, Debug)]
pub enum FileRead {
    Text(String),
    NotFound,
    Failed(String),
}

/// What has to be done next.
#[derive(Clone, Debug)]
pub enum EditStep {
    /// Answer; the file stays as it is.
    Reply(ToolReply),
    /// Respond to the model with an error.
    Fail(String),
    /// Write this content to the target, then answer.
    Write { content: String, reply: ToolReply },
    /// Remove the target, then answer.
    Remove { reply: ToolReply },
    /// Ask the corrector for what was meant.
    Suggest,
}

/// A step with texts as character sequences.
pub enum StepModel {
    Reply(Seq<char>, bool),
    Fail(Seq<char>),
    Write(Seq<char>, Seq<char>, bool),
    Remove(Seq<char>, bool),
    Suggest,
}

impl View for EditStep {
    type V = StepModel;

    open spec fn view(&self) -> StepModel {
        match self {
            EditStep::Reply(r) => StepModel::Reply(r.text@, r.success),
            EditStep::Fail(e) => StepModel::Fail(e@),
            EditStep::Write { content, reply } => StepModel::Write(
                content@,
                reply.text@,
                reply.success,
            ),
            EditStep::Remove { reply } => StepModel::Remove(reply.text@, reply.success),
            EditStep::Suggest => StepModel::Suggest,
        }
    }
}

/// What happens to a `str_replace` whose `old_str` is not in the file.
#[derive(Clone, Copy, Debug, PartialEq, Eq, Structural)]
pub enum AutocorrectMode {
    /// It fails.
    Off,
    /// The correction is recorded, and it still fails.
    Log,
    /// The correction is applied, and the answer says what changed.
    Correct,
}

/// The settings of the editing tools.
#[derive(Clone, Debug)]
pub struct EditSettings {
    /// An edit that changes nothing succeeds.
    pub allow_null_edit: bool,
    pub autocorrect: AutocorrectMode,
    /// Appended to the answer of every successful edit.
    pub edit_reminder: Option<String>,
}

/// `text` with the configured reminder behind it.
pub open spec fn reminded(reminder: Option<Seq<char>>, text: Seq<char>) -> Seq<char> {
    match reminder {
        Some(r) if r.len() > 0 => text + "\n\n"@ + r,
        _ => text,
    }
}

/// Appends the configured edit reminder to the answer of a successful edit.
pub fn with_edit_reminder(reminder: &Option<String>, text: String) -> (r: String)
    ensures
        r@ == reminded(text::optional(*reminder), text@),
{
    match reminder {
        Some(words) if !words.as_str().is_empty() => {
            let mut out = text;
            out.append("\n\n");
            out.append(words.as_str());
            out
        },
        _ => text,
    }
}

/// `error: ` and what went wrong.
fn error_text(err: &str) -> (r: String)
    ensures
        r@ == "error: "@ + err@,
{
    let mut out = "error: ".to_string();
    out.append(err);
    out
}

/// The text of `a`, `b` and `c` one after another.
fn three(a: &str, b: &str, c: &str) -> (r: String)
    ensures
        r@ == a@ + b@ + c@,
{
    let mut out = a.to_string();
    out.append(b);
    out.append(c);
    out
}

/// `content` with a line feed at its end.
pub open spec fn newline_ended(content: Seq<char>) -> Seq<char> {
    if content.len() > 0 && content.last() == '\n' {
        content
    } else {
        content.push('\n')
    }
}

fn end_with_newline(content: &str) -> (r: String)
    ensures
        r@ == newline_ended(content@),
{
    let cs = text::chars_of(content);
    let mut out = content.to_string();
    if cs.len() == 0 || cs[cs.len() - 1] != '\n' {
        out.push('\n');
    }
    out
}

impl CreateFileHandler {
    /// What `create_file` does when the look at its target gave `lookup`.
    pub open spec fn step_spec(
        path: Seq<char>,
        content: Seq<char>,
        lookup: Lookup,
        reminder: Option<Seq<char>>,
    ) -> StepModel {
        match lookup {
            Lookup::Present => StepModel::Reply(
                "create_file failed: "@ + path + " already exists"@,
                false,
            ),
            Lookup::Failed(err) => StepModel::Fail("error: "@ + err@),
            Lookup::NotFound => StepModel::Write(
                newline_ended(content),
                reminded(reminder, "Created "@ + path),
                true,
            ),
        }
    }

    /// Creates a file that does not exist yet, with a line feed at its end.
    pub fn step(&self, path: &str, content: &str, lookup: &Lookup, settings: &EditSettings) -> (r:
        EditStep)
        ensures
            r@ == Self::step_spec(
                path@,
                content@,
                *lookup,
                text::optional(settings.edit_reminder),
            ),
    {
        match lookup {
            Lookup::Present => EditStep::Reply(
                ToolReply {
                    text: three("create_file failed: ", path, " already exists"),
                    success: false,
                },
            ),
            Lookup::Failed(err) => EditStep::Fail(error_text(err.as_str())),
            Lookup::NotFound => {
                let mut done = "Created ".to_string();
                done.append(path);
                EditStep::Write {
                    content: end_with_newline(content),
                    reply: ToolReply {
                        text: with_edit_reminder(&settings.edit_reminder, done),
                        success: true,
                    },
                }
            },
        }
    }
}

impl DeleteFileHandler {
    /// What `delete_file` does when the look at its target gave `lookup`.
    pub open spec fn step_spec(path: Seq<char>, lookup: Lookup) -> StepModel {
        match lookup {
            Lookup::Present => StepModel::Remove("Deleted "@ + path, true),
            Lookup::NotFound => StepModel::Reply(
                "delete_file failed: "@ + path + " not found"@,
                false,
            ),
            Lookup::Failed(err) => StepModel::Fail("error: "@ + err@),
        }
    }

    /// Removes a file that exists.
    pub fn step(&self, path: &str, lookup: &Lookup) -> (r: EditStep)
        ensures
            r@ == Self::step_spec(path@, *lookup),
    {
        match lookup {
            Lookup::Present => {
                let mut done = "Deleted ".to_string();
                done.append(path);
                EditStep::Remove { reply: ToolReply { text: done, success: true } }
            },
            Lookup::NotFound => EditStep::Reply(
                ToolReply {
                    text: three("delete_file failed: ", path, " not found"),
                    success: false,
                },
            ),
            Lookup::Failed(err) => EditStep::Fail(error_text(err.as_str())),
        }
    }
}

/// `s` with its first `old` replaced by `new`.
pub open spec fn replaced_once(s: Seq<char>, old: Seq<char>, new: Seq<char>) -> Seq<char> {
    match text::find_from(s, old, 0) {
        Some(i) => s.take(i) + new + s.skip(i + old.len()),
        None => s,
    }
}

/// The correction speaks of a span of `file`.
pub open spec fn is_in_file(file: Seq<char>, outcome: OutcomeModel) -> bool {
    match outcome {
        OutcomeModel::Corrected { start, end, .. } => {
            &&& 0 <= start <= end
            &&& reindent::chars_in_bytes(file, start) is Some
            &&& reindent::chars_in_bytes(file, end) is Some
        },
        OutcomeModel::Declined { .. } => true,
    }
}

/// The number of characters of a prefix is found again from its bytes.
pub proof fn prefix_found_by_bytes(s: Seq<char>, k: int)
    requires
        0 <= k <= s.len(),
    ensures
        reindent::chars_in_bytes(s, text::byte_len(s.take(k)) as int) == Some(k),
    decreases k,
{
    if k == 0 {
        assert(s.take(0) =~= Seq::<char>::empty());
    } else {
        prefix_found_by_bytes(s.skip(1), k - 1);
        assert(s.take(k).drop_first() =~= s.skip(1).take(k - 1));
        first_char_bytes(s.take(k));
        text::byte_len_grows(s.take(k), 1);
        assert(s.take(k).take(1) =~= seq![s[0]]);
        assert(seq![s[0]].drop_last() =~= Seq::<char>::empty());
    }
}

proof fn first_char_bytes(s: Seq<char>)
    requires
        s.len() > 0,
    ensures
        text::byte_len(s) == text::utf8_width(s[0]) + text::byte_len(s.drop_first()),
    decreases s.len(),
{
    if s.len() == 1 {
        assert(s.drop_last() =~= s.drop_first());
    } else {
        first_char_bytes(s.drop_last());
        assert(s.drop_last().drop_first() =~= s.drop_first().drop_last());
    }
}

/// Every correction that the corrector names lies in the file.
pub proof fn corrected_span_is_in_file(
    file: Seq<char>,
    start: int,
    end: int,
    tier: Seq<char>,
    distance: int,
    posterior: correction::Posterior,
    runner_up_distance: Option<usize>,
    adjusted_new_str: Option<Seq<char>>,
)
    requires
        0 <= start <= end <= file.len(),
    ensures
        is_in_file(
            file,
            correction::corrected_span(
                file,
                start,
                end,
                tier,
                distance,
                posterior,
                runner_up_distance,
                adjusted_new_str,
            ),
        ),
{
    prefix_found_by_bytes(file, start);
    prefix_found_by_bytes(file, end);
    assert(file.take(end).take(start) =~= file.take(start));
    text::byte_len_grows(file.take(end), start);
}

proof fn back_over_spaces_in_range(s: Seq<char>, at: int)
    requires
        0 <= at,
    ensures
        0 <= correction::back_over_spaces(s, at) <= at,
    decreases at,
{
    if 0 < at <= s.len() && normalization::is_space(s[at - 1]) {
        back_over_spaces_in_range(s, at - 1);
    }
}

proof fn tier_correction_is_in_file(
    file: Seq<char>,
    old_str: Seq<char>,
    new_str: Seq<char>,
    norm: Normalization,
)
    ensures
        match correction::tier_outcome(file, old_str, new_str, norm) {
            Some(o) => is_in_file(file, o),
            None => true,
        },
{
    let hits = correction::tier_hits(file, old_str, norm);
    if hits.len() == 1 {
        let wanted = normalization::plain(old_str, norm);
        text::find_from_is_first(normalization::normal_text(file, norm), wanted, 0);
        correction::origin_in_order(file, norm, hits[0], hits[0] + wanted.len());
        back_over_spaces_in_range(file, correction::origin(file, norm, hits[0]));
        let span = correction::tier_span(file, old_str, norm, hits[0]);
        corrected_span_is_in_file(
            file,
            span.0,
            span.1,
            correction::tier_name(norm),
            0,
            correction::Posterior::Certain,
            None,
            if norm == Normalization::Indent {
                reindent::adjusted_new_str(old_str, file.subrange(span.0, span.1), new_str)
            } else {
                None
            },
        );
    }
}

/// What the corrector decides at once can be applied to the file.
pub proof fn early_correction_is_in_file(
    file: Seq<char>,
    old_str: Seq<char>,
    new_str: Seq<char>,
    cfg: correction::CorrectionConfig,
)
    ensures
        match correction::decided_early(file, old_str, new_str, cfg) {
            Some(o) => is_in_file(file, o),
            None => true,
        },
{
    tier_correction_is_in_file(file, old_str, new_str, Normalization::Endings);
    tier_correction_is_in_file(file, old_str, new_str, Normalization::Collapse);
    tier_correction_is_in_file(file, old_str, new_str, Normalization::Indent);
}

/// What a fuzzy search concludes can be applied to the file.
pub proof fn concluded_correction_is_in_file(
    file: Seq<char>,
    found: Seq<correction::Aligned>,
    accepted: bool,
    shown: Seq<char>,
    threshold: Seq<char>,
)
    requires
        found.len() > 0,
        found[0].start <= found[0].end,
    ensures
        is_in_file(file, correction::concluded(file, found, accepted, shown, threshold)),
{
    let norm = Normalization::Endings;
    correction::origin_in_order(file, norm, found[0].start as int, found[0].end as int);
    corrected_span_is_in_file(
        file,
        correction::origin(file, norm, found[0].start as int),
        correction::origin(file, norm, found[0].end as int),
        "fuzzy"@,
        found[0].distance as int,
        correction::Posterior::Evaluated,
        correction::runner_up_of(found),
        None,
    );
}

/// The file text with a corrected span replaced.
pub open spec fn span_replaced(file: Seq<char>, start: int, end: int, new: Seq<char>) -> Seq<char> {
    let s = reindent::chars_in_bytes(file, start).unwrap();
    let e = reindent::chars_in_bytes(file, end).unwrap();
    file.take(s) + new + file.skip(e)
}

/// The note that tells the model what was corrected.
pub open spec fn correction_note(
    path: Seq<char>,
    old_str: Seq<char>,
    matched: Seq<char>,
    tier: Seq<char>,
    distance: int,
    reindented: bool,
) -> Seq<char> {
    let note = "Replaced in "@ + path
        + "\n\nnote: old_str did not match exactly and was corrected ("@ + tier + ", "@
        + text::decimal(distance as nat)
        + " edit(s)); the replaced text differed from your old_str as follows:\n"@
        + line_diff::short_diff_spec(old_str, matched, 12);
    if reindented {
        note + "\nnew_str was re-indented to match the file."@
    } else {
        note
    }
}

/// The answer when `old_str` is not in the file.
pub open spec fn not_found_reply() -> StepModel {
    StepModel::Reply("str_replace failed: old_str not found in file"@, false)
}

impl StrReplaceHandler {
    /// The refusal of an edit that changes nothing; none for any other edit.
    pub open spec fn refusal_spec(
        old_str: Seq<char>,
        new_str: Seq<char>,
        allow_null_edit: bool,
    ) -> Option<(Seq<char>, bool)> {
        if old_str == new_str && !allow_null_edit {
            Some(
                (
                    "str_replace failed: old_str and new_str are identical, so this edit changes nothing and was not applied."@,
                    false,
                ),
            )
        } else {
            None
        }
    }

    /// Refuses an edit that changes nothing, before the file is read.
    pub fn refuse(&self, old_str: &str, new_str: &str, settings: &EditSettings) -> (r: Option<
        ToolReply,
    >)
        ensures
            match r {
                Some(reply) => Self::refusal_spec(old_str@, new_str@, settings.allow_null_edit)
                    == Some((reply.text@, reply.success)),
                None => Self::refusal_spec(old_str@, new_str@, settings.allow_null_edit) is None,
            },
    {
        if text::same_text(old_str, new_str) && !settings.allow_null_edit {
            Some(
                ToolReply {
                    text: "str_replace failed: old_str and new_str are identical, so this edit changes nothing and was not applied.".to_string(),
                    success: false,
                },
            )
        } else {
            None
        }
    }

    /// What `str_replace` does with what it read.
    pub open spec fn step_spec(
        path: Seq<char>,
        old_str: Seq<char>,
        new_str: Seq<char>,
        read: FileRead,
        autocorrect: AutocorrectMode,
        reminder: Option<Seq<char>>,
    ) -> StepModel {
        match read {
            FileRead::NotFound => StepModel::Reply(
                "str_replace failed: "@ + path + " not found"@,
                false,
            ),
            FileRead::Failed(err) => StepModel::Fail("error: "@ + err@),
            FileRead::Text(file) => {
                let count = text::match_count(file@, old_str);
                if count == 0 {
                    if autocorrect == AutocorrectMode::Off {
                        not_found_reply()
                    } else {
                        StepModel::Suggest
                    }
                } else if count > 1 {
                    StepModel::Reply(
                        "str_replace failed: old_str matched "@ + text::decimal(count)
                            + " locations"@,
                        false,
                    )
                } else {
                    StepModel::Write(
                        replaced_once(file@, old_str, new_str),
                        reminded(reminder, "Replaced in "@ + path),
                        true,
                    )
                }
            },
        }
    }

    /// Replaces `old_str` where it stands in the file exactly once.
    pub fn step(
        &self,
        path: &str,
        old_str: &str,
        new_str: &str,
        read: &FileRead,
        settings: &EditSettings,
    ) -> (r: EditStep)
        ensures
            r@ == Self::step_spec(
                path@,
                old_str@,
                new_str@,
                *read,
                settings.autocorrect,
                text::optional(settings.edit_reminder),
            ),
    {
        match read {
            FileRead::NotFound => EditStep::Reply(
                ToolReply {
                    text: three("str_replace failed: ", path, " not found"),
                    success: false,
                },
            ),
            FileRead::Failed(err) => EditStep::Fail(error_text(err.as_str())),
            FileRead::Text(file) => {
                let f = text::chars_of(file.as_str());
                let o = text::chars_of(old_str);
                let count = text::count_matches(f.as_slice(), o.as_slice());
                if count == 0 {
                    return match settings.autocorrect {
                        AutocorrectMode::Off => EditStep::Reply(not_found()),
                        _ => EditStep::Suggest,
                    };
                }
                if count > 1 {
                    return EditStep::Reply(
                        ToolReply {
                            text: three(
                                "str_replace failed: old_str matched ",
                                text::decimal_string(count).as_str(),
                                " locations",
                            ),
                            success: false,
                        },
                    );
                }
                let mut done = "Replaced in ".to_string();
                done.append(path);
                EditStep::Write {
                    content: replace_first(f.as_slice(), o.as_slice(), new_str),
                    reply: ToolReply {
                        text: with_edit_reminder(&settings.edit_reminder, done),
                        success: true,
                    },
                }
            },
        }
    }

    /// What `str_replace` does with what the corrector says: only a correction
    /// in mode `Correct` changes the file.
    pub open spec fn corrected_step_spec(
        path: Seq<char>,
        old_str: Seq<char>,
        new_str: Seq<char>,
        file: Seq<char>,
        outcome: OutcomeModel,
        autocorrect: AutocorrectMode,
        reminder: Option<Seq<char>>,
    ) -> StepModel {
        match outcome {
            OutcomeModel::Declined { .. } => not_found_reply(),
            OutcomeModel::Corrected { start, end, matched, tier, distance, adjusted_new_str, .. } =>
            if autocorrect != AutocorrectMode::Correct {
                not_found_reply()
            } else {
                StepModel::Write(
                    span_replaced(
                        file,
                        start,
                        end,
                        match adjusted_new_str {
                            Some(s) => s,
                            None => new_str,
                        },
                    ),
                    reminded(
                        reminder,
                        correction_note(
                            path,
                            old_str,
                            matched,
                            tier,
                            distance,
                            adjusted_new_str is Some,
                        ),
                    ),
                    true,
                )
            },
        }
    }

    /// Applies what the corrector says.
    pub fn corrected_step(
        &self,
        path: &str,
        old_str: &str,
        new_str: &str,
        file: &str,
        outcome: &Outcome,
        settings: &EditSettings,
    ) -> (r: EditStep)
        requires
            is_in_file(file@, outcome@),
        ensures
            r@ == Self::corrected_step_spec(
                path@,
                old_str@,
                new_str@,
                file@,
                outcome@,
                settings.autocorrect,
                text::optional(settings.edit_reminder),
            ),
    {
        let c = match outcome {
            Outcome::Declined(_) => {
                return EditStep::Reply(not_found());
            },
            Outcome::Corrected(c) => c,
        };
        match settings.autocorrect {
            AutocorrectMode::Correct => {},
            _ => {
                return EditStep::Reply(not_found());
            },
        }
        let effective: &str = match &c.adjusted_new_str {
            Some(s) => s.as_str(),
            None => new_str,
        };
        let f = text::chars_of(file);
        let s = reindent::count_in_bytes(f.as_slice(), c.start as u128);
        let e = reindent::count_in_bytes(f.as_slice(), c.end as u128);
        let (from, to): (usize, usize) = match (s, e) {
            (Some(a), Some(b)) => (a, b),
            _ => (0, 0),
        };
        let mut content = text::substring_of(f.as_slice(), 0, from);
        assert(content@ =~= file@.take(from as int));
        content.append(effective);
        let tail = text::substring_of(f.as_slice(), to, f.len());
        assert(tail@ =~= file@.skip(to as int));
        content.append(tail.as_str());
        let diff = line_diff::short_diff(old_str, c.matched.as_str(), 12);
        let mut note = "Replaced in ".to_string();
        note.append(path);
        note.append("\n\nnote: old_str did not match exactly and was corrected (");
        note.append(c.tier);
        note.append(", ");
        note.append(text::decimal_string(c.distance as u128).as_str());
        note.append(" edit(s)); the replaced text differed from your old_str as follows:\n");
        note.append(diff.as_str());
        if c.adjusted_new_str.is_some() {
            note.append("\nnew_str was re-indented to match the file.");
        }
        EditStep::Write {
            content,
            reply: ToolReply {
                text: with_edit_reminder(&settings.edit_reminder, note),
                success: true,
            },
        }
    }
}

fn not_found() -> (r: ToolReply)
    ensures
        StepModel::Reply(r.text@, r.success) == not_found_reply(),
{
    ToolReply {
        text: "str_replace failed: old_str not found in file".to_string(),
        success: false,
    }
}

/// `f` with its first `o` replaced by `new`.
fn replace_first(f: &[char], o: &[char], new: &str) -> (r: String)
    ensures
        r@ == replaced_once(f@, o@, new@),
{
    match text::find(f, o, 0) {
        None => text::string_of(f),
        Some(i) => {
            let n = f.len();
            let mut out = text::substring_of(f, 0, i);
            assert(out@ =~= f@.take(i as int));
            out.append(new);
            let tail = text::substring_of(f, i + o.len(), n);
            assert(tail@ =~= f@.skip(i + o@.len()));
            out.append(tail.as_str());
            out
        },
    }
}

// ---------------------------------------------------------------------------
// Laws.

/// A plain `str_replace` that writes has found `old_str` exactly once, and what
/// it writes is the file with that occurrence replaced and nothing else.
pub proof fn str_replace_changes_only_the_match(
    path: Seq<char>,
    old_str: Seq<char>,
    new_str: Seq<char>,
    file: String,
    autocorrect: AutocorrectMode,
    reminder: Option<Seq<char>>,
)
    ensures
        match StrReplaceHandler::step_spec(
            path,
            old_str,
            new_str,
            FileRead::Text(file),
            autocorrect,
            reminder,
        ) {
            StepModel::Write(content, _, success) => {
                &&& success
                &&& text::match_count(file@, old_str) == 1
                &&& exists|i: int|
                    {
                        &&& #[trigger] text::occurs_at(file@, old_str, i)
                        &&& content == file@.take(i) + new_str + file@.skip(i + old_str.len())
                        &&& file@ == file@.take(i) + old_str + file@.skip(i + old_str.len())
                    }
            },
            _ => true,
        },
{
    text::find_from_is_first(file@, old_str, 0);
    if text::match_count(file@, old_str) == 1 {
        if old_str.len() == 0 {
            assert(file@.subrange(0, 0) =~= old_str);
            assert(text::occurs_at(file@, old_str, 0));
        }
        let i = text::find_from(file@, old_str, 0).unwrap();
        assert(text::occurs_at(file@, old_str, i));
        assert(file@ =~= file@.take(i) + old_str + file@.skip(i + old_str.len()));
    }
}

/// An edit with equal texts never reaches the file, unless null edits are
/// allowed, and then it writes the file as it was.
pub proof fn identity_edit_changes_nothing(
    path: Seq<char>,
    s: Seq<char>,
    file: String,
    autocorrect: AutocorrectMode,
    reminder: Option<Seq<char>>,
)
    ensures
        StrReplaceHandler::refusal_spec(s, s, false) is Some,
        match StrReplaceHandler::step_spec(
            path,
            s,
            s,
            FileRead::Text(file),
            autocorrect,
            reminder,
        ) {
            StepModel::Write(content, _, _) => content == file@,
            _ => true,
        },
{
    str_replace_changes_only_the_match(path, s, s, file, autocorrect, reminder);
}

/// A file is created, deleted or replaced only with a successful answer, and a
/// tool that answers without success leaves every file as it is.
pub proof fn failed_edits_leave_files_alone(
    path: Seq<char>,
    content: Seq<char>,
    lookup: Lookup,
    reminder: Option<Seq<char>>,
)
    ensures
        match CreateFileHandler::step_spec(path, content, lookup, reminder) {
            StepModel::Write(_, _, success) => success && lookup == Lookup::NotFound,
            StepModel::Reply(_, success) => !success && lookup == Lookup::Present,
            StepModel::Fail(_) => lookup is Failed,
            _ => false,
        },
        match DeleteFileHandler::step_spec(path, lookup) {
            StepModel::Remove(_, success) => success && lookup == Lookup::Present,
            StepModel::Reply(_, success) => !success && lookup == Lookup::NotFound,
            StepModel::Fail(_) => lookup is Failed,
            _ => false,
        },
{
}

/// A text that stands in the file once and nowhere else is exchanged, and all that stands
/// round it is kept; one that stands there more often changes nothing, nor does one that is
/// not there, for which the corrector is asked where it is switched on.
pub proof fn one_occurrence_is_exchanged(
    path: Seq<char>,
    a: Seq<char>,
    old_str: Seq<char>,
    b: Seq<char>,
    new_str: Seq<char>,
    file: String,
    autocorrect: AutocorrectMode,
    reminder: Option<Seq<char>>,
)
    requires
        old_str.len() > 0,
    ensures
        ({
            let step = StrReplaceHandler::step_spec(
                path,
                old_str,
                new_str,
                FileRead::Text(file),
                autocorrect,
                reminder,
            );
            &&& file@ == a + old_str + b && (forall|j: int|
                j != a.len() ==> !text::occurs_at(file@, old_str, j)) ==> (
            step matches StepModel::Write(content, _, success) && success && content == a + new_str
                + b)
            &&& !text::contains(file@, old_str) ==> if autocorrect == AutocorrectMode::Off {
                step matches StepModel::Reply(_, success) && !success
            } else {
                step is Suggest
            }
            &&& file@ == a + old_str + b && text::contains(b, old_str) && (forall|j: int|
                0 <= j < a.len() ==> !text::occurs_at(file@, old_str, j)) ==> (
            step matches StepModel::Reply(_, success) && !success)
        }),
{
    let s = file@;
    text::contains_is_found(s, old_str);
    if s == a + old_str + b && (forall|j: int|
        0 <= j < a.len() ==> !text::occurs_at(s, old_str, j)) {
        text::occurrences_are_exchanged(a, old_str, b, new_str);
        text::find_from_is_first(s, old_str, 0);
        assert(s.subrange(a.len() as int, (a.len() + old_str.len()) as int) =~= old_str);
        assert(text::occurs_at(s, old_str, a.len() as int));
        assert(s.take(a.len() as int) =~= a);
        assert(s.skip((a.len() + old_str.len()) as int) =~= b);
        text::contains_is_found(b, old_str);
        if forall|j: int| j != a.len() ==> !text::occurs_at(s, old_str, j) {
            if text::contains(b, old_str) {
                let k = choose|k: int| text::occurs_at(b, old_str, k);
                let j = a.len() + old_str.len() + k;
                assert(s.subrange(j, j + old_str.len()) =~= b.subrange(k, k + old_str.len()));
                assert(text::occurs_at(s, old_str, j));
            }
            assert(text::match_count(s, old_str) == 1);
        }
    }
}

/// A file is created with the content that was asked for, ended by a line feed, and with
/// nothing else.
pub proof fn files_are_created_as_asked(
    path: Seq<char>,
    content: Seq<char>,
    reminder: Option<Seq<char>>,
)
    ensures
        CreateFileHandler::step_spec(path, content, Lookup::NotFound, reminder) matches StepModel::Write(
            written,
            _,
            _,
        ) && {
            &&& written.len() > 0 && written.last() == '\n'
            &&& written == content || (written == content.push('\n') && (content.len() == 0
                || content.last() != '\n'))
        },
{
}

/// A correction changes the span that it names and nothing else: what was matched leaves,
/// and the replacement comes in its place, re-indented where it was. Unless corrections are
/// switched on, and where none is made, the file stays as it is.
pub proof fn corrections_change_only_their_span(
    path: Seq<char>,
    old_str: Seq<char>,
    new_str: Seq<char>,
    a: Seq<char>,
    b: Seq<char>,
    outcome: OutcomeModel,
    autocorrect: AutocorrectMode,
    reminder: Option<Seq<char>>,
)
    requires
        outcome matches OutcomeModel::Corrected { start, end, matched, .. } ==> start
            == text::byte_len(a) && end == text::byte_len(a + matched),
    ensures
        match outcome {
            OutcomeModel::Corrected { matched, adjusted_new_str, .. } => {
                let step = StrReplaceHandler::corrected_step_spec(
                    path,
                    old_str,
                    new_str,
                    a + matched + b,
                    outcome,
                    autocorrect,
                    reminder,
                );
                if autocorrect == AutocorrectMode::Correct {
                    step matches StepModel::Write(content, _, success) && success && content
                        == match adjusted_new_str {
                        Some(s) => a + s + b,
                        None => a + new_str + b,
                    }
                } else {
                    step matches StepModel::Reply(_, success) && !success
                }
            },
            OutcomeModel::Declined { .. } => StrReplaceHandler::corrected_step_spec(
                path,
                old_str,
                new_str,
                a + b,
                outcome,
                autocorrect,
                reminder,
            ) matches StepModel::Reply(_, success) && !success,
        },
{
    match outcome {
        OutcomeModel::Corrected { matched, adjusted_new_str, .. } => {
            let file = a + matched + b;
            prefix_found_by_bytes(file, a.len() as int);
            prefix_found_by_bytes(file, (a + matched).len() as int);
            assert(file.take(a.len() as int) =~= a);
            assert(file.take((a + matched).len() as int) =~= a + matched);
            assert(file.skip((a + matched).len() as int) =~= b);
        },
        _ => {},
    }
}

/// The answer to every edit that is made ends with the reminder, where one is set; the answer
/// to one that fails does not hold it.
pub proof fn edits_are_answered_with_the_reminder(
    path: Seq<char>,
    content: Seq<char>,
    lookup: Lookup,
    reminder: Seq<char>,
    said: Seq<char>,
)
    requires
        reminder.len() > 0,
    ensures
        CreateFileHandler::step_spec(path, content, lookup, Some(reminder)) matches StepModel::Write(
            _,
            reply,
            _,
        ) ==> text::ends_in(reply, "\n\n"@ + reminder) && text::begins_with(
            reply,
            "Created "@ + path,
        ),
        reminded(Some(reminder), said) == said + ("\n\n"@ + reminder),
        reminded(None, said) == said,
        reminded(Some(Seq::empty()), said) == said,
{
    let done = "Created "@ + path;
    let all = reminded(Some(reminder), done);
    let tail = "\n\n"@ + reminder;
    assert(all =~= done + tail);
    assert(all.subrange(all.len() - tail.len(), all.len() as int) =~= tail);
    assert(all.subrange(0, done.len() as int) =~= done);
    assert(reminded(Some(reminder), said) =~= said + tail);
}

/// A file ends with one line feed more where it did not end with one, and stays where it did.
pub proof fn files_end_with_a_line_feed(content: Seq<char>, c: char)
    requires
        c != '\n',
    ensures
        newline_ended(content + seq!['\n']) == content + seq!['\n'],
        newline_ended(content.push(c)) == content.push(c).push('\n'),
        newline_ended(Seq::empty()) == seq!['\n'],
{
    assert((content + seq!['\n']).last() == '\n');
    assert(Seq::<char>::empty().push('\n') =~= seq!['\n']);
}

/// The note on a correction names the file, says by what rule and by how many edits it was
/// corrected, shows the difference, and tells where the new text was moved.
pub proof fn notes_tell_what_was_corrected(
    path: Seq<char>,
    old_str: Seq<char>,
    matched: Seq<char>,
    tier: Seq<char>,
    distance: int,
)
    ensures
        ({
            let plain = correction_note(path, old_str, matched, tier, distance, false);
            let moved = correction_note(path, old_str, matched, tier, distance, true);
            &&& moved == plain + "\nnew_str was re-indented to match the file."@
            &&& text::ends_in(plain, line_diff::short_diff_spec(old_str, matched, 12))
            &&& text::begins_with(
                plain,
                "Replaced in "@ + path
                    + "\n\nnote: old_str did not match exactly and was corrected ("@ + tier + ", "@
                    + text::decimal(distance as nat),
            )
        }),
{
    let plain = correction_note(path, old_str, matched, tier, distance, false);
    let diff = line_diff::short_diff_spec(old_str, matched, 12);
    assert(plain.skip(plain.len() - diff.len()) =~= diff);
    let front = "Replaced in "@ + path
        + "\n\nnote: old_str did not match exactly and was corrected ("@ + tier + ", "@
        + text::decimal(distance as nat);
    assert(plain.take(front.len() as int) =~= front);
}

} // verus!
