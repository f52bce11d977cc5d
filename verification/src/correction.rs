//! Conservative correction of a `str_replace` whose `old_str` was not found.
//!
//! Given the file text and `old_str`, find the span that was most plausibly
//! meant and decide whether it is safe to take it:
//!
//! 1. Normalization tiers. Each counts the exact occurrences of the normalized
//!    `old_str` in the normalized file: one is the correction, two or more
//!    decline (a looser tier cannot tell them apart), none goes on to the next.
//! 2. Fuzzy: seed and vote for a few candidate spans, each verified with a
//!    fitting alignment that pins both ends.
//! 3. Decision: a cap on the distance, and a posterior over the candidates that
//!    the caller evaluates, since it takes real numbers.

use crate::alignment;
use crate::normalization;
use crate::normalization::Normalization;
use crate::normalization::Normalized;
use crate::reindent;
use crate::seeding;
use crate::seeding::Tally;
use crate::text;
use vstd::prelude::*;
use vstd::string::*;

verus! {

/// The limits of the corrector.
#[derive(Clone, Copy, Debug, PartialEq, Eq, Structural)]
pub struct CorrectionConfig {
    /// Cost caps: above these the corrector declines.
    pub max_file_bytes: usize,
    pub max_old_str_chars: usize,
    pub max_candidates: usize,
    /// Length of the runs that seed the search; runs that stand in the file
    /// more than `max_kgram_frequency` times say nothing.
    pub kgram: usize,
    pub max_kgram_frequency: usize,
    /// Random windows sampled to estimate the background distance.
    pub background_samples: usize,
}

impl Default for CorrectionConfig {
    fn default() -> (r: Self)
        ensures
            r.max_file_bytes == 2 * 1024 * 1024,
            r.max_old_str_chars == 4000,
            r.max_candidates == 8,
            r.kgram == 12,
            r.max_kgram_frequency == 64,
            r.background_samples == 32,
    {
        CorrectionConfig {
            max_file_bytes: 2 * 1024 * 1024,
            max_old_str_chars: 4000,
            max_candidates: 8,
            kgram: 12,
            max_kgram_frequency: 64,
            background_samples: 32,
        }
    }
}

/// How sure the corrector is of a span.
#[derive(Clone, Copy, Debug, PartialEq, Eq, Structural)]
pub enum Posterior {
    /// An exact match of normal forms, which has no competitor.
    Certain,
    /// The posterior that the caller evaluated.
    Evaluated,
}

/// A proposed correction: the span in the file text that `old_str` most
/// plausibly referred to.
#[derive(Clone, Debug)]
pub struct Correction {
    /// Byte range in the file text.
    pub start: usize,
    pub end: usize,
    /// The file text in that range.
    pub matched: String,
    /// Which stage produced it.
    pub tier: &'static str,
    /// Edit distance between `old_str` and the matched text (0 for exact
    /// normalized matches).
    pub distance: usize,
    /// Whether the posterior is 1 by construction or was evaluated.
    pub posterior: Posterior,
    /// Distance of the runner-up candidate, when there was one.
    pub runner_up_distance: Option<usize>,
    /// `new_str` with the same indentation delta applied that was observed
    /// between `old_str` and the matched text (indentation tier only).
    pub adjusted_new_str: Option<String>,
}

/// Why the corrector declined.
#[derive(Clone, Debug)]
pub struct Declined {
    pub reason: String,
    pub best_distance: Option<usize>,
    pub runner_up_distance: Option<usize>,
    pub posterior: Option<Posterior>,
}

#[derive(Clone, Debug)]
pub enum Outcome {
    Corrected(Correction),
    Declined(Declined),
}

/// What an outcome says, with texts as character sequences.
#[allow(inconsistent_fields)]
pub enum OutcomeModel {
    Corrected {
        start: int,
        end: int,
        matched: Seq<char>,
        tier: Seq<char>,
        distance: int,
        posterior: Posterior,
        runner_up_distance: Option<usize>,
        adjusted_new_str: Option<Seq<char>>,
    },
    Declined {
        reason: Seq<char>,
        best_distance: Option<usize>,
        runner_up_distance: Option<usize>,
        posterior: Option<Posterior>,
    },
}

impl View for Outcome {
    type V = OutcomeModel;

    open spec fn view(&self) -> OutcomeModel {
        match self {
            Outcome::Corrected(c) => OutcomeModel::Corrected {
                start: c.start as int,
                end: c.end as int,
                matched: c.matched@,
                tier: c.tier@,
                distance: c.distance as int,
                posterior: c.posterior,
                runner_up_distance: c.runner_up_distance,
                adjusted_new_str: text::optional(c.adjusted_new_str),
            },
            Outcome::Declined(d) => OutcomeModel::Declined {
                reason: d.reason@,
                best_distance: d.best_distance,
                runner_up_distance: d.runner_up_distance,
                posterior: d.posterior,
            },
        }
    }
}

/// A refusal without any candidate.
pub open spec fn plain_decline(reason: Seq<char>) -> OutcomeModel {
    OutcomeModel::Declined {
        reason,
        best_distance: None,
        runner_up_distance: None,
        posterior: None,
    }
}

fn declined(reason: String) -> (r: Outcome)
    ensures
        r@ == plain_decline(reason@),
{
    Outcome::Declined(
        Declined {
            reason,
            best_distance: None,
            runner_up_distance: None,
            posterior: None,
        },
    )
}

// ---------------------------------------------------------------------------
// Normalization tiers.

/// The name of a tier.
pub open spec fn tier_name(norm: Normalization) -> Seq<char> {
    match norm {
        Normalization::Endings => "line-endings-and-trailing-whitespace"@,
        Normalization::Collapse => "collapsed-whitespace"@,
        Normalization::Indent => "indentation"@,
    }
}

fn name_of_tier(norm: Normalization) -> (r: &'static str)
    ensures
        r@ == tier_name(norm),
{
    match norm {
        Normalization::Endings => "line-endings-and-trailing-whitespace",
        Normalization::Collapse => "collapsed-whitespace",
        Normalization::Indent => "indentation",
    }
}

/// Where the normalized `old_str` stands in the normalized file.
pub open spec fn tier_hits(file: Seq<char>, old_str: Seq<char>, norm: Normalization) -> Seq<int> {
    let wanted = normalization::plain(old_str, norm);
    if wanted.len() == 0 {
        Seq::empty()
    } else {
        normalization::occurrences(normalization::normal_text(file, norm), wanted, 0)
    }
}

/// The place in `s` of the character at `at` of its normal form, or the end of
/// `s` behind the last.
pub open spec fn origin(s: Seq<char>, norm: Normalization, at: int) -> int {
    let placed = normalization::normal(s, 0, norm);
    if at < placed.len() {
        placed[at].1
    } else {
        s.len() as int
    }
}

/// `at` moved back over the spaces and tabs before it.
pub open spec fn back_over_spaces(s: Seq<char>, at: int) -> int
    decreases at,
{
    if 0 < at <= s.len() && normalization::is_space(s[at - 1]) {
        back_over_spaces(s, at - 1)
    } else {
        at
    }
}

/// The span of the file that a hit of a tier at `hit` names, in characters. The
/// indentation tier takes in the indentation before it.
pub open spec fn tier_span(
    file: Seq<char>,
    old_str: Seq<char>,
    norm: Normalization,
    hit: int,
) -> (int, int) {
    let start = origin(file, norm, hit);
    let end = origin(file, norm, hit + normalization::plain(old_str, norm).len());
    if norm == Normalization::Indent {
        (back_over_spaces(file, start), end)
    } else {
        (start, end)
    }
}

/// The correction to the characters from `start` to `end` of the file.
pub open spec fn corrected_span(
    file: Seq<char>,
    start: int,
    end: int,
    tier: Seq<char>,
    distance: int,
    posterior: Posterior,
    runner_up_distance: Option<usize>,
    adjusted_new_str: Option<Seq<char>>,
) -> OutcomeModel {
    OutcomeModel::Corrected {
        start: text::byte_len(file.take(start)) as int,
        end: text::byte_len(file.take(end)) as int,
        matched: file.subrange(start, end),
        tier,
        distance,
        posterior,
        runner_up_distance,
        adjusted_new_str,
    }
}

/// What a tier decides: nothing where it has no hit, the correction where it
/// has one, and a refusal where it has more.
pub open spec fn tier_outcome(
    file: Seq<char>,
    old_str: Seq<char>,
    new_str: Seq<char>,
    norm: Normalization,
) -> Option<OutcomeModel> {
    let hits = tier_hits(file, old_str, norm);
    if hits.len() == 0 {
        None
    } else if hits.len() == 1 {
        let span = tier_span(file, old_str, norm, hits[0]);
        Some(
            corrected_span(
                file,
                span.0,
                span.1,
                tier_name(norm),
                0,
                Posterior::Certain,
                None,
                if norm == Normalization::Indent {
                    reindent::adjusted_new_str(
                        old_str,
                        file.subrange(span.0, span.1),
                        new_str,
                    )
                } else {
                    None
                },
            ),
        )
    } else {
        Some(
            plain_decline(
                text::decimal(hits.len()) + " matches at tier "@ + tier_name(norm)
                    + "; ambiguous"@,
            ),
        )
    }
}

/// What is decided before any fuzzy search; nothing where a search is due.
pub open spec fn decided_early(
    file: Seq<char>,
    old_str: Seq<char>,
    new_str: Seq<char>,
    cfg: CorrectionConfig,
) -> Option<OutcomeModel> {
    if old_str.len() == 0 {
        Some(plain_decline("old_str is empty"@))
    } else if text::byte_len(file) > cfg.max_file_bytes {
        Some(
            plain_decline(
                "file larger than "@ + text::decimal(cfg.max_file_bytes as nat) + " bytes"@,
            ),
        )
    } else if old_str.len() > cfg.max_old_str_chars {
        Some(
            plain_decline(
                "old_str longer than "@ + text::decimal(cfg.max_old_str_chars as nat) + " chars"@,
            ),
        )
    } else if text::contains(file, old_str) {
        Some(plain_decline("old_str is present verbatim; nothing to correct"@))
    } else if tier_outcome(file, old_str, new_str, Normalization::Endings) is Some {
        tier_outcome(file, old_str, new_str, Normalization::Endings)
    } else if tier_outcome(file, old_str, new_str, Normalization::Collapse) is Some {
        tier_outcome(file, old_str, new_str, Normalization::Collapse)
    } else if tier_outcome(file, old_str, new_str, Normalization::Indent) is Some {
        tier_outcome(file, old_str, new_str, Normalization::Indent)
    } else {
        let m = normalization::plain(old_str, Normalization::Endings).len();
        if m < 4 || normalization::normal_text(file, Normalization::Endings).len() < m {
            Some(
                plain_decline(
                    "old_str too short or longer than the file for fuzzy matching"@,
                ),
            )
        } else {
            None
        }
    }
}

/// The bytes that the first `n` characters of `cs` take.
fn bytes_before(cs: &[char], n: usize) -> (r: usize)
    requires
        n <= cs@.len(),
        text::byte_len(cs@) <= usize::MAX,
    ensures
        r == text::byte_len(cs@.take(n as int)),
{
    let mut i: usize = 0;
    let mut total: usize = 0;
    assert(cs@.take(0) =~= Seq::<char>::empty());
    while i < n
        invariant
            i <= n <= cs@.len(),
            text::byte_len(cs@) <= usize::MAX,
            total == text::byte_len(cs@.take(i as int)),
        decreases n - i,
    {
        proof {
            text::byte_len_grows(cs@, i + 1);
            assert(cs@.take(i + 1).drop_last() =~= cs@.take(i as int));
        }
        total = total + text::width_of(cs[i]);
        i += 1;
    }
    total
}

/// The correction to the characters from `start` to `end` of the file.
fn correct_span(
    file: &[char],
    start: usize,
    end: usize,
    tier: &'static str,
    distance: usize,
    posterior: Posterior,
    runner_up_distance: Option<usize>,
    adjusted_new_str: Option<String>,
) -> (r: Outcome)
    requires
        start <= end <= file@.len(),
        text::byte_len(file@) <= usize::MAX,
    ensures
        r@ == corrected_span(
            file@,
            start as int,
            end as int,
            tier@,
            distance as int,
            posterior,
            runner_up_distance,
            text::optional(adjusted_new_str),
        ),
{
    Outcome::Corrected(
        Correction {
            start: bytes_before(file, start),
            end: bytes_before(file, end),
            matched: text::substring_of(file, start, end),
            tier,
            distance,
            posterior,
            runner_up_distance,
            adjusted_new_str,
        },
    )
}

/// The places that two ends of a normal form name are in order.
pub proof fn origin_in_order(s: Seq<char>, norm: Normalization, a: int, b: int)
    requires
        0 <= a <= b,
    ensures
        0 <= origin(s, norm, a) <= origin(s, norm, b) <= s.len(),
{
    normalization::normal_keeps_order(s, 0, norm);
}

/// The place in the file that `at` of its normal form names.
fn origin_of(nf: &Normalized, at: usize, Ghost(s): Ghost<Seq<char>>, Ghost(norm): Ghost<
    Normalization,
>) -> (r: usize)
    requires
        nf.is_of(s, norm),
        at <= nf.text@.len(),
    ensures
        r == origin(s, norm, at as int),
{
    nf.orig_start(at)
}

/// What one normalization tier decides.
fn try_tier(file: &[char], old_str: &[char], new_str: &[char], norm: Normalization) -> (r: Option<
    Outcome,
>)
    requires
        text::byte_len(file@) <= usize::MAX,
    ensures
        match r {
            Some(o) => tier_outcome(file@, old_str@, new_str@, norm) == Some(o@),
            None => tier_outcome(file@, old_str@, new_str@, norm) is None,
        },
{
    let nf = normalization::normalize_with_map(file, norm);
    let wanted = normalization::normalize_plain(old_str, norm);
    let hits = normalization::find_all(nf.text.as_slice(), wanted.as_slice());
    let ghost spec_hits = tier_hits(file@, old_str@, norm);
    proof {
        let as_ints = hits@.map_values(|i: usize| i as int);
        assert(as_ints.len() == hits@.len());
        if wanted@.len() > 0 {
            assert(forall|k: int| 0 <= k < as_ints.len() ==> as_ints[k] == hits@[k]);
            assert(as_ints == spec_hits);
        } else {
            assert(spec_hits.len() == 0);
        }
    }
    if hits.len() == 0 {
        return None;
    }
    if hits.len() > 1 {
        let mut reason = text::decimal_string(hits.len() as u128);
        reason.append(" matches at tier ");
        reason.append(name_of_tier(norm));
        reason.append("; ambiguous");
        return Some(declined(reason));
    }
    let hit: usize = hits[0];
    assert(spec_hits[0] == hit);
    assert(hits@[0] + wanted@.len() <= nf.text@.len());
    let past = nf.text.len();
    let mut start = origin_of(&nf, hit, Ghost(file@), Ghost(norm));
    let end = origin_of(&nf, hit + wanted.len(), Ghost(file@), Ghost(norm));
    proof {
        origin_in_order(file@, norm, hit as int, hit + wanted@.len());
    }
    let is_indent: bool = match norm {
        Normalization::Indent => true,
        _ => false,
    };
    if is_indent {
        let ghost from = start as int;
        while start > 0 && (file[start - 1] == ' ' || file[start - 1] == '\t')
            invariant
                start <= end <= file@.len(),
                back_over_spaces(file@, from) == back_over_spaces(file@, start as int),
            decreases start,
        {
            start -= 1;
        }
    }
    let adjusted = if is_indent {
        let matched = text::slice_of(file, start, end);
        reindent::indentation_adjusted_new_str(old_str, matched.as_slice(), new_str)
    } else {
        None
    };
    Some(
        correct_span(
            file,
            start,
            end,
            name_of_tier(norm),
            0,
            Posterior::Certain,
            None,
            adjusted,
        ),
    )
}

/// What the corrector says at once, or the search that is due.
#[derive(Debug)]
pub enum Suggestion {
    Decided(Outcome),
    Search(FuzzySearch),
}

/// A fuzzy search that is under way: the file, its normal form with the places
/// of its characters, and the normalized `old_str`.
#[derive(Debug)]
pub struct FuzzySearch {
    pub file: Vec<char>,
    pub normalized: Normalized,
    pub pattern: Vec<char>,
}

impl FuzzySearch {
    /// The parts belong together, and the pattern is long enough for a search
    /// and no longer than the text.
    pub open spec fn well_formed(&self) -> bool {
        &&& self.normalized.is_of(self.file@, Normalization::Endings)
        &&& 4 <= self.pattern@.len() <= self.normalized.text@.len()
        &&& text::byte_len(self.file@) <= usize::MAX
    }
}

/// Proposes a correction for `old_str` in `file`, declines, or says what has to
/// be searched for.
pub fn suggest(file: &str, old_str: &str, new_str: &str, cfg: &CorrectionConfig) -> (r: Suggestion)
    ensures
        match r {
            Suggestion::Decided(o) => decided_early(file@, old_str@, new_str@, *cfg) == Some(o@),
            Suggestion::Search(s) => {
                &&& decided_early(file@, old_str@, new_str@, *cfg) is None
                &&& s.well_formed()
                &&& s.file@ == file@
                &&& s.pattern@ == normalization::plain(old_str@, Normalization::Endings)
            },
        },
{
    let old_chars = text::chars_of(old_str);
    if old_chars.len() == 0 {
        return Suggestion::Decided(declined("old_str is empty".to_string()));
    }
    let file_bytes: usize = file.as_bytes().len();
    proof {
        text::byte_len_is_encoded_len(file@);
    }
    if file_bytes > cfg.max_file_bytes {
        let mut reason = "file larger than ".to_string();
        reason.append(text::decimal_string(cfg.max_file_bytes as u128).as_str());
        reason.append(" bytes");
        return Suggestion::Decided(declined(reason));
    }
    if old_chars.len() > cfg.max_old_str_chars {
        let mut reason = "old_str longer than ".to_string();
        reason.append(text::decimal_string(cfg.max_old_str_chars as u128).as_str());
        reason.append(" chars");
        return Suggestion::Decided(declined(reason));
    }
    let file_chars = text::chars_of(file);
    if text::has(file_chars.as_slice(), old_chars.as_slice()) {
        return Suggestion::Decided(
            declined("old_str is present verbatim; nothing to correct".to_string()),
        );
    }
    let new_chars = text::chars_of(new_str);
    let (f, o, n) = (file_chars.as_slice(), old_chars.as_slice(), new_chars.as_slice());
    match try_tier(f, o, n, Normalization::Endings) {
        Some(outcome) => {
            return Suggestion::Decided(outcome);
        },
        None => {},
    }
    match try_tier(f, o, n, Normalization::Collapse) {
        Some(outcome) => {
            return Suggestion::Decided(outcome);
        },
        None => {},
    }
    match try_tier(f, o, n, Normalization::Indent) {
        Some(outcome) => {
            return Suggestion::Decided(outcome);
        },
        None => {},
    }
    let normalized = normalization::normalize_with_map(f, Normalization::Endings);
    let pattern = normalization::normalize_plain(o, Normalization::Endings);
    if pattern.len() < 4 || normalized.text.len() < pattern.len() {
        return Suggestion::Decided(
            declined("old_str too short or longer than the file for fuzzy matching".to_string()),
        );
    }
    Suggestion::Search(FuzzySearch { file: file_chars, normalized, pattern })
}

// ---------------------------------------------------------------------------
// Fuzzy search.

/// How far `old_str` may be from what was meant: the caller's fraction of the
/// length of the pattern, rounded up and rounded down.
#[derive(Clone, Copy, Debug, PartialEq, Eq, Structural)]
pub struct DistanceAllowance {
    pub rounded_up: usize,
    pub rounded_down: usize,
}

pub open spec fn larger(a: usize, b: usize) -> usize {
    if a >= b {
        a
    } else {
        b
    }
}

impl DistanceAllowance {
    /// How far implied starts may lie apart, and how far a window reaches
    /// beyond a candidate.
    pub open spec fn band_spec(&self) -> usize {
        larger(self.rounded_up, 2)
    }

    /// The largest distance that is still corrected.
    pub open spec fn cap_spec(&self) -> usize {
        larger(self.rounded_down, 2)
    }

    pub fn band(&self) -> (r: usize)
        ensures
            r == self.band_spec(),
    {
        if self.rounded_up >= 2 {
            self.rounded_up
        } else {
            2
        }
    }

    pub fn cap(&self) -> (r: usize)
        ensures
            r == self.cap_spec(),
    {
        if self.rounded_down >= 2 {
            self.rounded_down
        } else {
            2
        }
    }
}

/// A candidate that was aligned: its edit distance, and its span in the
/// characters of the normalized file.
#[derive(Clone, Copy, Debug, PartialEq, Eq, Structural)]
pub struct Aligned {
    pub distance: usize,
    pub start: usize,
    pub end: usize,
}

/// The length of the seeding runs for a pattern of `m` characters.
pub open spec fn seed_length_spec(m: int, kgram: usize) -> int {
    let third = if m / 3 >= 4 {
        m / 3
    } else {
        4
    };
    if kgram <= third {
        kgram as int
    } else {
        third
    }
}

/// The window around a candidate.
pub open spec fn window_of(lo: usize, hi: usize, m: int, n: int, band: usize) -> (int, int) {
    (
        if lo >= band {
            lo - band
        } else {
            0
        },
        if hi + m + band <= n {
            hi + m + band
        } else {
            n
        },
    )
}

/// The best fit of the pattern in the window of a candidate; none where the
/// window is empty.
pub open spec fn align_candidate(
    text: Seq<char>,
    pattern: Seq<char>,
    lo: usize,
    hi: usize,
    band: usize,
) -> Option<Aligned> {
    let w = window_of(lo, hi, pattern.len() as int, text.len() as int, band);
    if w.1 <= w.0 {
        None
    } else {
        let best = alignment::best_fit(pattern, text.subrange(w.0, w.1));
        Some(
            Aligned {
                distance: best.0 as usize,
                start: (w.0 + best.1) as usize,
                end: (w.0 + best.2) as usize,
            },
        )
    }
}

/// The place behind every candidate of `sorted` that is at most as far as
/// `distance`.
pub open spec fn place_by_distance(sorted: Seq<Aligned>, distance: usize) -> int
    decreases sorted.len(),
{
    if sorted.len() == 0 || sorted.last().distance <= distance {
        sorted.len() as int
    } else {
        place_by_distance(sorted.drop_last(), distance)
    }
}

/// The first `n` candidates aligned, nearest first; of equally near ones the
/// earlier candidate first.
pub open spec fn aligned_by_distance(
    text: Seq<char>,
    pattern: Seq<char>,
    candidates: Seq<(usize, usize, u128)>,
    band: usize,
    n: int,
) -> Seq<Aligned>
    decreases n,
{
    if n <= 0 {
        Seq::empty()
    } else {
        let before = aligned_by_distance(text, pattern, candidates, band, n - 1);
        match align_candidate(text, pattern, candidates[n - 1].0, candidates[n - 1].1, band) {
            Some(a) => before.insert(place_by_distance(before, a.distance), a),
            None => before,
        }
    }
}

/// `sorted` without those that have the span of the one before them.
pub open spec fn without_repeats(sorted: Seq<Aligned>) -> Seq<Aligned>
    decreases sorted.len(),
{
    if sorted.len() <= 1 {
        sorted
    } else {
        let before = without_repeats(sorted.drop_last());
        if before.last().start == sorted.last().start && before.last().end == sorted.last().end {
            before
        } else {
            before.push(sorted.last())
        }
    }
}

pub open spec fn smaller(a: int, b: int) -> int {
    if a <= b {
        a
    } else {
        b
    }
}

/// The candidates of a search, aligned, nearest first and each span once.
pub open spec fn verified_candidates(
    text: Seq<char>,
    pattern: Seq<char>,
    found: Seq<seeding::Cluster>,
    needed: int,
    band: usize,
    max_candidates: usize,
) -> Seq<Aligned> {
    let candidates = seeding::ranked(found, needed, found.len() as int);
    without_repeats(
        aligned_by_distance(
            text,
            pattern,
            candidates,
            band,
            smaller(max_candidates as int, candidates.len() as int),
        ),
    )
}

/// Whether every candidate lies in the text and no farther than the pattern is
/// long.
pub open spec fn in_text(found: Seq<Aligned>, text: Seq<char>, pattern: Seq<char>) -> bool {
    forall|i: int|
        0 <= i < found.len() ==> (#[trigger] found[i]).start <= found[i].end <= text.len()
            && found[i].distance <= pattern.len()
}

proof fn place_by_distance_in_range(sorted: Seq<Aligned>, distance: usize)
    ensures
        0 <= place_by_distance(sorted, distance) <= sorted.len(),
    decreases sorted.len(),
{
    if sorted.len() == 0 || sorted.last().distance <= distance {
    } else {
        place_by_distance_in_range(sorted.drop_last(), distance);
    }
}

proof fn without_repeats_is_nonempty(sorted: Seq<Aligned>)
    ensures
        sorted.len() > 0 ==> without_repeats(sorted).len() > 0,
        without_repeats(sorted).len() <= sorted.len(),
    decreases sorted.len(),
{
    if sorted.len() > 1 {
        without_repeats_is_nonempty(sorted.drop_last());
    }
}

/// Removes those that have the span of the one before them.
fn drop_repeats(sorted: &Vec<Aligned>) -> (r: Vec<Aligned>)
    ensures
        r@ == without_repeats(sorted@),
        forall|q: int| 0 <= q < r@.len() ==> sorted@.contains(#[trigger] r@[q]),
{
    let mut out: Vec<Aligned> = Vec::new();
    let mut i: usize = 0;
    while i < sorted.len()
        invariant
            i <= sorted@.len(),
            out@ == without_repeats(sorted@.take(i as int)),
            i > 0 ==> out@.len() > 0,
            forall|q: int| 0 <= q < out@.len() ==> sorted@.contains(#[trigger] out@[q]),
        decreases sorted@.len() - i,
    {
        let a = sorted[i];
        assert(sorted@.take(i + 1).drop_last() =~= sorted@.take(i as int));
        assert(sorted@.take(i + 1).last() == a);
        let repeated = out.len() > 0 && out[out.len() - 1].start == a.start && out[out.len()
            - 1].end == a.end;
        if !repeated {
            out.push(a);
        }
        i += 1;
    }
    assert(sorted@.take(sorted@.len() as int) =~= sorted@);
    out
}

/// The posterior that the caller evaluated for the nearest candidate.
#[derive(Clone, Debug)]
pub struct PosteriorReading {
    /// Whether it reaches the threshold.
    pub accepted: bool,
    /// The posterior with six decimals.
    pub shown: String,
    /// The threshold as it is written.
    pub threshold: String,
}

/// The distance of the second candidate.
pub open spec fn runner_up_of(found: Seq<Aligned>) -> Option<usize> {
    if found.len() > 1 {
        Some(found[1].distance)
    } else {
        None
    }
}

/// The refusal of a nearest candidate beyond the cap; none within it.
pub open spec fn over_cap_outcome(found: Seq<Aligned>, cap: usize) -> Option<OutcomeModel> {
    if found[0].distance > cap {
        Some(
            OutcomeModel::Declined {
                reason: "best candidate needs "@ + text::decimal(found[0].distance as nat)
                    + " edits, above the cap of "@ + text::decimal(cap as nat),
                best_distance: Some(found[0].distance),
                runner_up_distance: runner_up_of(found),
                posterior: None,
            },
        )
    } else {
        None
    }
}

/// What the evaluated posterior decides about the nearest candidate.
pub open spec fn concluded(
    file: Seq<char>,
    found: Seq<Aligned>,
    accepted: bool,
    shown: Seq<char>,
    threshold: Seq<char>,
) -> OutcomeModel {
    if accepted {
        corrected_span(
            file,
            origin(file, Normalization::Endings, found[0].start as int),
            origin(file, Normalization::Endings, found[0].end as int),
            "fuzzy"@,
            found[0].distance as int,
            Posterior::Evaluated,
            runner_up_of(found),
            None,
        )
    } else {
        OutcomeModel::Declined {
            reason: "posterior "@ + shown + " below "@ + threshold
                + ": another span or a missing source is too plausible"@,
            best_distance: Some(found[0].distance),
            runner_up_distance: runner_up_of(found),
            posterior: Some(Posterior::Evaluated),
        }
    }
}

/// What comes of the search: a refusal where the nearest candidate lies beyond the cap,
/// else what the posterior decides.
pub open spec fn settled(
    file: Seq<char>,
    found: Seq<Aligned>,
    cap: usize,
    accepted: bool,
    shown: Seq<char>,
    threshold: Seq<char>,
) -> OutcomeModel {
    match over_cap_outcome(found, cap) {
        Some(o) => o,
        None => concluded(file, found, accepted, shown, threshold),
    }
}

/// Whatever the posterior says, no correction takes more edits than the cap allows, and
/// it is the nearest candidate that is taken.
pub proof fn no_correction_lies_beyond_the_cap(
    file: Seq<char>,
    found: Seq<Aligned>,
    cap: usize,
    accepted: bool,
    shown: Seq<char>,
    threshold: Seq<char>,
)
    requires
        found.len() > 0,
    ensures
        settled(file, found, cap, accepted, shown, threshold) matches OutcomeModel::Corrected {
            distance,
            ..
        } ==> distance == found[0].distance && distance <= cap && accepted,
{
}

/// The next state of a 64-bit xorshift generator.
pub open spec fn next_seed(seed: u64) -> u64 {
    let a = seed ^ (seed << 13);
    let b = a ^ (a >> 7);
    b ^ (b << 17)
}

/// The first state of the generator for a text and a pattern.
pub open spec fn first_seed(n: int, m: int) -> u64 {
    (n as u64).wrapping_mul(1_000_003) ^ (m as u64).wrapping_mul(97)
}

/// The distances of the pattern from the sampled windows that do not overlap
/// the nearest candidate.
pub open spec fn sampled_distances(
    text: Seq<char>,
    pattern: Seq<char>,
    best: Option<Aligned>,
    seed: u64,
    samples: nat,
) -> Seq<int>
    decreases samples,
{
    if samples == 0 {
        Seq::empty()
    } else {
        let s = next_seed(seed);
        let pos = s as int % (text.len() - pattern.len() + 1);
        let rest = sampled_distances(text, pattern, best, s, (samples - 1) as nat);
        if best is Some && pos < best.unwrap().end && pos + pattern.len() > best.unwrap().start {
            rest
        } else {
            seq![alignment::best_fit(pattern, text.subrange(pos, pos + pattern.len())).0] + rest
        }
    }
}

/// How many windows are sampled for a pattern of `m` characters.
pub open spec fn sample_count(m: int, background_samples: usize) -> usize {
    if m > 2500 {
        4
    } else if m > 1000 {
        8
    } else {
        background_samples
    }
}

/// The distances that tell how far unrelated text of this file is: those of the
/// sampled windows, and those of the candidates behind the nearest.
pub open spec fn background_distances_spec(
    text: Seq<char>,
    pattern: Seq<char>,
    found: Seq<Aligned>,
    background_samples: usize,
) -> Seq<int> {
    let sampled = if text.len() > pattern.len() + 2 {
        sampled_distances(
            text,
            pattern,
            if found.len() > 0 {
                Some(found[0])
            } else {
                None
            },
            first_seed(text.len() as int, pattern.len() as int),
            sample_count(pattern.len() as int, background_samples) as nat,
        )
    } else {
        Seq::empty()
    };
    sampled + if found.len() > 0 {
        found.skip(1).map_values(|a: Aligned| a.distance as int)
    } else {
        Seq::empty()
    }
}

impl FuzzySearch {
    /// The length of the runs that seed this search.
    pub fn seed_length(&self, cfg: &CorrectionConfig) -> (r: usize)
        ensures
            r == seed_length_spec(self.pattern@.len() as int, cfg.kgram),
    {
        let m: usize = self.pattern.len();
        let third: usize = if m / 3 >= 4 {
            m / 3
        } else {
            4
        };
        if cfg.kgram <= third {
            cfg.kgram
        } else {
            third
        }
    }

    /// The votes of this search.
    pub fn tally(&self, cfg: &CorrectionConfig, allowance: &DistanceAllowance) -> (r: Tally)
        ensures
            forall|q: int|
                0 <= q < r.clusters@.len() ==> (#[trigger] r.clusters@[q]).lo <= usize::MAX
                    && r.clusters@[q].hi <= usize::MAX,
            ({
                let k = seed_length_spec(self.pattern@.len() as int, cfg.kgram);
                let (t, p) = (self.normalized.text@, self.pattern@);
                &&& k > t.len() || k > p.len() ==> r.clusters@.len() == 0 && r.informative == 0
                &&& k <= t.len() && k <= p.len() ==> {
                    &&& r.informative == seeding::informative_count(
                        t,
                        p,
                        k,
                        cfg.max_kgram_frequency as int,
                        p.len() - k + 1,
                    )
                    &&& r.clusters@ == seeding::clusters(
                        t,
                        p,
                        k,
                        cfg.max_kgram_frequency as int,
                        allowance.band_spec() as int,
                        k - p.len(),
                        t.len() - k + 1,
                    )
                }
            }),
    {
        let k = self.seed_length(cfg);
        seeding::seed_and_vote(
            self.normalized.text.as_slice(),
            self.pattern.as_slice(),
            k,
            allowance.band(),
            cfg.max_kgram_frequency,
        )
    }

    /// Aligns the candidates that have at least `needed` votes. An error is a
    /// refusal: no cluster has enough votes, or none could be aligned.
    pub fn verify(
        &self,
        tally: &Tally,
        needed: u128,
        allowance: &DistanceAllowance,
        cfg: &CorrectionConfig,
    ) -> (r: Result<Vec<Aligned>, Outcome>)
        requires
            self.well_formed(),
            forall|q: int|
                0 <= q < tally.clusters@.len() ==> (#[trigger] tally.clusters@[q]).lo <= usize::MAX
                    && tally.clusters@[q].hi <= usize::MAX,
        ensures
            ({
                let (t, p) = (self.normalized.text@, self.pattern@);
                let ranked = seeding::ranked(
                    tally.clusters@,
                    needed as int,
                    tally.clusters@.len() as int,
                );
                let found = verified_candidates(
                    t,
                    p,
                    tally.clusters@,
                    needed as int,
                    allowance.band_spec(),
                    cfg.max_candidates,
                );
                match r {
                    Ok(v) => v@ == found && v@.len() > 0 && in_text(v@, t, p),
                    Err(o) => {
                        &&& found.len() == 0
                        &&& o@ == if ranked.len() == 0 {
                            plain_decline("no candidate span shares enough of old_str"@)
                        } else {
                            plain_decline("no candidate window could be aligned"@)
                        }
                    },
                }
            }),
    {
        let candidates = seeding::rank_candidates(&tally.clusters, needed);
        if candidates.len() == 0 {
            return Err(declined("no candidate span shares enough of old_str".to_string()));
        }
        let band = allowance.band();
        let t = self.normalized.text.as_slice();
        let p = self.pattern.as_slice();
        let n: usize = t.len();
        let m: usize = p.len();
        let count: usize = if cfg.max_candidates <= candidates.len() {
            cfg.max_candidates
        } else {
            candidates.len()
        };
        let mut sorted: Vec<Aligned> = Vec::new();
        let mut i: usize = 0;
        while i < count
            invariant
                i <= count <= candidates@.len(),
                t@ == self.normalized.text@,
                p@ == self.pattern@,
                n == t@.len(),
                m == p@.len(),
                band == allowance.band_spec(),
                sorted@ == aligned_by_distance(t@, p@, candidates@, band, i as int),
                in_text(sorted@, t@, p@),
            decreases count - i,
        {
            let (lo, hi, _votes) = candidates[i];
            let w_lo: usize = if lo >= band {
                lo - band
            } else {
                0
            };
            let reach: u128 = hi as u128 + m as u128 + band as u128;
            let w_hi: usize = if reach <= n as u128 {
                reach as usize
            } else {
                n
            };
            if w_lo < w_hi {
                let window = text::slice_of(t, w_lo, w_hi);
                let (d, s, e) = alignment::fitting_alignment(p, window.as_slice());
                let a = Aligned { distance: d, start: w_lo + s, end: w_lo + e };
                let mut at: usize = sorted.len();
                assert(sorted@.take(at as int) =~= sorted@);
                while at > 0 && sorted[at - 1].distance > d
                    invariant
                        at <= sorted@.len(),
                        place_by_distance(sorted@, d) == place_by_distance(
                            sorted@.take(at as int),
                            d,
                        ),
                    decreases at,
                {
                    assert(sorted@.take(at as int).drop_last() =~= sorted@.take(at - 1));
                    at -= 1;
                }
                let ghost before = sorted@;
                proof {
                    place_by_distance_in_range(sorted@, d);
                }
                sorted.insert(at, a);
                assert(in_text(sorted@, t@, p@)) by {
                    assert forall|q: int| 0 <= q < sorted@.len() implies (
                    #[trigger] sorted@[q]).start <= sorted@[q].end <= t@.len()
                        && sorted@[q].distance <= p@.len() by {
                        if q < at {
                            assert(sorted@[q] == before[q]);
                        } else if q > at {
                            assert(sorted@[q] == before[q - 1]);
                        }
                    }
                }
            }
            i += 1;
        }
        let found = drop_repeats(&sorted);
        proof {
            without_repeats_is_nonempty(sorted@);
            assert(in_text(found@, t@, p@)) by {
                assert forall|q: int| 0 <= q < found@.len() implies (#[trigger] found@[q]).start
                    <= found@[q].end <= t@.len() && found@[q].distance <= p@.len() by {
                    assert(sorted@.contains(found@[q]));
                }
            }
        }
        if found.len() == 0 {
            return Err(declined("no candidate window could be aligned".to_string()));
        }
        Ok(found)
    }

    /// The refusal of a nearest candidate beyond the cap; none within it.
    fn over_cap(&self, found: &Vec<Aligned>, allowance: &DistanceAllowance) -> (r: Option<
        Outcome,
    >)
        requires
            found@.len() > 0,
        ensures
            match r {
                Some(o) => over_cap_outcome(found@, allowance.cap_spec()) == Some(o@),
                None => over_cap_outcome(found@, allowance.cap_spec()) is None,
            },
    {
        let cap = allowance.cap();
        if found[0].distance <= cap {
            return None;
        }
        let mut reason = "best candidate needs ".to_string();
        reason.append(text::decimal_string(found[0].distance as u128).as_str());
        reason.append(" edits, above the cap of ");
        reason.append(text::decimal_string(cap as u128).as_str());
        Some(
            Outcome::Declined(
                Declined {
                    reason,
                    best_distance: Some(found[0].distance),
                    runner_up_distance: second_distance(found),
                    posterior: None,
                },
            ),
        )
    }

    /// Settles the search: a nearest candidate beyond the cap is refused, and within it the
    /// posterior that the caller evaluated decides.
    pub fn settle(
        &self,
        found: &Vec<Aligned>,
        allowance: &DistanceAllowance,
        reading: &PosteriorReading,
    ) -> (r: Outcome)
        requires
            self.well_formed(),
            found@.len() > 0,
            in_text(found@, self.normalized.text@, self.pattern@),
        ensures
            r@ == settled(
                self.file@,
                found@,
                allowance.cap_spec(),
                reading.accepted,
                reading.shown@,
                reading.threshold@,
            ),
    {
        match self.over_cap(found, allowance) {
            Some(o) => o,
            None => self.conclude(found, reading),
        }
    }

    /// Concludes with the posterior that the caller evaluated.
    fn conclude(&self, found: &Vec<Aligned>, reading: &PosteriorReading) -> (r: Outcome)
        requires
            self.well_formed(),
            found@.len() > 0,
            in_text(found@, self.normalized.text@, self.pattern@),
        ensures
            r@ == concluded(
                self.file@,
                found@,
                reading.accepted,
                reading.shown@,
                reading.threshold@,
            ),
    {
        let best = found[0];
        if !reading.accepted {
            let mut reason = "posterior ".to_string();
            reason.append(reading.shown.as_str());
            reason.append(" below ");
            reason.append(reading.threshold.as_str());
            reason.append(": another span or a missing source is too plausible");
            return Outcome::Declined(
                Declined {
                    reason,
                    best_distance: Some(best.distance),
                    runner_up_distance: second_distance(found),
                    posterior: Some(Posterior::Evaluated),
                },
            );
        }
        let start = origin_of(
            &self.normalized,
            best.start,
            Ghost(self.file@),
            Ghost(Normalization::Endings),
        );
        let end = origin_of(
            &self.normalized,
            best.end,
            Ghost(self.file@),
            Ghost(Normalization::Endings),
        );
        proof {
            origin_in_order(
                self.file@,
                Normalization::Endings,
                best.start as int,
                best.end as int,
            );
        }
        correct_span(
            self.file.as_slice(),
            start,
            end,
            "fuzzy",
            best.distance,
            Posterior::Evaluated,
            second_distance(found),
            None,
        )
    }

    /// The distances that tell how far unrelated text of this file is.
    pub fn background_distances(&self, found: &Vec<Aligned>, cfg: &CorrectionConfig) -> (r: Vec<
        usize,
    >)
        requires
            self.well_formed(),
        ensures
            r@.map_values(|d: usize| d as int) == background_distances_spec(
                self.normalized.text@,
                self.pattern@,
                found@,
                cfg.background_samples,
            ),
    {
        let t = self.normalized.text.as_slice();
        let p = self.pattern.as_slice();
        let n: usize = t.len();
        let m: usize = p.len();
        let mut dists: Vec<usize> = Vec::new();
        let ghost as_int = |d: usize| d as int;
        let ghost goal = background_distances_spec(t@, p@, found@, cfg.background_samples);
        let ghost tail = if found@.len() > 0 {
            found@.skip(1).map_values(|a: Aligned| a.distance as int)
        } else {
            Seq::empty()
        };
        let ghost best = if found@.len() > 0 {
            Some(found@[0])
        } else {
            None
        };
        if n - m > 2 {
            let mut left: usize = if m > 2500 {
                4
            } else if m > 1000 {
                8
            } else {
                cfg.background_samples
            };
            let mut seed: u64 = (n as u64).wrapping_mul(1_000_003) ^ (m as u64).wrapping_mul(97);
            let span: u64 = (n - m) as u64;
            let ghost all = sampled_distances(t@, p@, best, seed, left as nat);
            assert(dists@.map_values(as_int) + all =~= all);
            while left > 0
                invariant
                    m == p@.len(),
                    n == t@.len(),
                    span == n - m,
                    m + 2 < n,
                    4 <= m,
                    best == (if found@.len() > 0 {
                        Some(found@[0])
                    } else {
                        None
                    }),
                    as_int == (|d: usize| d as int),
                    dists@.map_values(as_int) + sampled_distances(
                        t@,
                        p@,
                        best,
                        seed,
                        left as nat,
                    ) == all,
                decreases left,
            {
                let ghost before = dists@.map_values(as_int);
                let ghost old_seed = seed;
                let a: u64 = seed ^ (seed << 13u64);
                let b: u64 = a ^ (a >> 7u64);
                seed = b ^ (b << 17u64);
                assert(seed == next_seed(old_seed));
                let pos: usize = (seed % (span + 1)) as usize;
                let overlaps = found.len() > 0 && pos < found[0].end && pos + m > found[0].start;
                let ghost rest = sampled_distances(t@, p@, best, seed, (left - 1) as nat);
                if !overlaps {
                    let window = text::slice_of(t, pos, pos + m);
                    let (d, _s, _e) = alignment::fitting_alignment(p, window.as_slice());
                    dists.push(d);
                    assert(dists@.map_values(as_int) =~= before.push(d as int));
                    assert(before + (seq![d as int] + rest) =~= dists@.map_values(as_int) + rest);
                }
                left -= 1;
            }
            assert(dists@.map_values(as_int) + Seq::<int>::empty() =~= dists@.map_values(as_int));
        }
        let ghost sampled = dists@.map_values(as_int);
        assert(sampled + tail == goal);
        let mut i: usize = 1;
        assert(sampled + tail.take(0) =~= sampled);
        while i < found.len()
            invariant
                found@.len() > 0 ==> 1 <= i <= found@.len(),
                found@.len() == 0 ==> i == 1,
                as_int == (|d: usize| d as int),
                found@.len() > 0 ==> tail == found@.skip(1).map_values(
                    |a: Aligned| a.distance as int,
                ),
                dists@.map_values(as_int) == sampled + tail.take(i - 1),
            decreases found@.len() - i,
        {
            let ghost before = dists@.map_values(as_int);
            dists.push(found[i].distance);
            assert(dists@.map_values(as_int) =~= before.push(found@[i as int].distance as int));
            assert(tail[i - 1] == found@[i as int].distance);
            i += 1;
            assert(sampled + tail.take(i - 1) =~= before.push(tail[i - 2]));
        }
        assert(tail.take(tail.len() as int) =~= tail);
        dists
    }
}

fn second_distance(found: &Vec<Aligned>) -> (r: Option<usize>)
    ensures
        r == runner_up_of(found@),
{
    if found.len() > 1 {
        Some(found[1].distance)
    } else {
        None
    }
}

// ---------------------------------------------------------------------------
// Laws.

/// Whether what is asked for stands in the file at `hit`, up to the blanks that `norm`
/// forgives.
pub open spec fn stands_at(
    file: Seq<char>,
    old_str: Seq<char>,
    norm: Normalization,
    hit: int,
) -> bool {
    let wanted = normalization::plain(old_str, norm);
    wanted.len() > 0 && text::occurs_at(normalization::normal_text(file, norm), wanted, hit)
}

/// Whether it stands there, and nowhere else.
pub open spec fn stands_only_at(
    file: Seq<char>,
    old_str: Seq<char>,
    norm: Normalization,
    hit: int,
) -> bool {
    stands_at(file, old_str, norm, hit) && forall|j: int|
        j != hit ==> !#[trigger] stands_at(file, old_str, norm, j)
}

pub open spec fn stands_nowhere(file: Seq<char>, old_str: Seq<char>, norm: Normalization) -> bool {
    forall|j: int| !#[trigger] stands_at(file, old_str, norm, j)
}

proof fn hits_are_where_it_stands(file: Seq<char>, old_str: Seq<char>, norm: Normalization)
    ensures
        ({
            let hits = tier_hits(file, old_str, norm);
            &&& hits.len() == 0 <==> stands_nowhere(file, old_str, norm)
            &&& hits.len() == 1 ==> stands_only_at(file, old_str, norm, hits[0])
            &&& hits.len() > 1 ==> stands_at(file, old_str, norm, hits[0]) && stands_at(
                file,
                old_str,
                norm,
                hits[1],
            ) && hits[0] != hits[1]
        }),
{
    let hits = tier_hits(file, old_str, norm);
    let wanted = normalization::plain(old_str, norm);
    let hay = normalization::normal_text(file, norm);
    if wanted.len() > 0 {
        normalization::occurrences_rise(hay, wanted, 0);
        assert forall|j: int| stands_at(file, old_str, norm, j) implies #[trigger] hits.contains(
            j,
        ) by {
            normalization::occurrences_are_all(hay, wanted, 0, j);
        }
        if hits.len() > 0 {
            normalization::occurrences_are_all(hay, wanted, 0, hits[0]);
            assert(hits.contains(hits[0]));
            assert(stands_at(file, old_str, norm, hits[0]));
        }
        if hits.len() > 1 {
            normalization::occurrences_are_all(hay, wanted, 0, hits[1]);
            assert(hits.contains(hits[1]));
            assert(stands_at(file, old_str, norm, hits[1]));
            assert(hits[0] < hits[1]);
        }
        assert forall|j: int| stands_at(file, old_str, norm, j) implies hits.len() > 0 && (hits.len()
            == 1 ==> j == hits[0]) by {
            assert(hits.contains(j));
            let k = choose|k: int| 0 <= k < hits.len() && hits[k] == j;
            assert(hits[k] == j);
        }
    } else {
        assert(hits.len() == 0);
        assert(stands_nowhere(file, old_str, norm));
    }
}

/// What a correction at a tier says: the characters of the file from the first that stands
/// for what was asked for up to the one behind the last, with the spaces before it where
/// indentation is forgiven, at no distance; and a replacement that is re-indented there
/// only.
pub open spec fn names_the_span(
    file: Seq<char>,
    old_str: Seq<char>,
    new_str: Seq<char>,
    norm: Normalization,
    hit: int,
    o: OutcomeModel,
) -> bool {
    let placed = normalization::normal(file, 0, norm);
    let end_at = hit + normalization::plain(old_str, norm).len();
    let end = if end_at < placed.len() {
        placed[end_at].1
    } else {
        file.len() as int
    };
    &&& o matches OutcomeModel::Corrected {
        start,
        end: last,
        matched,
        tier,
        distance,
        posterior,
        runner_up_distance,
        adjusted_new_str,
    }
    &&& distance == 0 && posterior == Posterior::Certain && runner_up_distance is None
    &&& tier == match norm {
        Normalization::Endings => "line-endings-and-trailing-whitespace"@,
        Normalization::Collapse => "collapsed-whitespace"@,
        Normalization::Indent => "indentation"@,
    }
    &&& exists|from: int|
        {
            &&& 0 <= from <= placed[hit].1 <= end <= file.len()
            &&& start == text::byte_len(#[trigger] file.take(from))
            &&& last == text::byte_len(file.take(end))
            &&& matched == file.subrange(from, end)
            &&& norm != Normalization::Indent ==> from == placed[hit].1
            &&& forall|i: int|
                from <= i < placed[hit].1 ==> #[trigger] file[i] == ' ' || file[i] == '\t'
            &&& norm == Normalization::Indent && from > 0 ==> file[from - 1] != ' ' && file[from
                - 1] != '\t'
        }
    &&& adjusted_new_str == if norm == Normalization::Indent {
        reindent::adjusted_new_str(old_str, matched, new_str)
    } else {
        None
    }
}

proof fn back_goes_over_spaces(s: Seq<char>, at: int)
    requires
        0 <= at <= s.len(),
    ensures
        0 <= back_over_spaces(s, at) <= at,
        forall|i: int|
            back_over_spaces(s, at) <= i < at ==> #[trigger] s[i] == ' ' || s[i] == '\t',
        back_over_spaces(s, at) > 0 ==> s[back_over_spaces(s, at) - 1] != ' ' && s[back_over_spaces(
            s,
            at,
        ) - 1] != '\t',
    decreases at,
{
    if 0 < at && normalization::is_space(s[at - 1]) {
        back_goes_over_spaces(s, at - 1);
    }
}

proof fn tier_names_the_span(
    file: Seq<char>,
    old_str: Seq<char>,
    new_str: Seq<char>,
    norm: Normalization,
)
    ensures
        match tier_outcome(file, old_str, new_str, norm) {
            None => stands_nowhere(file, old_str, norm),
            Some(o) => !stands_nowhere(file, old_str, norm) && match o {
                OutcomeModel::Corrected { .. } => exists|hit: int|
                    #[trigger] stands_only_at(file, old_str, norm, hit) && names_the_span(
                        file,
                        old_str,
                        new_str,
                        norm,
                        hit,
                        o,
                    ),
                OutcomeModel::Declined { .. } => exists|i: int, j: int|
                    i != j && #[trigger] stands_at(file, old_str, norm, i) && #[trigger] stands_at(
                        file,
                        old_str,
                        norm,
                        j,
                    ),
            },
        },
{
    hits_are_where_it_stands(file, old_str, norm);
    let hits = tier_hits(file, old_str, norm);
    if hits.len() == 1 {
        let hit = hits[0];
        let o = tier_outcome(file, old_str, new_str, norm).unwrap();
        let placed = normalization::normal(file, 0, norm);
        let wanted = normalization::plain(old_str, norm);
        normalization::normal_keeps_order(file, 0, norm);
        assert(hit < placed.len());
        origin_in_order(file, norm, hit, hit + wanted.len());
        back_goes_over_spaces(file, placed[hit].1);
        let span = tier_span(file, old_str, norm, hit);
        let from = span.0;
        assert(file.take(from).len() == from);
        assert(names_the_span(file, old_str, new_str, norm, hit, o));
    } else if hits.len() > 1 {
        assert(stands_at(file, old_str, norm, hits[0]) && stands_at(file, old_str, norm, hits[1]));
    }
}

/// Whether a tier forgives less than another.
pub open spec fn is_stricter(a: Normalization, b: Normalization) -> bool {
    (a == Normalization::Endings && b != Normalization::Endings) || (a == Normalization::Collapse
        && b == Normalization::Indent)
}

/// A correction without a search is the one place in the file that is meant: what is asked for
/// does not stand there letter for letter, nor with less forgiven, and with so much
/// forgiven it stands there once.
pub proof fn early_corrections_are_unambiguous(
    file: Seq<char>,
    old_str: Seq<char>,
    new_str: Seq<char>,
    cfg: CorrectionConfig,
)
    ensures
        decided_early(file, old_str, new_str, cfg) matches Some(o) && o is Corrected ==> {
            &&& old_str.len() > 0 && !text::contains(file, old_str)
            &&& old_str.len() <= cfg.max_old_str_chars && text::byte_len(file)
                <= cfg.max_file_bytes
            &&& exists|norm: Normalization, hit: int|
                {
                    &&& #[trigger] stands_only_at(file, old_str, norm, hit)
                    &&& names_the_span(
                        file,
                        old_str,
                        new_str,
                        norm,
                        hit,
                        decided_early(file, old_str, new_str, cfg).unwrap(),
                    )
                    &&& forall|less: Normalization|
                        #[trigger] is_stricter(less, norm) ==> stands_nowhere(file, old_str, less)
                }
        },
{
    tier_names_the_span(file, old_str, new_str, Normalization::Endings);
    tier_names_the_span(file, old_str, new_str, Normalization::Collapse);
    tier_names_the_span(file, old_str, new_str, Normalization::Indent);
    let early = decided_early(file, old_str, new_str, cfg);
    if early is Some && early.unwrap() is Corrected {
        let norm = if tier_outcome(file, old_str, new_str, Normalization::Endings) is Some {
            Normalization::Endings
        } else if tier_outcome(file, old_str, new_str, Normalization::Collapse) is Some {
            Normalization::Collapse
        } else {
            Normalization::Indent
        };
        let o = early.unwrap();
        let hit = choose|hit: int|
            #[trigger] stands_only_at(file, old_str, norm, hit) && names_the_span(
                file,
                old_str,
                new_str,
                norm,
                hit,
                o,
            );
        assert(stands_only_at(file, old_str, norm, hit));
    }
}

/// The first tier at which what is asked for stands in the file decides: it is corrected where
/// it stands there once, and declined where it stands there more often, whatever looser
/// tiers would say. Only where it stands nowhere at any tier is it searched for.
pub proof fn the_first_tier_that_matches_decides(
    file: Seq<char>,
    old_str: Seq<char>,
    new_str: Seq<char>,
    cfg: CorrectionConfig,
    norm: Normalization,
)
    requires
        old_str.len() > 0,
        !text::contains(file, old_str),
        old_str.len() <= cfg.max_old_str_chars,
        text::byte_len(file) <= cfg.max_file_bytes,
        forall|less: Normalization|
            #[trigger] is_stricter(less, norm) ==> stands_nowhere(file, old_str, less),
    ensures
        (exists|hit: int| #[trigger] stands_only_at(file, old_str, norm, hit)) ==> (decided_early(
            file,
            old_str,
            new_str,
            cfg,
        ) matches Some(o) && o is Corrected),
        (exists|i: int, j: int|
            i != j && #[trigger] stands_at(file, old_str, norm, i) && #[trigger] stands_at(
                file,
                old_str,
                norm,
                j,
            )) ==> (decided_early(file, old_str, new_str, cfg) matches Some(o) && o is Declined),
        norm == Normalization::Indent && stands_nowhere(file, old_str, norm) ==> (decided_early(
            file,
            old_str,
            new_str,
            cfg,
        ) is None <==> 4 <= normalization::plain(old_str, Normalization::Endings).len()
            <= normalization::normal_text(file, Normalization::Endings).len()),
{
    tier_names_the_span(file, old_str, new_str, Normalization::Endings);
    tier_names_the_span(file, old_str, new_str, Normalization::Collapse);
    tier_names_the_span(file, old_str, new_str, Normalization::Indent);
    if norm != Normalization::Endings {
        assert(is_stricter(Normalization::Endings, norm));
    }
    if norm == Normalization::Indent {
        assert(is_stricter(Normalization::Collapse, norm));
    }
}

/// What stands in the file letter for letter is never corrected, nor is an empty text, one
/// that is too long, or a file that is too large.
pub proof fn nothing_is_corrected_needlessly(
    file: Seq<char>,
    old_str: Seq<char>,
    new_str: Seq<char>,
    cfg: CorrectionConfig,
)
    ensures
        text::contains(file, old_str) || old_str.len() == 0 || old_str.len()
            > cfg.max_old_str_chars || text::byte_len(file) > cfg.max_file_bytes ==> (decided_early(
            file,
            old_str,
            new_str,
            cfg,
        ) matches Some(o) && o is Declined),
{
}

/// Whether candidates come in the order of their distance.
pub open spec fn is_sorted(found: Seq<Aligned>) -> bool {
    forall|i: int, j: int|
        0 <= i < j < found.len() ==> (#[trigger] found[i]).distance <= (#[trigger] found[j]).distance
}

proof fn place_keeps_sorted(sorted: Seq<Aligned>, a: Aligned)
    requires
        is_sorted(sorted),
    ensures
        0 <= place_by_distance(sorted, a.distance) <= sorted.len(),
        is_sorted(sorted.insert(place_by_distance(sorted, a.distance), a)),
{
    place_by_distance_in_range(sorted, a.distance);
    place_splits(sorted, a.distance);
    let k = place_by_distance(sorted, a.distance);
    let all = sorted.insert(k, a);
    assert forall|i: int, j: int| 0 <= i < j < all.len() implies (#[trigger] all[i]).distance <= (
    #[trigger] all[j]).distance by {
        if j < k {
            assert(all[i] == sorted[i] && all[j] == sorted[j]);
        } else if j == k {
            assert(all[i] == sorted[i]);
        } else if i < k {
            assert(all[i] == sorted[i] && all[j] == sorted[j - 1]);
        } else if i == k {
            assert(all[j] == sorted[j - 1]);
        } else {
            assert(all[i] == sorted[i - 1] && all[j] == sorted[j - 1]);
        }
    }
}

proof fn place_splits(sorted: Seq<Aligned>, distance: usize)
    requires
        is_sorted(sorted),
    ensures
        forall|i: int|
            0 <= i < place_by_distance(sorted, distance) ==> (#[trigger] sorted[i]).distance
                <= distance,
        forall|i: int|
            place_by_distance(sorted, distance) <= i < sorted.len() ==> (#[trigger] sorted[i]).distance
                > distance,
    decreases sorted.len(),
{
    if sorted.len() == 0 || sorted.last().distance <= distance {
        assert forall|i: int| 0 <= i < sorted.len() implies (#[trigger] sorted[i]).distance
            <= distance by {
            if i < sorted.len() - 1 {
                assert(sorted[i].distance <= sorted[sorted.len() - 1].distance);
            }
        }
    } else {
        let front = sorted.drop_last();
        assert(is_sorted(front)) by {
            assert forall|i: int, j: int| 0 <= i < j < front.len() implies (
            #[trigger] front[i]).distance <= (#[trigger] front[j]).distance by {
                assert(front[i] == sorted[i] && front[j] == sorted[j]);
            }
        }
        place_splits(front, distance);
        assert forall|i: int| 0 <= i < place_by_distance(sorted, distance) implies (
        #[trigger] sorted[i]).distance <= distance by {
            place_by_distance_in_range(front, distance);
            assert(front[i] == sorted[i]);
        }
        assert forall|i: int|
            place_by_distance(sorted, distance) <= i < sorted.len() implies (
        #[trigger] sorted[i]).distance > distance by {
            if i < front.len() {
                place_by_distance_in_range(front, distance);
                assert(front[i] == sorted[i]);
            }
        }
    }
}

/// Whether `a` is the best fit round the candidate at `k`.
pub open spec fn is_fit_of(
    text: Seq<char>,
    pattern: Seq<char>,
    candidates: Seq<(usize, usize, u128)>,
    band: usize,
    k: int,
    a: Aligned,
) -> bool {
    align_candidate(text, pattern, candidates[k].0, candidates[k].1, band) == Some(a)
}

proof fn aligned_are_sorted(
    text: Seq<char>,
    pattern: Seq<char>,
    candidates: Seq<(usize, usize, u128)>,
    band: usize,
    n: int,
)
    requires
        0 <= n <= candidates.len(),
    ensures
        is_sorted(aligned_by_distance(text, pattern, candidates, band, n)),
    decreases n,
{
    if n > 0 {
        aligned_are_sorted(text, pattern, candidates, band, n - 1);
        let before = aligned_by_distance(text, pattern, candidates, band, n - 1);
        match align_candidate(text, pattern, candidates[n - 1].0, candidates[n - 1].1, band) {
            Some(a) => {
                place_keeps_sorted(before, a);
            },
            None => {},
        }
    }
}

proof fn aligned_are_fits(
    text: Seq<char>,
    pattern: Seq<char>,
    candidates: Seq<(usize, usize, u128)>,
    band: usize,
    n: int,
    q: int,
) -> (k: int)
    requires
        0 <= n <= candidates.len(),
        0 <= q < aligned_by_distance(text, pattern, candidates, band, n).len(),
    ensures
        0 <= k < n,
        is_fit_of(
            text,
            pattern,
            candidates,
            band,
            k,
            aligned_by_distance(text, pattern, candidates, band, n)[q],
        ),
    decreases n,
{
    let before = aligned_by_distance(text, pattern, candidates, band, n - 1);
    match align_candidate(text, pattern, candidates[n - 1].0, candidates[n - 1].1, band) {
        Some(a) => {
            let p = place_by_distance(before, a.distance);
            place_by_distance_in_range(before, a.distance);
            if q < p {
                aligned_are_fits(text, pattern, candidates, band, n - 1, q)
            } else if q == p {
                n - 1
            } else {
                aligned_are_fits(text, pattern, candidates, band, n - 1, q - 1)
            }
        },
        None => aligned_are_fits(text, pattern, candidates, band, n - 1, q),
    }
}

proof fn fits_are_aligned(
    text: Seq<char>,
    pattern: Seq<char>,
    candidates: Seq<(usize, usize, u128)>,
    band: usize,
    n: int,
    k: int,
    a: Aligned,
) -> (q: int)
    requires
        0 <= k < n <= candidates.len(),
        is_fit_of(text, pattern, candidates, band, k, a),
    ensures
        0 <= q < aligned_by_distance(text, pattern, candidates, band, n).len(),
        aligned_by_distance(text, pattern, candidates, band, n)[q] == a,
    decreases n,
{
    let before = aligned_by_distance(text, pattern, candidates, band, n - 1);
    match align_candidate(text, pattern, candidates[n - 1].0, candidates[n - 1].1, band) {
        Some(b) => {
            let p = place_by_distance(before, b.distance);
            place_by_distance_in_range(before, b.distance);
            if k == n - 1 {
                p
            } else {
                let q = fits_are_aligned(text, pattern, candidates, band, n - 1, k, a);
                if q < p {
                    q
                } else {
                    q + 1
                }
            }
        },
        None => fits_are_aligned(text, pattern, candidates, band, n - 1, k, a),
    }
}

proof fn repeats_are_left_out(sorted: Seq<Aligned>)
    requires
        is_sorted(sorted),
    ensures
        ({
            let kept = without_repeats(sorted);
            &&& is_sorted(kept)
            &&& sorted.len() > 0 ==> kept.len() > 0 && kept[0] == sorted[0] && kept.last().distance
                <= sorted.last().distance
            &&& forall|q: int| 0 <= q < kept.len() ==> sorted.contains(#[trigger] kept[q])
            &&& forall|q: int|
                0 <= q < kept.len() - 1 ==> (#[trigger] kept[q]).start != kept[q + 1].start
                    || kept[q].end != kept[q + 1].end
        }),
    decreases sorted.len(),
{
    if sorted.len() > 1 {
        let front = sorted.drop_last();
        assert(is_sorted(front)) by {
            assert forall|i: int, j: int| 0 <= i < j < front.len() implies (
            #[trigger] front[i]).distance <= (#[trigger] front[j]).distance by {
                assert(front[i] == sorted[i] && front[j] == sorted[j]);
            }
        }
        repeats_are_left_out(front);
        let before = without_repeats(front);
        let kept = without_repeats(sorted);
        assert(front.last().distance <= sorted.last().distance) by {
            assert(sorted[sorted.len() - 2].distance <= sorted[sorted.len() - 1].distance);
        }
        assert forall|q: int| 0 <= q < kept.len() implies sorted.contains(#[trigger] kept[q]) by {
            if q < before.len() {
                assert(front.contains(before[q]));
                let k = choose|k: int| 0 <= k < front.len() && front[k] == before[q];
                assert(sorted[k] == kept[q]);
            } else {
                assert(sorted[sorted.len() - 1] == kept[q]);
            }
        }
        if kept.len() > before.len() {
            assert forall|i: int, j: int| 0 <= i < j < kept.len() implies (
            #[trigger] kept[i]).distance <= (#[trigger] kept[j]).distance by {
                if j < before.len() {
                    assert(kept[i] == before[i] && kept[j] == before[j]);
                } else {
                    assert(kept[i] == before[i]);
                    if i < before.len() - 1 {
                        assert(before[i].distance <= before[before.len() - 1].distance);
                    }
                }
            }
        }
    } else if sorted.len() == 1 {
        assert(sorted.contains(sorted[0]));
    }
}

/// The candidates of a search come nearest first, no span twice in a row; each is the best
/// fit round one of the places that the votes speak for, and none of those places has a
/// nearer fit than the first.
pub proof fn the_nearest_candidate_comes_first(
    text: Seq<char>,
    pattern: Seq<char>,
    found: Seq<seeding::Cluster>,
    needed: int,
    band: usize,
    max_candidates: usize,
    k: int,
    a: Aligned,
)
    ensures
        ({
            let all = verified_candidates(text, pattern, found, needed, band, max_candidates);
            let candidates = seeding::ranked(found, needed, found.len() as int);
            &&& is_sorted(all)
            &&& forall|q: int|
                0 <= q < all.len() - 1 ==> (#[trigger] all[q]).start != all[q + 1].start
                    || all[q].end != all[q + 1].end
            &&& forall|q: int|
                0 <= q < all.len() ==> exists|c: int|
                    0 <= c < candidates.len() && c < max_candidates && #[trigger] is_fit_of(
                        text,
                        pattern,
                        candidates,
                        band,
                        c,
                        #[trigger] all[q],
                    )
            &&& 0 <= k < candidates.len() && k < max_candidates && is_fit_of(
                text,
                pattern,
                candidates,
                band,
                k,
                a,
            ) ==> all.len() > 0 && all[0].distance <= a.distance
        }),
{
    let candidates = seeding::ranked(found, needed, found.len() as int);
    let n = smaller(max_candidates as int, candidates.len() as int);
    let sorted = aligned_by_distance(text, pattern, candidates, band, n);
    let all = verified_candidates(text, pattern, found, needed, band, max_candidates);
    aligned_are_sorted(text, pattern, candidates, band, n);
    repeats_are_left_out(sorted);
    assert forall|q: int| 0 <= q < all.len() implies exists|c: int|
        0 <= c < candidates.len() && c < max_candidates && #[trigger] is_fit_of(
            text,
            pattern,
            candidates,
            band,
            c,
            #[trigger] all[q],
        ) by {
        assert(sorted.contains(all[q]));
        let w = choose|w: int| 0 <= w < sorted.len() && sorted[w] == all[q];
        let c = aligned_are_fits(text, pattern, candidates, band, n, w);
        assert(is_fit_of(text, pattern, candidates, band, c, all[q]));
    }
    if 0 <= k < candidates.len() && k < max_candidates && is_fit_of(
        text,
        pattern,
        candidates,
        band,
        k,
        a,
    ) {
        let w = fits_are_aligned(text, pattern, candidates, band, n, k, a);
        if w > 0 {
            assert(sorted[0].distance <= sorted[w].distance);
        }
    }
}

/// The window in which a candidate is fitted reaches as far as its place and the pattern,
/// and the allowance beyond on either side, as far as there is text.
pub proof fn windows_reach_beyond_the_candidate(lo: usize, hi: usize, m: int, n: int, band: usize)
    requires
        lo <= hi,
        0 <= m,
        0 <= n,
    ensures
        ({
            let (from, to) = window_of(lo, hi, m, n, band);
            &&& from == 0 || from == lo - band
            &&& to == n || to == hi + m + band
            &&& 0 <= from <= lo
            &&& to <= n
            &&& from > 0 ==> lo - from == band
            &&& to < n ==> to - hi - m == band
        }),
{
}

/// A correction that was searched for is the span of the file that the nearest candidate
/// stands for, with its distance; the replacement stays as it was given.
pub proof fn the_nearest_candidate_is_corrected(
    file: Seq<char>,
    found: Seq<Aligned>,
    cap: usize,
    shown: Seq<char>,
    threshold: Seq<char>,
)
    requires
        found.len() > 0,
    ensures
        settled(file, found, cap, false, shown, threshold) is Declined,
        found[0].distance > cap ==> settled(file, found, cap, true, shown, threshold) is Declined,
        found[0].distance <= cap ==> (settled(file, found, cap, true, shown, threshold) matches OutcomeModel::Corrected {
            start,
            end,
            matched,
            distance,
            tier,
            posterior,
            runner_up_distance,
            adjusted_new_str,
        } && {
            let placed = normalization::normal(file, 0, Normalization::Endings);
            let from = if found[0].start < placed.len() {
                placed[found[0].start as int].1
            } else {
                file.len() as int
            };
            let to = if found[0].end < placed.len() {
                placed[found[0].end as int].1
            } else {
                file.len() as int
            };
            &&& matched == file.subrange(from, to)
            &&& start == text::byte_len(file.take(from)) && end == text::byte_len(file.take(to))
            &&& distance == found[0].distance && tier == "fuzzy"@ && posterior
                == Posterior::Evaluated
            &&& adjusted_new_str is None
            &&& runner_up_distance == if found.len() > 1 {
                Some(found[1].distance)
            } else {
                None
            }
        }),
{
}

/// A fit round a candidate is a span of the text in the candidate's window, with its distance
/// from the pattern, and no span of the window is nearer.
pub proof fn fits_are_the_nearest_spans(
    text: Seq<char>,
    pattern: Seq<char>,
    lo: usize,
    hi: usize,
    band: usize,
    a: int,
    b: int,
)
    requires
        lo <= hi,
        text.len() <= usize::MAX,
        pattern.len() <= usize::MAX,
        ({
            let w = window_of(lo, hi, pattern.len() as int, text.len() as int, band);
            w.0 <= a <= b <= w.1
        }),
    ensures
        align_candidate(text, pattern, lo, hi, band) matches Some(f) ==> {
            let w = window_of(lo, hi, pattern.len() as int, text.len() as int, band);
            &&& w.0 <= f.start <= f.end <= w.1 <= text.len()
            &&& f.distance == alignment::edit_distance(
                pattern,
                text.subrange(f.start as int, f.end as int),
            )
            &&& f.distance <= alignment::edit_distance(pattern, text.subrange(a, b))
        },
{
    let w = window_of(lo, hi, pattern.len() as int, text.len() as int, band);
    match align_candidate(text, pattern, lo, hi, band) {
        Some(f) => {
            let window = text.subrange(w.0, w.1);
            let best = alignment::best_fit(pattern, window);
            alignment::best_fit_is_best(pattern, window);
            alignment::best_fit_is_closest_span(
                pattern,
                window,
                best.0,
                best.1,
                best.2,
                a - w.0,
                b - w.0,
            );
            assert(window.subrange(a - w.0, b - w.0) =~= text.subrange(a, b));
            assert(window.subrange(best.1, best.2) =~= text.subrange(
                w.0 + best.1,
                w.0 + best.2,
            ));
        },
        None => {},
    }
}

/// The runs that seed a search are as long as is set, but no longer than a third of the
/// pattern, or four characters where that is more.
pub proof fn seeds_are_short_for_short_patterns(m: int, kgram: usize)
    requires
        m >= 0,
    ensures
        ({
            let l = seed_length_spec(m, kgram);
            &&& l <= kgram
            &&& l <= 4 || 3 * l <= m
            &&& l == kgram || l == 4 || 3 * (l + 1) > m
            &&& kgram <= 4 ==> l == kgram
            &&& 3 * kgram <= m ==> l == kgram
        }),
{
}

/// A nearest candidate is refused for its distance exactly where that is above the cap, and
/// the refusal says how far it and the one behind it are.
pub proof fn distant_candidates_are_refused(found: Seq<Aligned>, cap: usize)
    requires
        found.len() > 0,
    ensures
        over_cap_outcome(found, cap) is Some <==> found[0].distance > cap,
        over_cap_outcome(found, cap) matches Some(o) ==> (o matches OutcomeModel::Declined {
            reason,
            best_distance,
            runner_up_distance,
            posterior,
        } && {
            &&& best_distance == Some(found[0].distance)
            &&& found.len() == 1 ==> runner_up_distance is None
            &&& found.len() > 1 ==> runner_up_distance == Some(found[1].distance)
            &&& posterior is None
        }),
{
}

/// Fewer windows are sampled for longer patterns: as many as are set up to a thousand
/// characters, eight up to two and a half thousand, and four beyond.
pub proof fn long_patterns_are_sampled_less(m: int, samples: usize)
    ensures
        m <= 1000 ==> sample_count(m, samples) == samples,
        1000 < m <= 2500 ==> sample_count(m, samples) == 8,
        2500 < m ==> sample_count(m, samples) == 4,
{
}

/// What is sampled are distances of the pattern from windows of its length that do not
/// overlap the nearest candidate, at most as many as are asked for.
pub proof fn windows_are_sampled_elsewhere(
    text: Seq<char>,
    pattern: Seq<char>,
    best: Option<Aligned>,
    seed: u64,
    samples: nat,
    k: int,
)
    requires
        pattern.len() <= text.len(),
    ensures
        sampled_distances(text, pattern, best, seed, samples).len() <= samples,
        best is None ==> sampled_distances(text, pattern, best, seed, samples).len() == samples,
        0 <= k < sampled_distances(text, pattern, best, seed, samples).len() ==> exists|p: int|
            0 <= p && p + pattern.len() <= text.len() && (best matches Some(b) ==> p >= b.end || p
                + pattern.len() <= b.start) && sampled_distances(text, pattern, best, seed, samples)[k]
                == #[trigger] alignment::best_fit(
                pattern,
                text.subrange(p, p + pattern.len()),
            ).0,
    decreases samples,
{
    if samples > 0 {
        let s = next_seed(seed);
        let span = text.len() - pattern.len() + 1;
        let pos = s as int % span;
        assert(0 <= pos < span) by (nonlinear_arith)
            requires
                pos == s as int % span,
                span > 0,
        ;
        windows_are_sampled_elsewhere(text, pattern, best, s, (samples - 1) as nat, k);
        windows_are_sampled_elsewhere(text, pattern, best, s, (samples - 1) as nat, k - 1);
    }
}

/// The candidates behind the nearest count as background too, behind the windows that were
/// sampled.
pub proof fn other_candidates_are_background(
    text: Seq<char>,
    pattern: Seq<char>,
    found: Seq<Aligned>,
    samples: usize,
    k: int,
)
    requires
        text.len() <= pattern.len() + 2,
        0 < k < found.len(),
    ensures
        background_distances_spec(text, pattern, found, samples).len() == found.len() - 1,
        background_distances_spec(text, pattern, found, samples)[k - 1] == found[k].distance,
{
}

/// The place before a run of blanks is where the last other character before it ends.
pub proof fn blanks_are_gone_back_over(s: Seq<char>, n: int, at: int)
    requires
        0 <= n <= at <= s.len(),
        forall|k: int| n <= k < at ==> (#[trigger] s[k] == ' ' || s[k] == '\t'),
        n > 0 ==> s[n - 1] != ' ' && s[n - 1] != '\t',
    ensures
        back_over_spaces(s, at) == n,
    decreases at,
{
    if n < at {
        assert(s[at - 1] == ' ' || s[at - 1] == '\t');
        blanks_are_gone_back_over(s, n, at - 1);
    }
}

/// Leaving out repeats loses no span, and leaves no two that follow one another with the same
/// one.
pub proof fn no_span_is_lost_with_the_repeats(sorted: Seq<Aligned>, i: int)
    requires
        0 <= i < sorted.len(),
    ensures
        without_repeats(sorted).len() > 0,
        without_repeats(sorted).last().start == sorted.last().start,
        without_repeats(sorted).last().end == sorted.last().end,
        exists|k: int|
            0 <= k < without_repeats(sorted).len() && (#[trigger] without_repeats(sorted)[k]).start
                == sorted[i].start && without_repeats(sorted)[k].end == sorted[i].end,
        forall|k: int|
            0 < k < without_repeats(sorted).len() ==> (#[trigger] without_repeats(sorted)[k]).start
                != without_repeats(sorted)[k - 1].start || without_repeats(sorted)[k].end
                != without_repeats(sorted)[k - 1].end,
    decreases sorted.len(),
{
    let kept = without_repeats(sorted);
    if sorted.len() == 1 {
        assert(kept[0].start == sorted[i].start && kept[0].end == sorted[i].end);
    } else {
        let front = sorted.drop_last();
        let before = without_repeats(front);
        if i < sorted.len() - 1 {
            no_span_is_lost_with_the_repeats(front, i);
            let k = choose|k: int|
                0 <= k < before.len() && (#[trigger] before[k]).start == front[i].start && before[k].end
                    == front[i].end;
            assert(kept[k].start == sorted[i].start && kept[k].end == sorted[i].end);
        } else {
            no_span_is_lost_with_the_repeats(front, 0);
            let k = kept.len() - 1;
            assert(kept[k] == kept.last());
            assert(kept[k].start == sorted[i].start && kept[k].end == sorted[i].end);
        }
        assert forall|k: int| 0 < k < kept.len() implies (#[trigger] kept[k]).start != kept[k
            - 1].start || kept[k].end != kept[k - 1].end by {
            if k < before.len() {
                assert(kept[k] == before[k] && kept[k - 1] == before[k - 1]);
            }
        }
    }
}

} // verus!
