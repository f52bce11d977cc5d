//! The regions of a raw completion: reasoning up to `</think>`, then text up to
//! the first `<tool_call>`, then calls. Generation begins inside the reasoning,
//! since the prompt opens it.

use crate::text;
use vstd::prelude::*;
use vstd::string::*;

verus! {

// ---------------------------------------------------------------------------
// A whole completion.

/// `s` without leading whitespace and without a stray opening tag behind it.
pub open spec fn think_body(s: Seq<char>) -> Seq<char> {
    let lead = text::trim_start(s);
    if text::begins_with(lead, "<think>"@) {
        lead.skip("<think>"@.len() as int)
    } else {
        lead
    }
}

/// The reasoning and the content of a whole completion. Where the reasoning is
/// not closed, all of it is reasoning.
pub open spec fn think_split(s: Seq<char>) -> (Seq<char>, Seq<char>) {
    let body = think_body(s);
    match text::find_from(body, "</think>"@, 0) {
        Some(end) => (
            text::trim(body.take(end)),
            text::trim_start(body.skip(end + "</think>"@.len())),
        ),
        None => (text::trim(body), Seq::empty()),
    }
}

/// Splits the reasoning of a whole completion from its content.
pub fn split_think_block(s: &str) -> (r: (Vec<char>, Vec<char>))
    ensures
        (r.0@, r.1@) == think_split(s@),
{
    let all = text::chars_of(s);
    let lead = text::trimmed_start(all.as_slice());
    let open = text::chars_of("<think>");
    let close = text::chars_of("</think>");
    let body = if text::starts(lead.as_slice(), open.as_slice()) {
        let rest = text::slice_of(lead.as_slice(), open.len(), lead.len());
        assert(rest@ =~= lead@.skip(open@.len() as int));
        rest
    } else {
        lead
    };
    let n: usize = body.len();
    match text::find(body.as_slice(), close.as_slice(), 0) {
        Some(end) => {
            let before = text::slice_of(body.as_slice(), 0, end);
            assert(before@ =~= body@.take(end as int));
            let after = text::slice_of(body.as_slice(), end + close.len(), n);
            assert(after@ =~= body@.skip(end + close@.len()));
            (text::trimmed(before.as_slice()), text::trimmed_start(after.as_slice()))
        },
        None => {
            let none: Vec<char> = Vec::new();
            assert(none@ =~= Seq::empty());
            (text::trimmed(body.as_slice()), none)
        },
    }
}

// ---------------------------------------------------------------------------
// A completion that is still growing.

/// The longest end of `s`, of at most `n` characters, that `marker` begins with.
pub open spec fn partial_len(s: Seq<char>, marker: Seq<char>, n: int) -> int
    decreases n,
{
    if n <= 0 {
        0
    } else if n <= s.len() && n <= marker.len() && s.skip(s.len() - n) == marker.take(n) {
        n
    } else {
        partial_len(s, marker, n - 1)
    }
}

/// How much of the end of `s` may still become `marker`.
pub open spec fn held(s: Seq<char>, marker: Seq<char>) -> int {
    partial_len(s, marker, marker.len() as int)
}

/// The length of the longest suffix of `s` that is a prefix of `marker`.
pub fn partial_marker_len(s: &[char], marker: &[char]) -> (r: usize)
    ensures
        r == held(s@, marker@),
        r <= s@.len(),
        r <= marker@.len(),
{
    let mut n: usize = marker.len();
    while n > 0
        invariant
            n <= marker@.len(),
            held(s@, marker@) == partial_len(s@, marker@, n as int),
        decreases n,
    {
        if n <= s.len() {
            let tail = text::slice_of(s, s.len() - n, s.len());
            let head = text::slice_of(marker, 0, n);
            assert(tail@ =~= s@.skip(s@.len() - n));
            assert(head@ =~= marker@.take(n as int));
            if text::same_chars(tail.as_slice(), head.as_slice()) {
                return n;
            }
        }
        n -= 1;
    }
    0
}

proof fn partial_len_is_longest(s: Seq<char>, marker: Seq<char>, n: int)
    requires
        0 <= n,
    ensures
        0 <= partial_len(s, marker, n) <= n,
        partial_len(s, marker, n) <= s.len(),
        partial_len(s, marker, n) <= marker.len(),
        forall|k: int|
            partial_len(s, marker, n) < k <= n && k <= s.len() && k <= marker.len()
                ==> #[trigger] s.skip(s.len() - k) != marker.take(k),
    decreases n,
{
    if n > 0 {
        if n <= s.len() && n <= marker.len() && s.skip(s.len() - n) == marker.take(n) {
        } else {
            partial_len_is_longest(s, marker, n - 1);
        }
    }
}

/// `held` is the longest suffix of `s` that is a prefix of `marker`.
pub proof fn held_is_longest(s: Seq<char>, marker: Seq<char>)
    ensures
        0 <= held(s, marker) <= s.len(),
        held(s, marker) <= marker.len(),
        s.skip(s.len() - held(s, marker)) == marker.take(held(s, marker)),
        forall|k: int|
            held(s, marker) < k <= s.len() && k <= marker.len() ==> #[trigger] s.skip(
                s.len() - k,
            ) != marker.take(k),
{
    partial_len_is_longest(s, marker, marker.len() as int);
    partial_len_is_a_match(s, marker, marker.len() as int);
}

/// Where the accumulated text is.
#[derive(Clone, Copy, Debug, PartialEq, Eq, Structural)]
pub enum Region {
    Think,
    Text,
    /// A call was seen; nothing further is shown as text.
    ToolCalls,
}

/// The region that a completion has reached, where that region begins, and up
/// to where it can be shown: what may still become a marker is held back. The
/// reasoning begins at `start`.
pub open spec fn reached(acc: Seq<char>, start: int) -> (Region, int, int) {
    let body = acc.skip(start);
    match text::find_from(body, "</think>"@, 0) {
        None => (Region::Think, start, acc.len() - held(body, "</think>"@)),
        Some(p) => {
            let from = start + p + "</think>"@.len();
            let rest = acc.skip(from);
            match text::find_from(rest, "<tool_call>"@, 0) {
                None => (Region::Text, from, acc.len() - held(rest, "<tool_call>"@)),
                Some(q) => (Region::ToolCalls, from, from + q),
            }
        },
    }
}

/// The reasoning and the text of a completion that can be shown.
pub open spec fn shown(acc: Seq<char>, start: int) -> (Seq<char>, Seq<char>) {
    let (region, from, safe) = reached(acc, start);
    if region == Region::Think {
        (acc.subrange(start, safe), Seq::empty())
    } else {
        (acc.subrange(start, from - "</think>"@.len()), acc.subrange(from, safe))
    }
}

/// What has to be known of `reached`: the places are in order.
proof fn reached_in_order(acc: Seq<char>, start: int)
    requires
        0 <= start <= acc.len(),
    ensures
        start <= reached(acc, start).1 <= reached(acc, start).2 <= acc.len(),
        reached(acc, start).0 != Region::Think ==> start + "</think>"@.len() <= reached(
            acc,
            start,
        ).1,
{
    let body = acc.skip(start);
    text::find_from_is_first(body, "</think>"@, 0);
    held_is_longest(body, "</think>"@);
    match text::find_from(body, "</think>"@, 0) {
        None => {},
        Some(p) => {
            let from = start + p + "</think>"@.len();
            text::find_from_is_first(acc.skip(from), "<tool_call>"@, 0);
            held_is_longest(acc.skip(from), "<tool_call>"@);
        },
    }
}

/// A stretch of text up to which nothing of a marker has begun stays free of it
/// however the text goes on.
proof fn marker_starts_behind_held(s: Seq<char>, more: Seq<char>, marker: Seq<char>)
    requires
        text::find_from(s, marker, 0) is None,
        marker.len() > 0,
    ensures
        match text::find_from(s + more, marker, 0) {
            Some(p) => p >= s.len() - held(s, marker),
            None => true,
        },
        (s + more).len() - held(s + more, marker) >= s.len() - held(s, marker),
{
    let all = s + more;
    text::find_from_is_first(s, marker, 0);
    text::find_from_is_first(all, marker, 0);
    held_is_longest(s, marker);
    held_is_longest(all, marker);
    match text::find_from(all, marker, 0) {
        Some(p) => {
            if p < s.len() - held(s, marker) {
                if p + marker.len() <= s.len() {
                    assert(s.subrange(p, p + marker.len()) =~= all.subrange(p, p + marker.len()));
                    assert(text::occurs_at(s, marker, p));
                } else {
                    let k = s.len() - p;
                    assert(all.subrange(p, p + marker.len()).take(k) =~= s.skip(p));
                    assert(s.skip(s.len() - k) == marker.take(k));
                }
                assert(false);
            }
        },
        None => {},
    }
    let h = held(all, marker);
    if h > more.len() + held(s, marker) {
        let k = h - more.len();
        assert(all.skip(all.len() - h).take(k) =~= s.skip(s.len() - k));
        assert(marker.take(h).take(k) =~= marker.take(k));
        assert(s.skip(s.len() - k) == marker.take(k));
        assert(false);
    }
}

proof fn partial_len_is_a_match(s: Seq<char>, marker: Seq<char>, n: int)
    requires
        0 <= n,
    ensures
        s.skip(s.len() - partial_len(s, marker, n)) == marker.take(partial_len(s, marker, n)),
    decreases n,
{
    if n <= 0 {
        assert(s.skip(s.len() as int) =~= marker.take(0));
    } else if n <= s.len() && n <= marker.len() && s.skip(s.len() - n) == marker.take(n) {
    } else {
        partial_len_is_a_match(s, marker, n - 1);
    }
}

/// A marker that was found stays the first however the text goes on.
proof fn found_marker_stays(s: Seq<char>, more: Seq<char>, marker: Seq<char>)
    requires
        text::find_from(s, marker, 0) is Some,
    ensures
        text::find_from(s + more, marker, 0) == text::find_from(s, marker, 0),
{
    let all = s + more;
    text::find_from_is_first(s, marker, 0);
    text::find_from_is_first(all, marker, 0);
    let p = text::find_from(s, marker, 0).unwrap();
    assert(all.subrange(p, p + marker.len()) =~= s.subrange(p, p + marker.len()));
    assert(text::occurs_at(all, marker, p));
    let q = text::find_from(all, marker, 0).unwrap();
    if q < p {
        assert(s.subrange(q, q + marker.len()) =~= all.subrange(q, q + marker.len()));
        assert(text::occurs_at(s, marker, q));
    }
}

/// Whatever was shown stays shown: as a completion grows, its visible reasoning
/// and text only grow at their ends. So a marker that is split between two
/// chunks is never shown in part.
pub proof fn shown_only_grows(acc: Seq<char>, more: Seq<char>, start: int)
    requires
        0 <= start <= acc.len(),
    ensures
        shown(acc, start).0.is_prefix_of(shown(acc + more, start).0),
        shown(acc, start).1.is_prefix_of(shown(acc + more, start).1),
{
    reveal_strlit("</think>");
    reveal_strlit("<tool_call>");
    let close = "</think>"@;
    let call = "<tool_call>"@;
    let all = acc + more;
    let body = acc.skip(start);
    assert(all.skip(start) =~= body + more);
    reached_in_order(acc, start);
    reached_in_order(all, start);
    text::find_from_is_first(body, close, 0);
    match text::find_from(body, close, 0) {
        None => {
            marker_starts_behind_held(body, more, close);
            text::find_from_is_first(body + more, close, 0);
            let safe = reached(acc, start).2;
            assert(shown(acc, start).0 =~= shown(all, start).0.take(safe - start));
        },
        Some(p) => {
            found_marker_stays(body, more, close);
            let from = start + p + close.len();
            let rest = acc.skip(from);
            assert(all.skip(from) =~= rest + more);
            text::find_from_is_first(rest, call, 0);
            match text::find_from(rest, call, 0) {
                None => {
                    marker_starts_behind_held(rest, more, call);
                    text::find_from_is_first(rest + more, call, 0);
                },
                Some(q) => {
                    found_marker_stays(rest, more, call);
                },
            }
            let safe = reached(acc, start).2;
            assert(shown(acc, start).0 =~= shown(all, start).0);
            assert(shown(acc, start).1 =~= shown(all, start).1.take(safe - from));
        },
    }
}

/// Something to show.
#[derive(Debug, PartialEq, Eq)]
pub enum RegionDelta {
    Reasoning(String),
    Text(String),
}

pub enum DeltaModel {
    Reasoning(Seq<char>),
    Text(Seq<char>),
}

impl View for RegionDelta {
    type V = DeltaModel;

    open spec fn view(&self) -> DeltaModel {
        match self {
            RegionDelta::Reasoning(s) => DeltaModel::Reasoning(s@),
            RegionDelta::Text(s) => DeltaModel::Text(s@),
        }
    }
}

pub open spec fn delta_models(v: Seq<RegionDelta>) -> Seq<DeltaModel> {
    v.map_values(|d: RegionDelta| d@)
}

/// What has to be shown to go from one visible state to another.
pub open spec fn deltas_between(before: (Seq<char>, Seq<char>), after: (Seq<char>, Seq<char>)) -> Seq<
    DeltaModel,
> {
    (if after.0.len() > before.0.len() {
        seq![DeltaModel::Reasoning(after.0.skip(before.0.len() as int))]
    } else {
        Seq::empty()
    }) + if after.1.len() > before.1.len() {
        seq![DeltaModel::Text(after.1.skip(before.1.len() as int))]
    } else {
        Seq::empty()
    }
}

/// Where the reasoning begins; none while a stray opening tag may still be
/// coming.
pub open spec fn reasoning_start(acc: Seq<char>) -> Option<int> {
    let lead = text::trim_start(acc);
    if text::begins_with(lead, "<think>"@) {
        Some(acc.len() - lead.len() + "<think>"@.len())
    } else if lead.len() > 0 && text::begins_with("<think>"@, lead) {
        None
    } else {
        Some(0)
    }
}

/// What a splitter knows: the text so far, and where its reasoning begins once
/// that is settled.
pub struct SplitModel {
    pub acc: Seq<char>,
    pub start: Option<int>,
}

impl SplitModel {
    pub open spec fn new() -> SplitModel {
        SplitModel { acc: Seq::empty(), start: None }
    }

    /// With one more chunk.
    pub open spec fn taken(self, chunk: Seq<char>) -> SplitModel {
        let acc = self.acc + chunk;
        SplitModel {
            acc,
            start: match self.start {
                Some(s) => Some(s),
                None => reasoning_start(acc),
            },
        }
    }

    /// What was shown so far.
    pub open spec fn visible(self) -> (Seq<char>, Seq<char>) {
        match self.start {
            Some(s) => shown(self.acc, s),
            None => (Seq::empty(), Seq::empty()),
        }
    }

    /// What is still held back at the end.
    pub open spec fn tail(self) -> Seq<DeltaModel> {
        match self.start {
            Some(s) => tail_delta(reached(self.acc, s).0, self.acc, reached(self.acc, s).2),
            None => tail_delta(Region::Think, self.acc, 0),
        }
    }
}

/// Splits the growing text of a completion into regions and yields what is safe
/// to show.
#[derive(Debug)]
pub struct RegionSplitter {
    pub acc: Vec<char>,
    pub state: Region,
    /// Up to where `acc` was shown.
    pub emitted: usize,
    /// Whether the place where the reasoning begins is settled.
    pub skipped_open: bool,
    /// That place.
    pub start: usize,
}

impl RegionSplitter {
    /// The fields say of the accumulated text what `reached` says of it.
    pub open spec fn well_formed(&self) -> bool {
        if self.skipped_open {
            &&& self.start <= self.acc@.len()
            &&& self.state == reached(self.acc@, self.start as int).0
            &&& self.emitted == reached(self.acc@, self.start as int).2
        } else {
            self.state == Region::Think && self.emitted == 0
        }
    }

    pub open spec fn model(&self) -> SplitModel {
        SplitModel {
            acc: self.acc@,
            start: if self.skipped_open {
                Some(self.start as int)
            } else {
                None
            },
        }
    }

    /// What was shown so far.
    pub open spec fn visible(&self) -> (Seq<char>, Seq<char>) {
        self.model().visible()
    }

    pub fn new() -> (r: Self)
        ensures
            r.well_formed(),
            r.model() == SplitModel::new(),
    {
        RegionSplitter {
            acc: Vec::new(),
            state: Region::Think,
            emitted: 0,
            skipped_open: false,
            start: 0,
        }
    }

    /// Settles where the reasoning begins, if the text tells. Returns whether it
    /// is settled.
    fn settle_start(&mut self) -> (settled: bool)
        requires
            !old(self).skipped_open,
        ensures
            final(self).acc@ == old(self).acc@,
            final(self).state == old(self).state,
            final(self).emitted == old(self).emitted,
            final(self).skipped_open == settled,
            match reasoning_start(old(self).acc@) {
                Some(s) => settled && final(self).start == s && s <= old(self).acc@.len(),
                None => !settled,
            },
    {
        let open = text::chars_of("<think>");
        let white = text::leading_white(self.acc.as_slice());
        let lead = text::slice_of(self.acc.as_slice(), white, self.acc.len());
        proof {
            text::trim_start_shape(self.acc@);
            assert(lead@ =~= text::trim_start(self.acc@));
        }
        if text::starts(lead.as_slice(), open.as_slice()) {
            self.start = white + open.len();
            self.skipped_open = true;
            true
        } else if lead.len() > 0 && text::starts(open.as_slice(), lead.as_slice()) {
            false
        } else {
            self.start = 0;
            self.skipped_open = true;
            true
        }
    }

    /// Takes a chunk and yields what can now be shown.
    pub fn push(&mut self, chunk: &str, out: &mut Vec<RegionDelta>)
        requires
            old(self).well_formed(),
        ensures
            final(self).well_formed(),
            final(self).model() == old(self).model().taken(chunk@),
            final(self).acc@ == old(self).acc@ + chunk@,
            old(self).skipped_open ==> final(self).skipped_open && final(self).start
                == old(self).start,
            !old(self).skipped_open ==> match reasoning_start(final(self).acc@) {
                Some(s) => final(self).skipped_open && final(self).start == s,
                None => !final(self).skipped_open,
            },
            delta_models(final(out)@) == delta_models(old(out)@) + deltas_between(
                old(self).visible(),
                final(self).visible(),
            ),
    {
        let ghost was = *self;
        let added = text::chars_of(chunk);
        text::extend_chars(&mut self.acc, added.as_slice());
        let ghost none = (Seq::<char>::empty(), Seq::<char>::empty());
        if !self.skipped_open {
            if !self.settle_start() {
                assert(delta_models(out@) + deltas_between(none, none) =~= delta_models(out@));
                return ;
            }
            self.emitted = self.start;
        } else {
            proof {
                shown_only_grows(was.acc@, chunk@, self.start as int);
                reached_in_order(was.acc@, self.start as int);
            }
        }
        self.show(out, Ghost(was));
    }

    /// Shows what the settled text allows beyond what was shown.
    fn show(&mut self, out: &mut Vec<RegionDelta>, Ghost(was): Ghost<RegionSplitter>)
        requires
            old(self).skipped_open,
            old(self).start <= old(self).acc@.len(),
            !was.skipped_open ==> old(self).emitted == old(self).start && old(self).state
                == Region::Think,
            was.skipped_open ==> {
                &&& was.well_formed()
                &&& was.start == old(self).start
                &&& was.state == old(self).state
                &&& was.emitted == old(self).emitted
                &&& was.acc@.is_prefix_of(old(self).acc@)
                &&& shown(was.acc@, was.start as int).0.is_prefix_of(
                    shown(old(self).acc@, was.start as int).0,
                )
                &&& shown(was.acc@, was.start as int).1.is_prefix_of(
                    shown(old(self).acc@, was.start as int).1,
                )
            },
        ensures
            final(self).well_formed(),
            final(self).skipped_open,
            final(self).acc@ == old(self).acc@,
            final(self).start == old(self).start,
            delta_models(final(out)@) == delta_models(old(out)@) + deltas_between(
                was.visible(),
                final(self).visible(),
            ),
    {
        let close = text::chars_of("</think>");
        let call = text::chars_of("<tool_call>");
        let n: usize = self.acc.len();
        let ghost acc = self.acc@;
        let ghost start = self.start as int;
        let ghost goal = shown(acc, start);
        let ghost before = delta_models(out@);
        proof {
            reveal_strlit("</think>");
            reveal_strlit("<tool_call>");
            reached_in_order(acc, start);
            if was.skipped_open {
                reached_in_order(was.acc@, start);
            }
        }
        let body = text::slice_of(self.acc.as_slice(), self.start, n);
        assert(body@ =~= acc.skip(start));
        let (region, from, safe): (Region, usize, usize) = match text::find(
            body.as_slice(),
            close.as_slice(),
            0,
        ) {
            None => {
                let hold = partial_marker_len(body.as_slice(), close.as_slice());
                (Region::Think, self.start, n - hold)
            },
            Some(p) => {
                let from: usize = self.start + p + close.len();
                let rest = text::slice_of(self.acc.as_slice(), from, n);
                assert(rest@ =~= acc.skip(from as int));
                match text::find(rest.as_slice(), call.as_slice(), 0) {
                    None => {
                        let hold = partial_marker_len(rest.as_slice(), call.as_slice());
                        (Region::Text, from, n - hold)
                    },
                    Some(q) => (Region::ToolCalls, from, from + q),
                }
            },
        };
        assert((region, from as int, safe as int) == reached(acc, start));
        let in_think: bool = match region {
            Region::Think => true,
            _ => false,
        };
        let was_think: bool = match self.state {
            Region::Think => true,
            _ => false,
        };
        // The end of the reasoning that can be shown.
        let reasoning_end: usize = if in_think {
            safe
        } else {
            from - close.len()
        };
        let ghost seen = was.visible();
        if was_think {
            assert(seen.1.len() == 0);
            assert(self.emitted - start == seen.0.len());
            if reasoning_end > self.emitted {
                let delta = text::substring_of(self.acc.as_slice(), self.emitted, reasoning_end);
                assert(delta@ =~= goal.0.skip(seen.0.len() as int));
                out.push(RegionDelta::Reasoning(delta));
                assert(delta_models(out@) =~= before.push(DeltaModel::Reasoning(delta@)));
            }
        } else {
            proof {
                let more = acc.skip(was.acc@.len() as int);
                assert(acc =~= was.acc@ + more);
                assert(acc.skip(start) =~= was.acc@.skip(start) + more);
                found_marker_stays(was.acc@.skip(start), more, "</think>"@);
            }
            assert(seen.0.len() == goal.0.len());
        }
        let ghost mid = delta_models(out@);
        if !in_think {
            let shown_to: usize = if was_think {
                from
            } else {
                self.emitted
            };
            if safe > shown_to {
                let delta = text::substring_of(self.acc.as_slice(), shown_to, safe);
                assert(delta@ =~= goal.1.skip(seen.1.len() as int));
                out.push(RegionDelta::Text(delta));
                assert(delta_models(out@) =~= mid.push(DeltaModel::Text(delta@)));
            }
        }
        self.state = region;
        self.emitted = safe;
        assert(delta_models(out@) =~= before + deltas_between(seen, goal));
    }

    /// Shows what is still held back: a marker that never completed is content.
    pub fn finish(&mut self, out: &mut Vec<RegionDelta>)
        requires
            old(self).well_formed(),
        ensures
            final(self).acc@ == old(self).acc@,
            final(self).emitted == final(self).acc@.len(),
            final(self).state == old(self).state,
            final(self).skipped_open == old(self).skipped_open,
            final(self).start == old(self).start,
            delta_models(final(out)@) == delta_models(old(out)@) + tail_delta(
                old(self).state,
                old(self).acc@,
                old(self).emitted as int,
            ),
            delta_models(final(out)@) == delta_models(old(out)@) + old(self).model().tail(),
    {
        let ghost before = delta_models(out@);
        proof {
            if self.skipped_open {
                reached_in_order(self.acc@, self.start as int);
            }
            assert(before + Seq::<DeltaModel>::empty() =~= before);
        }
        if self.emitted < self.acc.len() {
            let tail = text::substring_of(self.acc.as_slice(), self.emitted, self.acc.len());
            assert(tail@ =~= self.acc@.skip(self.emitted as int));
            match self.state {
                Region::Think => {
                    out.push(RegionDelta::Reasoning(tail));
                    assert(delta_models(out@) =~= before + seq![DeltaModel::Reasoning(tail@)]);
                },
                Region::Text => {
                    out.push(RegionDelta::Text(tail));
                    assert(delta_models(out@) =~= before + seq![DeltaModel::Text(tail@)]);
                },
                Region::ToolCalls => {},
            }
            self.emitted = self.acc.len();
        }
    }
}

/// What is still held back at the end.
pub open spec fn tail_delta(state: Region, acc: Seq<char>, emitted: int) -> Seq<DeltaModel> {
    if emitted >= acc.len() {
        Seq::empty()
    } else {
        match state {
            Region::Think => seq![DeltaModel::Reasoning(acc.skip(emitted))],
            Region::Text => seq![DeltaModel::Text(acc.skip(emitted))],
            Region::ToolCalls => Seq::empty(),
        }
    }
}

/// At the end everything was shown, but for the closing tag and the calls: the
/// reasoning up to `</think>` and the text up to the first `<tool_call>`, in
/// whatever chunks they came.
pub proof fn everything_is_shown_at_the_end(acc: Seq<char>, start: int)
    requires
        0 <= start <= acc.len(),
    ensures
        ({
            let (region, from, safe) = reached(acc, start);
            let (reasoning, visible) = shown(acc, start);
            let body = acc.skip(start);
            match region {
                Region::Think => {
                    &&& !text::contains(body, "</think>"@)
                    &&& reasoning + acc.skip(safe) == body
                },
                Region::Text => {
                    &&& body == reasoning + "</think>"@ + visible + acc.skip(safe)
                    &&& !text::contains(visible + acc.skip(safe), "<tool_call>"@)
                },
                Region::ToolCalls => {
                    &&& body == reasoning + "</think>"@ + visible + acc.skip(safe)
                    &&& text::begins_with(acc.skip(safe), "<tool_call>"@)
                },
            }
        }),
{
    let close = "</think>"@;
    let call = "<tool_call>"@;
    let body = acc.skip(start);
    reached_in_order(acc, start);
    text::contains_is_found(body, close);
    text::find_from_is_first(body, close, 0);
    let (region, from, safe) = reached(acc, start);
    match text::find_from(body, close, 0) {
        None => {
            assert(shown(acc, start).0 + acc.skip(safe) =~= body);
        },
        Some(p) => {
            let rest = acc.skip(from);
            text::contains_is_found(rest, call);
            text::find_from_is_first(rest, call, 0);
            assert(body.subrange(p, p + close.len()) =~= close);
            assert(acc.subrange(start + p, from) =~= close);
            assert(body =~= shown(acc, start).0 + close + shown(acc, start).1 + acc.skip(safe));
            assert(shown(acc, start).1 + acc.skip(safe) =~= rest);
            match text::find_from(rest, call, 0) {
                None => {},
                Some(q) => {
                    assert(acc.skip(safe).subrange(0, call.len() as int) =~= rest.subrange(
                        q,
                        q + call.len(),
                    ));
                },
            }
        },
    }
}

// ---------------------------------------------------------------------------
// A whole run of chunks.

/// The first `n` chunks, one behind the other.
pub open spec fn joined(chunks: Seq<Seq<char>>, n: int) -> Seq<char>
    decreases n,
{
    if n <= 0 {
        Seq::empty()
    } else {
        joined(chunks, n - 1) + chunks[n - 1]
    }
}

/// A new splitter after the first `n` chunks, and what it showed by then.
pub open spec fn run(chunks: Seq<Seq<char>>, n: int) -> (SplitModel, Seq<DeltaModel>)
    decreases n,
{
    if n <= 0 {
        (SplitModel::new(), Seq::empty())
    } else {
        let (before, deltas) = run(chunks, n - 1);
        let after = before.taken(chunks[n - 1]);
        (after, deltas + deltas_between(before.visible(), after.visible()))
    }
}

/// All that is shown of a completion which comes in these chunks.
pub open spec fn shown_of(chunks: Seq<Seq<char>>) -> Seq<DeltaModel> {
    let (last, deltas) = run(chunks, chunks.len() as int);
    deltas + last.tail()
}

/// The reasoning that was shown.
pub open spec fn reasoning_of(deltas: Seq<DeltaModel>) -> Seq<char>
    decreases deltas.len(),
{
    if deltas.len() == 0 {
        Seq::empty()
    } else {
        reasoning_of(deltas.drop_last()) + match deltas.last() {
            DeltaModel::Reasoning(s) => s,
            DeltaModel::Text(_) => Seq::empty(),
        }
    }
}

/// The text that was shown.
pub open spec fn text_of(deltas: Seq<DeltaModel>) -> Seq<char>
    decreases deltas.len(),
{
    if deltas.len() == 0 {
        Seq::empty()
    } else {
        text_of(deltas.drop_last()) + match deltas.last() {
            DeltaModel::Reasoning(_) => Seq::empty(),
            DeltaModel::Text(s) => s,
        }
    }
}

/// The whole text without a stray opening tag, which is dropped unless blank
/// text came before it in a chunk of its own.
pub open spec fn body_of(chunks: Seq<Seq<char>>) -> Seq<char> {
    let all = joined(chunks, chunks.len() as int);
    let lead = text::trim_start(all);
    if chunks.len() > 0 && !text::is_blank(chunks[0]) && text::begins_with(lead, "<think>"@) {
        lead.skip("<think>"@.len() as int)
    } else {
        all
    }
}

/// The reasoning of a body, up to its first `</think>`, and its text, from there
/// up to the next `<tool_call>`.
pub open spec fn body_split(body: Seq<char>) -> (Seq<char>, Seq<char>) {
    match text::find_from(body, "</think>"@, 0) {
        None => (body, Seq::empty()),
        Some(p) => {
            let rest = body.skip(p + "</think>"@.len());
            (
                body.take(p),
                match text::find_from(rest, "<tool_call>"@, 0) {
                    None => rest,
                    Some(q) => rest.take(q),
                },
            )
        },
    }
}

proof fn parts_of_one_more(deltas: Seq<DeltaModel>, d: DeltaModel)
    ensures
        reasoning_of(deltas.push(d)) == reasoning_of(deltas) + match d {
            DeltaModel::Reasoning(s) => s,
            DeltaModel::Text(_) => Seq::empty(),
        },
        text_of(deltas.push(d)) == text_of(deltas) + match d {
            DeltaModel::Reasoning(_) => Seq::empty(),
            DeltaModel::Text(s) => s,
        },
{
    assert(deltas.push(d).drop_last() =~= deltas);
}

/// What is shown between two states makes up the difference.
proof fn deltas_make_up_the_difference(
    deltas: Seq<DeltaModel>,
    before: (Seq<char>, Seq<char>),
    after: (Seq<char>, Seq<char>),
)
    requires
        before.0.is_prefix_of(after.0),
        before.1.is_prefix_of(after.1),
        reasoning_of(deltas) == before.0,
        text_of(deltas) == before.1,
    ensures
        reasoning_of(deltas + deltas_between(before, after)) == after.0,
        text_of(deltas + deltas_between(before, after)) == after.1,
{
    let mid = if after.0.len() > before.0.len() {
        let d = DeltaModel::Reasoning(after.0.skip(before.0.len() as int));
        parts_of_one_more(deltas, d);
        deltas.push(d)
    } else {
        deltas
    };
    assert(reasoning_of(mid) =~= after.0);
    assert(text_of(mid) =~= before.1);
    let all = if after.1.len() > before.1.len() {
        let d = DeltaModel::Text(after.1.skip(before.1.len() as int));
        parts_of_one_more(mid, d);
        mid.push(d)
    } else {
        mid
    };
    assert(all =~= deltas + deltas_between(before, after));
    assert(reasoning_of(all) =~= after.0);
    assert(text_of(all) =~= after.1);
}

/// A place that is settled lies within the text.
proof fn settled_start_in_text(acc: Seq<char>)
    ensures
        match reasoning_start(acc) {
            Some(s) => 0 <= s <= acc.len(),
            None => true,
        },
{
    text::trim_start_shape(acc);
}

/// Trimming the front of a text that is not blank does not reach its end.
proof fn trim_start_of_more(acc: Seq<char>, more: Seq<char>)
    requires
        !text::is_blank(acc),
    ensures
        text::trim_start(acc + more) == text::trim_start(acc) + more,
    decreases acc.len(),
{
    if acc.len() > 0 && text::is_white(acc[0]) {
        let rest = acc.skip(1);
        assert(!text::is_blank(rest)) by {
            if text::is_blank(rest) {
                assert forall|i: int| 0 <= i < acc.len() implies text::is_white(
                    #[trigger] acc[i],
                ) by {
                    if i > 0 {
                        assert(rest[i - 1] == acc[i]);
                    }
                }
            }
        }
        trim_start_of_more(rest, more);
        assert((acc + more).skip(1) =~= rest + more);
    } else {
        assert(acc.len() > 0);
        assert((acc + more)[0] == acc[0]);
    }
}

/// Where the reasoning begins stays settled however a text that is not blank
/// goes on.
proof fn settled_start_stays(acc: Seq<char>, more: Seq<char>)
    requires
        !text::is_blank(acc),
        reasoning_start(acc) is Some,
    ensures
        reasoning_start(acc + more) == reasoning_start(acc),
{
    reveal_strlit("<think>");
    let open = "<think>"@;
    let lead = text::trim_start(acc);
    trim_start_of_more(acc, more);
    text::trim_of_blank(acc);
    let all = lead + more;
    if text::begins_with(lead, open) {
        assert(all.subrange(0, open.len() as int) =~= lead.subrange(0, open.len() as int));
        assert(text::begins_with(all, open));
    } else {
        if text::begins_with(all, open) {
            if lead.len() >= open.len() {
                assert(lead.subrange(0, open.len() as int) =~= all.subrange(0, open.len() as int));
            } else {
                assert(open.subrange(0, lead.len() as int) =~= all.subrange(
                    0,
                    open.len() as int,
                ).subrange(0, lead.len() as int));
                assert(open.subrange(0, lead.len() as int) =~= lead);
            }
            assert(false);
        }
        if text::begins_with(open, all) {
            assert(open.subrange(0, lead.len() as int) =~= open.subrange(
                0,
                all.len() as int,
            ).subrange(0, lead.len() as int));
            assert(open.subrange(0, lead.len() as int) =~= lead);
            assert(false);
        }
    }
}

/// The state of a run: its text is that of the chunks, the beginning of the
/// reasoning is settled by the text, and what was shown is what can be shown.
proof fn run_state(chunks: Seq<Seq<char>>, n: int)
    requires
        0 <= n <= chunks.len(),
    ensures
        ({
            let (m, deltas) = run(chunks, n);
            &&& m.acc == joined(chunks, n)
            &&& n == 0 ==> m.start is None
            &&& n > 0 ==> m.start == if text::is_blank(chunks[0]) {
                Some(0int)
            } else {
                reasoning_start(m.acc)
            }
            &&& n > 0 && !text::is_blank(chunks[0]) ==> !text::is_blank(m.acc)
            &&& m.start matches Some(s) ==> 0 <= s <= m.acc.len()
            &&& reasoning_of(deltas) == m.visible().0
            &&& text_of(deltas) == m.visible().1
        }),
    decreases n,
{
    if n > 0 {
        run_state(chunks, n - 1);
        let (before, deltas) = run(chunks, n - 1);
        let chunk = chunks[n - 1];
        let after = before.taken(chunk);
        settled_start_in_text(after.acc);
        if n == 1 {
            assert(after.acc =~= chunks[0]);
            text::trim_of_blank(chunks[0]);
            reveal_strlit("<think>");
        } else if !text::is_blank(chunks[0]) {
            if before.start is Some {
                settled_start_stays(before.acc, chunk);
            }
            let i = choose|i: int|
                0 <= i < before.acc.len() && !text::is_white(#[trigger] before.acc[i]);
            assert(after.acc[i] == before.acc[i]);
        }
        match before.start {
            Some(s) => {
                shown_only_grows(before.acc, chunk, s);
            },
            None => {},
        }
        deltas_make_up_the_difference(deltas, before.visible(), after.visible());
    }
}

/// What is shown of settled text in the end is the split of its body.
proof fn tail_completes_the_split(m: SplitModel, start: int, deltas: Seq<DeltaModel>)
    requires
        m.start == Some(start),
        0 <= start <= m.acc.len(),
        reasoning_of(deltas) == m.visible().0,
        text_of(deltas) == m.visible().1,
    ensures
        reasoning_of(deltas + m.tail()) == body_split(m.acc.skip(start)).0,
        text_of(deltas + m.tail()) == body_split(m.acc.skip(start)).1,
{
    let acc = m.acc;
    let body = acc.skip(start);
    let (region, from, safe) = reached(acc, start);
    let split = body_split(body);
    reached_in_order(acc, start);
    text::find_from_is_first(body, "</think>"@, 0);
    let all = deltas + m.tail();
    if safe < acc.len() && region != Region::ToolCalls {
        let d = m.tail()[0];
        parts_of_one_more(deltas, d);
        assert(all =~= deltas.push(d));
    } else {
        assert(all =~= deltas);
    }
    match text::find_from(body, "</think>"@, 0) {
        None => {
            assert(reasoning_of(all) =~= body);
            assert(text_of(all) =~= Seq::empty());
        },
        Some(p) => {
            let rest = body.skip(p + "</think>"@.len());
            assert(rest =~= acc.skip(from));
            text::find_from_is_first(rest, "<tool_call>"@, 0);
            assert(reasoning_of(all) =~= split.0);
            assert(text_of(all) =~= split.1);
        },
    }
}

/// In whatever chunks a completion comes, all of its reasoning is shown as
/// reasoning and all of its text as text, and nothing else: the reasoning is the
/// body up to its first `</think>`, or all of it where there is none, and the
/// text what follows up to the next `<tool_call>` or the end.
pub proof fn chunks_show_the_split(chunks: Seq<Seq<char>>)
    ensures
        reasoning_of(shown_of(chunks)) == body_split(body_of(chunks)).0,
        text_of(shown_of(chunks)) == body_split(body_of(chunks)).1,
{
    reveal_strlit("<think>");
    reveal_strlit("</think>");
    let n = chunks.len() as int;
    run_state(chunks, n);
    let (m, deltas) = run(chunks, n);
    let acc = m.acc;
    text::trim_start_shape(acc);
    let lead = text::trim_start(acc);
    match m.start {
        Some(s) => {
            tail_completes_the_split(m, s, deltas);
            assert(acc.skip(s) =~= body_of(chunks));
        },
        None => {
            assert(body_of(chunks) == acc);
            text::find_from_is_first(acc, "</think>"@, 0);
            if let Some(p) = text::find_from(acc, "</think>"@, 0) {
                assert(acc.subrange(p, p + 8)[1] == acc[p + 1]);
                let skipped = acc.len() - lead.len();
                if p + 1 >= skipped {
                    assert(lead[p + 1 - skipped] == acc[p + 1]);
                    assert("<think>"@.subrange(0, lead.len() as int)[p + 1 - skipped]
                        == acc[p + 1]);
                }
                assert(false);
            }
            if acc.len() > 0 {
                parts_of_one_more(deltas, DeltaModel::Reasoning(acc.skip(0)));
                assert(deltas + m.tail() =~= deltas.push(DeltaModel::Reasoning(acc.skip(0))));
                assert(acc.skip(0) =~= acc);
            } else {
                assert(deltas + m.tail() =~= deltas);
            }
            assert(reasoning_of(shown_of(chunks)) =~= acc);
            assert(text_of(shown_of(chunks)) =~= Seq::empty());
        },
    }
}

// ---------------------------------------------------------------------------
// Laws.

/// The reasoning is what stands between its marks, or up to the end where it is not closed,
/// less the blanks around it; the answer is what stands behind, less the blanks before it. The
/// first mark may be missing.
pub proof fn reasoning_stands_between_its_marks(blank: Seq<char>, a: Seq<char>, b: Seq<char>)
    requires
        text::is_blank(blank),
        !text::contains(a, "</think>"@),
        forall|j: int|
            0 <= j < a.len() ==> !text::occurs_at(a + "</think>"@ + b, "</think>"@, j),
        a.len() > 0 ==> !text::is_white(a[0]),
        !text::begins_with(a, "<think>"@),
        !text::begins_with(a + "</think>"@ + b, "<think>"@),
    ensures
        think_split(blank + ("<think>"@ + (a + "</think>"@ + b))) == (
            text::trim(a),
            text::trim_start(b),
        ),
        think_split(blank + (a + "</think>"@ + b)) == (text::trim(a), text::trim_start(b)),
        think_split(blank + ("<think>"@ + a)) == (text::trim(a), Seq::<char>::empty()),
        think_split(blank + a) == (text::trim(a), Seq::<char>::empty()),
{
    reveal_strlit("<think>");
    reveal_strlit("</think>");
    let (open, close) = ("<think>"@, "</think>"@);
    assert(open.len() == 7 && close.len() == 8);
    let body = a + close + b;
    closed_at(a, b);
    white_is_led(blank, open + body);
    white_is_led(blank, body);
    white_is_led(blank, open + a);
    white_is_led(blank, a);
    assert((open + body).take(7) =~= open && (open + body).skip(7) =~= body);
    assert((open + a).take(7) =~= open && (open + a).skip(7) =~= a);
    text::contains_is_found(a, close);
    assert(body.take(a.len() as int) =~= a);
    assert(body.skip(a.len() as int + 8) =~= b);
    text::white_below_delete('<');
    assert(text::trim_start(open + body) == open + body);
    assert(text::trim_start(open + a) == open + a);
    if a.len() > 0 {
        assert(body[0] == a[0]);
    } else {
        assert(body[0] == '<');
    }
    assert(text::trim_start(body) == body);
    assert(text::trim_start(a) == a);
}

proof fn white_is_led(blank: Seq<char>, s: Seq<char>)
    requires
        text::is_blank(blank),
    ensures
        text::trim_start(blank + s) == text::trim_start(s),
{
    text::trim_start_drops_white(blank, s);
}

proof fn closed_at(a: Seq<char>, b: Seq<char>)
    requires
        forall|j: int|
            0 <= j < a.len() ==> !text::occurs_at(a + "</think>"@ + b, "</think>"@, j),
    ensures
        text::find_from(a + "</think>"@ + b, "</think>"@, 0) == Some(a.len() as int),
{
    let body = a + "</think>"@ + b;
    let n = a.len() as int;
    assert(body.subrange(n, n + "</think>"@.len()) =~= "</think>"@);
    assert(text::occurs_at(body, "</think>"@, n));
    text::find_from_is_first(body, "</think>"@, 0);
}

/// What is shown of a completion is its reasoning up to the mark that closes it, then the
/// answer up to the first call, with nothing of either left out and nothing of the calls.
pub proof fn what_is_shown_ends_at_the_first_call(a: Seq<char>, b: Seq<char>, c: Seq<char>)
    requires
        !text::contains(a, "</think>"@),
        !text::contains(b, "<tool_call>"@),
        forall|j: int|
            0 <= j < a.len() ==> !text::occurs_at(a + "</think>"@ + b, "</think>"@, j),
        forall|j: int|
            0 <= j < a.len() ==> !text::occurs_at(
                a + "</think>"@ + (b + "<tool_call>"@ + c),
                "</think>"@,
                j,
            ),
        forall|j: int|
            0 <= j < b.len() ==> !text::occurs_at(b + "<tool_call>"@ + c, "<tool_call>"@, j),
    ensures
        body_split(a) == (a, Seq::<char>::empty()),
        body_split(a + "</think>"@ + b) == (a, b),
        body_split(a + "</think>"@ + (b + "<tool_call>"@ + c)) == (a, b),
{
    let (close, call) = ("</think>"@, "<tool_call>"@);
    text::contains_is_found(a, close);
    text::contains_is_found(b, call);
    closed_at(a, b);
    let rest = b + call + c;
    closed_at(a, rest);
    let n = b.len() as int;
    assert(rest.subrange(n, n + call.len()) =~= call);
    assert(text::occurs_at(rest, call, n));
    text::find_from_is_first(rest, call, 0);
    let one = a + close + b;
    let other = a + close + rest;
    assert(one.take(a.len() as int) =~= a && other.take(a.len() as int) =~= a);
    assert(one.skip(a.len() as int + close.len()) =~= b);
    assert(other.skip(a.len() as int + close.len()) =~= rest);
    assert(rest.take(n) =~= b);
}

} // verus!
