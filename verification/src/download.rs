//! A resumable download. The caller transfers bytes and writes them; what to ask
//! for, what to accept and when to give up is decided here.

use crate::digest;
use crate::digest::Content;
use crate::text;
use vstd::prelude::*;
use vstd::string::*;

verus! {

// ---------------------------------------------------------------------------
// Ranges.

/// The bounds and the total that a `Content-Range` header names.
pub open spec fn content_range(header: Option<Seq<char>>) -> Option<(nat, nat, nat)> {
    match header {
        None => None,
        Some(h) => match text::without_prefix(h, "bytes "@) {
            None => None,
            Some(range) => match text::halves(range, '/') {
                None => None,
                Some((bounds, total)) => match text::halves(bounds, '-') {
                    None => None,
                    Some((start, end)) => match (
                        text::parse_unsigned(start, u64::MAX as nat),
                        text::parse_unsigned(end, u64::MAX as nat),
                        text::parse_unsigned(total, u64::MAX as nat),
                    ) {
                        (Some(a), Some(b), Some(n)) => Some((a, b, n)),
                        _ => None,
                    },
                },
            },
        },
    }
}

/// The size that an answer to a range behind the end names.
pub open spec fn size_beyond(header: Option<Seq<char>>) -> Option<nat> {
    match header {
        None => None,
        Some(h) => match text::without_prefix(h, "bytes */"@) {
            None => None,
            Some(total) => text::parse_unsigned(total, u64::MAX as nat),
        },
    }
}

/// The size of the whole file, as an answer to a request from `offset` on tells
/// it: none where it tells none, an error where it does not fit the request.
pub open spec fn total_of(status: u16, header: Option<Seq<char>>, offset: nat) -> Result<
    Option<nat>,
    (),
> {
    if status == 416 {
        match size_beyond(header) {
            Some(total) if offset > 0 && offset == total => Ok(Some(total)),
            _ => Err(()),
        }
    } else if status != 206 {
        Ok(None)
    } else {
        match content_range(header) {
            Some((start, end, total)) if start == offset && start <= end && end < total => Ok(
                Some(total),
            ),
            _ => Err(()),
        }
    }
}

pub open spec fn header_text(header: Option<&str>) -> Option<Seq<char>> {
    match header {
        Some(h) => Some(h@),
        None => None,
    }
}

fn read_range(header: Option<&str>) -> (r: Option<(u64, u64, u64)>)
    ensures
        match r {
            Some((a, b, n)) => content_range(header_text(header)) == Some(
                (a as nat, b as nat, n as nat),
            ),
            None => content_range(header_text(header)) is None,
        },
{
    let cs = match header {
        Some(h) => text::chars_of(h),
        None => {
            return None;
        },
    };
    let range = match text::strip_prefix(cs.as_slice(), "bytes ") {
        Some(v) => v,
        None => {
            return None;
        },
    };
    let (bounds, total) = match text::split_once(range.as_slice(), '/') {
        Some(p) => p,
        None => {
            return None;
        },
    };
    let (start, end) = match text::split_once(bounds.as_slice(), '-') {
        Some(p) => p,
        None => {
            return None;
        },
    };
    let a = text::read_unsigned(start.as_slice(), u64::MAX);
    let b = text::read_unsigned(end.as_slice(), u64::MAX);
    let n = text::read_unsigned(total.as_slice(), u64::MAX);
    match (a, b, n) {
        (Some(a), Some(b), Some(n)) => Some((a, b, n)),
        _ => None,
    }
}

pub open spec fn inconsistent() -> Seq<char> {
    "Download returned inconsistent Content-Range; partial download preserved"@
}

/// The size of the whole file, as an answer to a request from `offset` on tells
/// it.
pub fn resumed_total(status: u16, header: Option<&str>, offset: u64) -> (r: Result<
    Option<u64>,
    String,
>)
    ensures
        match total_of(status, header_text(header), offset as nat) {
            Ok(Some(n)) => r matches Ok(Some(m)) && m == n,
            Ok(None) => r matches Ok(None),
            Err(_) => r matches Err(m) && m@ == inconsistent(),
        },
{
    let bad = "Download returned inconsistent Content-Range; partial download preserved";
    if status == 416 {
        let cs = match header {
            Some(h) => text::chars_of(h),
            None => {
                return Err(bad.to_string());
            },
        };
        let size = match text::strip_prefix(cs.as_slice(), "bytes */") {
            Some(v) => text::read_unsigned(v.as_slice(), u64::MAX),
            None => None,
        };
        match size {
            Some(total) => {
                if offset > 0 && offset == total {
                    Ok(Some(total))
                } else {
                    Err(bad.to_string())
                }
            },
            None => Err(bad.to_string()),
        }
    } else if status != 206 {
        Ok(None)
    } else {
        match read_range(header) {
            Some((start, end, total)) => {
                if start != offset || end < start || end >= total {
                    Err(bad.to_string())
                } else {
                    Ok(Some(total))
                }
            },
            None => Err(bad.to_string()),
        }
    }
}

/// An answer is accepted as the rest of a file only where it starts exactly where
/// the file so far ends, and one that says there is no rest only where the file so
/// far is as long as the whole.
pub proof fn only_the_exact_rest_is_accepted(status: u16, header: Option<Seq<char>>, offset: nat)
    requires
        total_of(status, header, offset) is Ok,
    ensures
        status == 206 ==> content_range(header) is Some && content_range(header).unwrap().0
            == offset && offset <= content_range(header).unwrap().1 < content_range(
            header,
        ).unwrap().2,
        status == 416 ==> size_beyond(header) == Some(offset) && offset > 0,
{
}

// ---------------------------------------------------------------------------
// The transfer.

/// A download so far.
#[derive(Debug)]
pub struct Download {
    /// What is written.
    pub content: Content,
    /// The size of the whole file, once it is known.
    pub total: Option<u64>,
    /// Attempts in a row that brought nothing.
    pub stalls: u32,
    /// What was written when the attempt began.
    pub attempt_start: u64,
    /// Where the answer that is read ends, where that is known.
    pub response_end: Option<u64>,
}

/// What to do with an answer.
#[derive(Debug)]
pub enum ResponseStep {
    /// The file is whole.
    Complete,
    /// Read the body. `restart` is set where it begins at the front: what was
    /// written is to be cut off first.
    Body { restart: bool },
    /// Give up; the message says why.
    Fail(String),
}

/// What to do with a piece of a body.
#[derive(Debug)]
pub enum ChunkStep {
    Write,
    Fail(String),
}

/// What to do at the end of a body.
#[derive(Debug)]
pub enum EndStep {
    /// The file is whole.
    Complete,
    /// Ask for the rest at once.
    Resume,
    /// The answer brought nothing: an interruption.
    Interrupted(String),
    Fail(String),
}

/// What to do behind an interruption.
#[derive(Debug)]
pub enum RetryStep {
    /// Wait so many milliseconds, then ask again.
    Wait(u64),
    Fail(String),
}

/// Where the answer ends, as its header tells.
pub open spec fn range_end(header: Option<Seq<char>>) -> Option<nat> {
    match content_range(header) {
        Some((_, end, _)) if end < u64::MAX => Some((end + 1) as nat),
        _ => None,
    }
}

pub open spec fn failed_text(label: Seq<char>, status: Seq<char>, url: Seq<char>) -> Seq<char> {
    label + " download failed ("@ + status + "): "@ + url + "; partial download preserved"@
}

/// 500 milliseconds, doubled with each stall, up to 30 seconds.
pub open spec fn backoff(stalls: nat) -> nat
    decreases stalls,
{
    if stalls == 0 {
        500
    } else if stalls > 6 {
        backoff(6)
    } else {
        let d = 2 * backoff((stalls - 1) as nat);
        if d > 30000 {
            30000
        } else {
            d
        }
    }
}

fn backoff_ms(stalls: u32) -> (r: u64)
    ensures
        r == backoff(stalls as nat),
        r <= 30000,
{
    let most: u32 = if stalls > 6 {
        6
    } else {
        stalls
    };
    assert(backoff(stalls as nat) == backoff(most as nat));
    let mut d: u64 = 500;
    let mut n: u32 = 0;
    while n < most
        invariant
            n <= most <= 6,
            d == backoff(n as nat),
            d <= 30000,
        decreases most - n,
    {
        d = if 2 * d > 30000 {
            30000
        } else {
            2 * d
        };
        n += 1;
    }
    d
}

/// A download: the bytes that are written, and what is known of the whole.
pub struct DownloadModel {
    pub bytes: Seq<u8>,
    pub total: Option<nat>,
    pub end: Option<nat>,
}

/// What comes of a response.
pub enum Answer {
    Complete,
    Body,
    Fail,
}

impl DownloadModel {
    /// What comes of a response to the request for the bytes behind those that are written.
    pub open spec fn answered(
        self,
        status: u16,
        header: Option<Seq<char>>,
        length: Option<nat>,
    ) -> (DownloadModel, Answer) {
        match total_of(status, header, self.bytes.len()) {
            Err(_) => (self, Answer::Fail),
            Ok(found) => if status == 416 {
                (self, Answer::Complete)
            } else if status != 200 && status != 206 {
                (self, Answer::Fail)
            } else if status == 200 {
                let total = if self.bytes.len() > 0 || self.total is None {
                    length
                } else {
                    self.total
                };
                (DownloadModel { bytes: Seq::empty(), total, end: total }, Answer::Body)
            } else if self.total is Some && self.total != found {
                (self, Answer::Fail)
            } else {
                (
                    DownloadModel { bytes: self.bytes, total: found, end: range_end(header) },
                    Answer::Body,
                )
            },
        }
    }

    /// What comes of a piece of the body, and whether it is written.
    pub open spec fn fed(self, piece: Seq<u8>) -> (DownloadModel, bool) {
        if self.end matches Some(end) && self.bytes.len() + piece.len() > end {
            (self, false)
        } else {
            (DownloadModel { bytes: self.bytes + piece, ..self }, true)
        }
    }

    /// Whether the file is whole where the body ends.
    pub open spec fn is_whole(self) -> bool {
        self.total matches Some(n) ==> self.bytes.len() == n
    }
}

pub open spec fn natural(n: Option<u64>) -> Option<nat> {
    match n {
        Some(v) => Some(v as nat),
        None => None,
    }
}

impl Download {
    pub open spec fn model(&self) -> DownloadModel {
        DownloadModel {
            bytes: self.content@,
            total: natural(self.total),
            end: natural(self.response_end),
        }
    }

    /// What was written does not go behind the end of the answer.
    pub open spec fn well_formed(&self) -> bool {
        &&& self.content.well_formed()
        &&& self.response_end matches Some(end) ==> self.content@.len() <= end
    }

    /// A download of a file of which `kept` is there.
    pub fn resume_from(kept: Content) -> (r: Self)
        requires
            kept.well_formed(),
        ensures
            r.well_formed(),
            r.content == kept,
            r.total is None,
            r.stalls == 0,
            r.attempt_start == kept@.len(),
            r.response_end is None,
    {
        let attempt_start: u64 = kept.len();
        Download { content: kept, total: None, stalls: 0, attempt_start, response_end: None }
    }

    /// How many bytes are written.
    pub fn downloaded(&self) -> (r: u64)
        requires
            self.well_formed(),
        ensures
            r == self.content@.len(),
    {
        self.content.len()
    }

    /// Begins an attempt. Returns the value of the `Range` header that it needs;
    /// none where the whole file is asked for.
    pub fn begin_attempt(&mut self) -> (range: Option<String>)
        requires
            old(self).well_formed(),
        ensures
            final(self).well_formed(),
            final(self).content == old(self).content,
            final(self).total == old(self).total,
            final(self).stalls == old(self).stalls,
            final(self).attempt_start == old(self).content@.len(),
            final(self).response_end is None,
            text::optional(range) == if old(self).content@.len() > 0 {
                Some("bytes="@ + text::decimal(old(self).content@.len()) + "-"@)
            } else {
                None
            },
    {
        self.attempt_start = self.content.len();
        self.response_end = None;
        if self.content.len() > 0 {
            let mut out = "bytes=".to_string();
            out.append(text::decimal_string(self.content.len() as u128).as_str());
            out.append("-");
            Some(out)
        } else {
            None
        }
    }

    /// Takes the head of an answer. `status_text` is the status in words, `length`
    /// the length of the body.
    pub fn on_response(
        &mut self,
        status: u16,
        status_text: &str,
        header: Option<&str>,
        length: Option<u64>,
        label: &str,
        url: &str,
    ) -> (r: ResponseStep)
        requires
            old(self).well_formed(),
        ensures
            final(self).well_formed(),
            final(self).stalls == old(self).stalls,
            final(self).attempt_start == old(self).attempt_start,
            final(self).model() == old(self).model().answered(
                status,
                header_text(header),
                natural(length),
            ).0,
            match old(self).model().answered(status, header_text(header), natural(length)).1 {
                Answer::Complete => r is Complete,
                Answer::Body => r is Body,
                Answer::Fail => r is Fail,
            },
            match total_of(status, header_text(header), old(self).content@.len()) {
                Err(_) => {
                    &&& r matches ResponseStep::Fail(m) && m@ == inconsistent()
                    &&& *final(self) == *old(self)
                },
                Ok(found) => if status == 416 {
                    r is Complete && *final(self) == *old(self)
                } else if status != 200 && status != 206 {
                    &&& r matches ResponseStep::Fail(m) && m@ == failed_text(
                        label@,
                        status_text@,
                        url@,
                    )
                    &&& *final(self) == *old(self)
                } else if status == 200 {
                    // The whole file comes, from its front.
                    &&& r matches ResponseStep::Body { restart } && restart == (
                    old(self).content@.len() > 0)
                    &&& final(self).content@ == Seq::<u8>::empty()
                    &&& final(self).total == if old(self).content@.len() > 0 || old(self).total is None {
                        length
                    } else {
                        old(self).total
                    }
                    &&& final(self).response_end == final(self).total
                } else if old(self).total is Some && old(self).total.unwrap() as nat
                    != found.unwrap() {
                    &&& r matches ResponseStep::Fail(m) && m@
                        == "Download size changed during resume; partial download preserved"@
                    &&& *final(self) == *old(self)
                } else {
                    &&& r matches ResponseStep::Body { restart } && !restart
                    &&& final(self).content == old(self).content
                    &&& final(self).total is Some && final(self).total.unwrap() == found.unwrap()
                    &&& match range_end(header_text(header)) {
                        Some(end) => final(self).response_end is Some
                            && final(self).response_end.unwrap() == end,
                        None => final(self).response_end is None,
                    }
                },
            },
    {
        let found: Option<u64> = match resumed_total(status, header, self.content.len()) {
            Ok(n) => n,
            Err(m) => {
                return ResponseStep::Fail(m);
            },
        };
        if status == 416 {
            return ResponseStep::Complete;
        }
        if status != 200 && status != 206 {
            let mut m = label.to_string();
            m.append(" download failed (");
            m.append(status_text);
            m.append("): ");
            m.append(url);
            m.append("; partial download preserved");
            return ResponseStep::Fail(m);
        }
        if status == 200 {
            let restart: bool = self.content.len() > 0;
            if restart {
                self.content = Content::new();
                self.total = None;
            }
            assert(self.content@ =~= Seq::<u8>::empty());
            if self.total.is_none() {
                self.total = length;
            }
            self.response_end = self.total;
            return ResponseStep::Body { restart };
        }
        match (self.total, found) {
            (Some(a), Some(b)) => {
                if a != b {
                    return ResponseStep::Fail(
                        "Download size changed during resume; partial download preserved".to_string(),
                    );
                }
            },
            _ => {},
        }
        self.total = found;
        self.response_end = match read_range(header) {
            Some((_, end, _)) => if end < u64::MAX {
                Some(end + 1)
            } else {
                None
            },
            None => None,
        };
        ResponseStep::Body { restart: false }
    }

    /// Takes a piece of the body.
    pub fn on_chunk(&mut self, bytes: &[u8]) -> (r: ChunkStep)
        requires
            old(self).well_formed(),
            old(self).content@.len() + bytes@.len() <= u64::MAX,
        ensures
            final(self).well_formed(),
            final(self).total == old(self).total,
            final(self).stalls == old(self).stalls,
            final(self).attempt_start == old(self).attempt_start,
            final(self).response_end == old(self).response_end,
            final(self).model() == old(self).model().fed(bytes@).0,
            r is Write <==> old(self).model().fed(bytes@).1,
            if old(self).response_end is Some && old(self).content@.len() + bytes@.len()
                > old(self).response_end.unwrap() {
                &&& r matches ChunkStep::Fail(m) && m@
                    == "Download body exceeds its advertised range; partial download preserved"@
                &&& final(self).content == old(self).content
            } else {
                &&& r is Write
                &&& final(self).content@ == old(self).content@ + bytes@
            },
    {
        match self.response_end {
            Some(end) => {
                if self.content.len() + bytes.len() as u64 > end {
                    return ChunkStep::Fail(
                        "Download body exceeds its advertised range; partial download preserved".to_string(),
                    );
                }
            },
            None => {},
        }
        self.content.take_piece(bytes);
        ChunkStep::Write
    }

    /// Takes the end of the body.
    pub fn on_body_end(&self) -> (r: EndStep)
        requires
            self.well_formed(),
        ensures
            r is Complete <==> self.model().is_whole(),
            match self.total {
                Some(total) => if self.content@.len() > total {
                    r matches EndStep::Fail(m) && m@
                        == "Download exceeded its advertised size; partial download preserved"@
                } else if self.content@.len() < total {
                    if self.content@.len() == self.attempt_start {
                        r matches EndStep::Interrupted(m) && m@ == "response ended without progress"@
                    } else {
                        r is Resume
                    }
                } else {
                    r is Complete
                },
                None => r is Complete,
            },
    {
        match self.total {
            Some(total) => {
                if self.content.len() > total {
                    EndStep::Fail(
                        "Download exceeded its advertised size; partial download preserved".to_string(),
                    )
                } else if self.content.len() < total {
                    if self.content.len() == self.attempt_start {
                        EndStep::Interrupted("response ended without progress".to_string())
                    } else {
                        EndStep::Resume
                    }
                } else {
                    EndStep::Complete
                }
            },
            None => EndStep::Complete,
        }
    }

    /// Takes an interruption: waits longer with each attempt that brought nothing,
    /// and gives up behind the fifth of them in a row.
    pub fn on_interruption(&mut self, problem: &str, label: &str) -> (r: RetryStep)
        requires
            old(self).well_formed(),
        ensures
            final(self).well_formed(),
            final(self).content == old(self).content,
            final(self).total == old(self).total,
            final(self).attempt_start == old(self).attempt_start,
            final(self).response_end == old(self).response_end,
            final(self).stalls == if old(self).content@.len() > old(self).attempt_start {
                0
            } else if old(self).stalls < u32::MAX {
                (old(self).stalls + 1) as u32
            } else {
                u32::MAX
            },
            if final(self).stalls >= 5 {
                r matches RetryStep::Fail(m) && m@ == label@ + " download stalled after "@
                    + text::decimal(old(self).content@.len()) + " bytes ("@ + problem@
                    + "); rerun to resume"@
            } else {
                r matches RetryStep::Wait(ms) && ms == backoff(final(self).stalls as nat)
            },
    {
        if self.content.len() > self.attempt_start {
            self.stalls = 0;
        } else if self.stalls < u32::MAX {
            self.stalls = self.stalls + 1;
        }
        if self.stalls >= 5 {
            let mut m = label.to_string();
            m.append(" download stalled after ");
            m.append(text::decimal_string(self.content.len() as u128).as_str());
            m.append(" bytes (");
            m.append(problem);
            m.append("); rerun to resume");
            RetryStep::Fail(m)
        } else {
            RetryStep::Wait(backoff_ms(self.stalls))
        }
    }

    /// Checks the whole file, once it is there: `Ok` where no digest is expected, or
    /// where the bytes that were written have the expected one. Letters may be small or
    /// capital.
    pub fn verify(self, expected: Option<&str>, label: &str) -> (r: Result<(), String>)
        ensures
            r is Ok <==> digest_fits(self.content@, header_text(expected)),
            match (r, expected) {
                (Err(m), Some(e)) => m@ == mismatch_text(
                    label@,
                    e@,
                    digest::sha256_hex(self.content@),
                ),
                _ => true,
            },
    {
        let found = self.content.digest();
        check_digest(found.as_str(), expected, label)
    }
}

/// Whether a file is the expected one, as far as its digest tells.
pub open spec fn digest_fits(content: Seq<u8>, expected: Option<Seq<char>>) -> bool {
    match expected {
        Some(e) => text::lower(digest::sha256_hex(content)) == text::lower(e),
        None => true,
    }
}

/// The message for a file whose digest is not the expected one.
pub open spec fn mismatch_text(label: Seq<char>, expected: Seq<char>, digest: Seq<char>) -> Seq<char> {
    label + " download checksum mismatch: expected "@ + expected + ", got "@ + digest
        + ";                  partial file removed, rerun to retry"@
}

/// Whether a file whose digest is `digest` is the expected one; the message where
/// it is not. Letters may be small or capital.
fn check_digest(digest: &str, expected: Option<&str>, label: &str) -> (r: Result<(), String>)
    ensures
        match expected {
            Some(e) => if text::lower(digest@) == text::lower(e@) {
                r is Ok
            } else {
                r matches Err(m) && m@ == mismatch_text(label@, e@, digest@)
            },
            None => r is Ok,
        },
{
    match expected {
        Some(e) => {
            if text::same_ignoring_case(digest, e) {
                Ok(())
            } else {
                let mut m = label.to_string();
                m.append(" download checksum mismatch: expected ");
                m.append(e);
                m.append(", got ");
                m.append(digest);
                m.append(";                  partial file removed, rerun to retry");
                Err(m)
            }
        },
        None => Ok(()),
    }
}

/// A number of seconds that is set, above zero; else the usual one.
pub open spec fn seconds_or(value: Option<Seq<char>>, usual: u64) -> nat {
    match value {
        Some(v) => match text::parse_unsigned(v, u64::MAX as nat) {
            Some(n) if n > 0 => n,
            _ => usual as nat,
        },
        None => usual as nat,
    }
}

/// A number of seconds that is set, above zero; else the usual one.
pub fn timeout_seconds(value: Option<&str>, usual: u64) -> (r: u64)
    ensures
        r == seconds_or(header_text(value), usual),
{
    match value {
        Some(v) => {
            let cs = text::chars_of(v);
            match text::read_unsigned(cs.as_slice(), u64::MAX) {
                Some(n) => if n > 0 {
                    n
                } else {
                    usual
                },
                None => usual,
            }
        },
        None => usual,
    }
}

// ---------------------------------------------------------------------------
// Laws.

/// A response of a server that has the file `whole`, to a request for the bytes from
/// `offset` on: all of the file, the bytes from there up to some place, or the word that
/// there is nothing behind. A proxy may answer with anything else that is no content.
pub open spec fn is_honest(
    whole: Seq<u8>,
    offset: nat,
    status: u16,
    header: Option<Seq<char>>,
    length: Option<nat>,
) -> bool {
    &&& status == 200 ==> length == Some(whole.len())
    &&& status == 206 ==> (content_range(header) matches Some((start, end, total)) ==> total
        == whole.len())
    &&& status == 416 ==> (size_beyond(header) matches Some(total) ==> total == whole.len())
}

/// Whether what is written is the front of the file, and what is known of the file is true.
pub open spec fn is_front_of(d: DownloadModel, whole: Seq<u8>) -> bool {
    &&& d.bytes.is_prefix_of(whole)
    &&& d.total matches Some(n) ==> n == whole.len()
    &&& d.end matches Some(e) ==> d.bytes.len() <= e <= whole.len()
}

/// Where a server answers for one file, what is written stays the front of that file, and
/// a download that is told to be complete by the answer holds all of it: a whole file
/// begins anew, a rest is taken only where it begins at the end of what is written, and
/// what went before is never changed otherwise.
pub proof fn answers_keep_the_front(
    d: DownloadModel,
    whole: Seq<u8>,
    status: u16,
    header: Option<Seq<char>>,
    length: Option<nat>,
)
    requires
        is_front_of(d, whole),
        is_honest(whole, d.bytes.len(), status, header, length),
        whole.len() < u64::MAX,
    ensures
        ({
            let (next, answer) = d.answered(status, header, length);
            &&& is_front_of(next, whole)
            &&& answer is Complete ==> next.bytes == whole && next == d
            &&& answer is Fail ==> next == d
            &&& answer is Body ==> status == 200 || status == 206
            &&& answer is Body && status == 200 ==> next.bytes.len() == 0 && next.total == Some(
                whole.len(),
            )
            &&& answer is Body && status == 206 ==> next.bytes == d.bytes && next.total == Some(
                whole.len(),
            )
        }),
{
    let (next, answer) = d.answered(status, header, length);
    if answer is Complete {
        assert(d.bytes =~= whole);
    }
}

/// The pieces of a body that goes on where what is written ends are written as they come, and
/// none of them is refused.
pub proof fn pieces_are_written_as_they_come(d: DownloadModel, whole: Seq<u8>, piece: Seq<u8>)
    requires
        is_front_of(d, whole),
        (d.bytes + piece).is_prefix_of(whole),
        d.end matches Some(e) ==> d.bytes.len() + piece.len() <= e,
    ensures
        d.fed(piece).1,
        d.fed(piece).0.bytes == d.bytes + piece,
        is_front_of(d.fed(piece).0, whole),
{
}

/// A piece that reaches beyond what the answer announced is refused, and nothing of it is
/// written.
pub proof fn excess_is_refused(d: DownloadModel, piece: Seq<u8>, end: nat)
    requires
        d.end == Some(end),
        d.bytes.len() + piece.len() > end,
    ensures
        !d.fed(piece).1,
        d.fed(piece).0 == d,
{
}

/// A body that ends leaves the file whole exactly where all of it is written, once its size is
/// known.
pub proof fn only_whole_files_are_complete(d: DownloadModel, whole: Seq<u8>)
    requires
        is_front_of(d, whole),
        d.total is Some,
    ensures
        d.is_whole() <==> d.bytes == whole,
{
    if d.bytes.len() == whole.len() {
        assert(d.bytes =~= whole);
    }
}

/// The rest of a file is accepted only where it is announced to begin just where what is
/// written ends; where it is, with an end within the file, it is.
pub proof fn rests_begin_where_the_file_ends(start: nat, end: nat, total: nat, offset: nat)
    requires
        start <= u64::MAX,
        end <= u64::MAX,
        total <= u64::MAX,
    ensures
        ({
            let header = "bytes "@ + (text::decimal(start) + seq!['-'] + text::decimal(end)
                + seq!['/'] + text::decimal(total));
            &&& content_range(Some(header)) == Some((start, end, total))
            &&& total_of(206, Some(header), offset) == if start == offset && start <= end && end
                < total {
                Ok::<Option<nat>, ()>(Some(total))
            } else {
                Err::<Option<nat>, ()>(())
            }
        }),
        ({
            let header = "bytes */"@ + text::decimal(total);
            total_of(416, Some(header), offset) == if offset > 0 && offset == total {
                Ok::<Option<nat>, ()>(Some(total))
            } else {
                Err::<Option<nat>, ()>(())
            }
        }),
{
    let none = Seq::<char>::empty();
    let (a, b, c) = (text::decimal(start), text::decimal(end), text::decimal(total));
    text::decimal_is_read_back(start);
    text::decimal_is_read_back(end);
    text::decimal_is_read_back(total);
    text::numbers_are_read_back(start, u64::MAX as nat, none);
    text::numbers_are_read_back(end, u64::MAX as nat, none);
    text::numbers_are_read_back(total, u64::MAX as nat, none);
    assert(none + a =~= a);
    assert(none + b =~= b);
    assert(none + c =~= c);
    let bounds = a + seq!['-'] + b;
    let range = bounds + seq!['/'] + c;
    let header = "bytes "@ + range;
    assert(header.subrange(0, "bytes "@.len() as int) =~= "bytes "@);
    assert(header.skip("bytes "@.len() as int) =~= range);
    assert(header =~= "bytes "@ + (a + seq!['-'] + b + seq!['/'] + c));
    assert forall|i: int| 0 <= i < bounds.len() implies #[trigger] bounds[i] != '/' by {
        if i < a.len() {
            assert(text::is_digit(a[i]));
        } else if i > a.len() {
            assert(text::is_digit(b[i - a.len() - 1]));
        }
    }
    halves_of(bounds, c, '/');
    assert forall|i: int| 0 <= i < a.len() implies #[trigger] a[i] != '-' by {
        assert(text::is_digit(a[i]));
    }
    halves_of(a, b, '-');
    let beyond = "bytes */"@ + c;
    assert(beyond.subrange(0, "bytes */"@.len() as int) =~= "bytes */"@);
    assert(beyond.skip("bytes */"@.len() as int) =~= c);
}

proof fn halves_of(a: Seq<char>, b: Seq<char>, sep: char)
    requires
        forall|i: int| 0 <= i < a.len() ==> #[trigger] a[i] != sep,
    ensures
        text::halves(a + seq![sep] + b, sep) == Some((a, b)),
{
    let s = a + seq![sep] + b;
    text::upto_shape(s, sep);
    assert(s[a.len() as int] == sep);
    if text::upto(s, sep) < a.len() {
        assert(s[text::upto(s, sep)] == a[text::upto(s, sep)]);
    }
    assert(s.take(a.len() as int) =~= a);
    assert(s.skip(a.len() as int + 1) =~= b);
}

/// The wait before another try doubles with each try that brought nothing, from half a second
/// up to half a minute.
pub proof fn waits_double_up_to_a_limit(stalls: nat)
    ensures
        500 <= backoff(stalls) <= 30000,
        backoff(0) == 500,
        stalls < 6 ==> backoff(stalls + 1) == 2 * backoff(stalls) || backoff(stalls + 1) == 30000,
        backoff(stalls) <= backoff(stalls + 1),
        stalls <= 5 ==> backoff(stalls) < 30000 && backoff(6) == 30000,
{
    reveal_with_fuel(backoff, 9);
}

/// A file is accepted exactly where no digest is expected or its own is the one expected,
/// in whatever case the two are written.
pub proof fn files_are_accepted_by_their_digest(bytes: Seq<u8>, expected: Seq<char>)
    ensures
        digest_fits(bytes, None),
        digest_fits(bytes, Some(digest::sha256_hex(bytes))),
        digest_fits(bytes, Some(expected)) ==> text::lower(expected) == text::lower(
            digest::sha256_hex(bytes),
        ),
        text::lower(expected) == text::lower(digest::sha256_hex(bytes)) ==> digest_fits(
            bytes,
            Some(expected),
        ),
{
}

/// A number of seconds that is set holds where it is above zero; the usual one holds
/// otherwise.
pub proof fn seconds_are_above_zero(n: nat, usual: u64)
    ensures
        seconds_or(Some(text::decimal(n)), usual) == if 0 < n <= u64::MAX {
            n
        } else {
            usual as nat
        },
        seconds_or(None, usual) == usual,
{
    text::numbers_are_read_back(n, u64::MAX as nat, Seq::empty());
    assert(Seq::<char>::empty() + text::decimal(n) =~= text::decimal(n));
}

} // verus!
