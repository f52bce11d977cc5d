//! The installation of a set of files, step by step. The caller looks at files, links
//! and fetches them and writes the record; what comes next is decided here. The record
//! of what is installed is written last, and only where every file is in its place.

use crate::digest;
use crate::digest::Content;
use crate::model_updates;
use crate::model_updates::InstalledRevision;
use crate::model_updates::PlaceStep;
use crate::model_updates::RemoteFile;
use crate::text;
use vstd::prelude::*;
use vstd::string::*;

verus! {

/// How far an installation has come.
#[derive(Debug, Clone, Copy, PartialEq, Eq, Structural)]
pub enum Phase {
    /// The file in question is looked for.
    Looking,
    /// It is taken from where it lies already.
    Reusing,
    /// It is fetched, where it is not in its place by now.
    Fetching,
    /// The record was handed out.
    Published,
    /// It was given up.
    Failed,
}

/// What happened.
#[derive(Debug)]
pub enum InstallEvent {
    /// What was found: the content of the file in its place, and of the file as it was.
    Looked { stored: Option<Content>, source: Option<Content> },
    /// What was asked for was done.
    Done,
    /// What was asked for could not be done.
    Broken(String),
}

pub enum EventModel {
    Looked { stored: Option<Seq<u8>>, source: Option<Seq<u8>> },
    Done,
    Broken(Seq<char>),
}

impl View for InstallEvent {
    type V = EventModel;

    open spec fn view(&self) -> EventModel {
        match self {
            InstallEvent::Looked { stored, source } => EventModel::Looked {
                stored: model_updates::content_bytes(*stored),
                source: model_updates::content_bytes(*source),
            },
            InstallEvent::Done => EventModel::Done,
            InstallEvent::Broken(m) => EventModel::Broken(m@),
        }
    }
}

/// What to do next.
#[derive(Debug)]
pub enum InstallAction {
    /// Look for a file in its place and, where it is not there, as it was.
    Look(usize),
    /// Take a file from where it lies already.
    Reuse(usize),
    /// Fetch a file into its place, where it is not there.
    Fetch(usize),
    /// Write the record: from now on these files are the installed ones.
    Publish(InstalledRevision),
    /// Give up; the message says why.
    Fail(String),
    /// Nothing: what happened was not what was asked for.
    Wait,
}

/// The record of an installed revision: the revision, and each file with its digest.
pub struct RecordModel {
    pub revision: Seq<char>,
    pub files: Seq<(Seq<char>, Seq<char>)>,
}

pub open spec fn record_model(r: InstalledRevision) -> RecordModel {
    RecordModel { revision: r.revision@, files: model_updates::installed_models(r.files@) }
}

pub enum ActionModel {
    Look(int),
    Reuse(int),
    Fetch(int),
    Publish(RecordModel),
    Fail(Seq<char>),
    Wait,
}

impl View for InstallAction {
    type V = ActionModel;

    open spec fn view(&self) -> ActionModel {
        match self {
            InstallAction::Look(i) => ActionModel::Look(*i as int),
            InstallAction::Reuse(i) => ActionModel::Reuse(*i as int),
            InstallAction::Fetch(i) => ActionModel::Fetch(*i as int),
            InstallAction::Publish(r) => ActionModel::Publish(record_model(*r)),
            InstallAction::Fail(m) => ActionModel::Fail(m@),
            InstallAction::Wait => ActionModel::Wait,
        }
    }
}

/// An installation under way.
#[derive(Debug)]
pub struct InstallPlan {
    /// Where the files of the set are kept.
    pub dir: String,
    pub files: Vec<RemoteFile>,
    /// Whether the files behind the first are fetched.
    pub vision: bool,
    /// The file in question.
    pub at: usize,
    pub phase: Phase,
}

pub struct PlanModel {
    pub dir: Seq<char>,
    pub files: Seq<RemoteFile>,
    pub vision: bool,
    pub at: int,
    pub phase: Phase,
}

impl View for InstallPlan {
    type V = PlanModel;

    open spec fn view(&self) -> PlanModel {
        PlanModel {
            dir: self.dir@,
            files: self.files@,
            vision: self.vision,
            at: self.at as int,
            phase: self.phase,
        }
    }
}

/// Whether the digest and the revision of a file are well formed.
pub open spec fn is_valid(f: RemoteFile) -> bool {
    digest::is_hash(f.sha256@, 64) && digest::is_hash(f.revision@, 40)
}

/// Whether a file is fetched: the first always, the others only with vision.
pub open spec fn fetched(index: int, vision: bool) -> bool {
    index == 0 || vision
}

/// The record of all files.
pub open spec fn record_for(files: Seq<RemoteFile>) -> RecordModel {
    RecordModel {
        revision: files[0].revision@,
        files: files.map_values(|f: RemoteFile| (f.source.file@, f.sha256@)),
    }
}

/// What is said where a digest or a revision is malformed.
pub open spec fn malformed() -> Seq<char> {
    "Invalid update checksum or revision"@
}

impl PlanModel {
    pub open spec fn well_formed(self) -> bool {
        &&& self.files.len() > 0
        &&& 0 <= self.at <= self.files.len()
        &&& (self.phase is Looking || self.phase is Reusing || self.phase is Fetching) ==> {
            &&& self.at < self.files.len()
            &&& fetched(self.at, self.vision)
            &&& forall|k: int| 0 <= k <= self.at ==> is_valid(#[trigger] self.files[k])
        }
        &&& self.phase is Published ==> model_updates::all_valid(self.files)
    }

    pub open spec fn is_over(self) -> bool {
        self.phase is Published || self.phase is Failed
    }

    /// Goes to the first file from `at` on that is fetched; behind the last one the
    /// record is due.
    pub open spec fn arrived(self, at: int) -> (PlanModel, ActionModel)
        decreases self.files.len() - at,
    {
        if at < 0 || at >= self.files.len() {
            (
                PlanModel { at: self.files.len() as int, phase: Phase::Published, ..self },
                ActionModel::Publish(record_for(self.files)),
            )
        } else if !is_valid(self.files[at]) {
            (PlanModel { at, phase: Phase::Failed, ..self }, ActionModel::Fail(malformed()))
        } else if fetched(at, self.vision) {
            (PlanModel { at, phase: Phase::Looking, ..self }, ActionModel::Look(at))
        } else {
            self.arrived(at + 1)
        }
    }

    /// What comes of an event.
    pub open spec fn step(self, event: EventModel) -> (PlanModel, ActionModel) {
        if self.is_over() {
            (self, ActionModel::Wait)
        } else {
            match (self.phase, event) {
                (_, EventModel::Broken(m)) => (
                    PlanModel { phase: Phase::Failed, ..self },
                    ActionModel::Fail(m),
                ),
                (Phase::Looking, EventModel::Looked { stored, source }) => {
                    let wanted = self.files[self.at].sha256@;
                    match model_updates::place_rule(stored, source, wanted) {
                        PlaceStep::Damaged => (
                            PlanModel { phase: Phase::Failed, ..self },
                            ActionModel::Fail(
                                model_updates::damaged_text(
                                    model_updates::stored_path(self.dir, wanted),
                                ),
                            ),
                        ),
                        PlaceStep::Reuse => (
                            PlanModel { phase: Phase::Reusing, ..self },
                            ActionModel::Reuse(self.at),
                        ),
                        _ => (
                            PlanModel { phase: Phase::Fetching, ..self },
                            ActionModel::Fetch(self.at),
                        ),
                    }
                },
                (Phase::Reusing, EventModel::Done) => (
                    PlanModel { phase: Phase::Fetching, ..self },
                    ActionModel::Fetch(self.at),
                ),
                (Phase::Fetching, EventModel::Done) => self.arrived(self.at + 1),
                _ => (self, ActionModel::Wait),
            }
        }
    }

    /// What comes of events, one after another.
    pub open spec fn run(self, events: Seq<EventModel>) -> (PlanModel, Seq<ActionModel>)
        decreases events.len(),
    {
        if events.len() == 0 {
            (self, Seq::empty())
        } else {
            let (next, action) = self.step(events[0]);
            let (last, more) = next.run(events.skip(1));
            (last, seq![action] + more)
        }
    }
}

/// The record that is in force behind actions that were performed: only publishing
/// changes it.
pub open spec fn active_after(before: Option<RecordModel>, actions: Seq<ActionModel>) -> Option<
    RecordModel,
>
    decreases actions.len(),
{
    if actions.len() == 0 {
        before
    } else {
        match actions.last() {
            ActionModel::Publish(r) => Some(r),
            _ => active_after(before, actions.drop_last()),
        }
    }
}

proof fn active_after_first(before: Option<RecordModel>, first: ActionModel, more: Seq<ActionModel>)
    ensures
        active_after(before, seq![first] + more) == active_after(
            match first {
                ActionModel::Publish(r) => Some(r),
                _ => before,
            },
            more,
        ),
    decreases more.len(),
{
    let all = seq![first] + more;
    reveal_with_fuel(active_after, 2);
    if more.len() == 0 {
        assert(all.drop_last() =~= Seq::empty());
        assert(all.last() == first);
    } else {
        assert(all.last() == more.last());
        assert(all.drop_last() =~= seq![first] + more.drop_last());
        active_after_first(before, first, more.drop_last());
    }
}

proof fn arrived_is_published(s: PlanModel, at: int)
    requires
        0 <= at,
    ensures
        s.arrived(at).1 is Publish <==> s.arrived(at).0.phase is Published,
        s.arrived(at).1 is Publish ==> s.arrived(at).1->Publish_0 == record_for(s.files),
        s.arrived(at).0.files == s.files,
        s.arrived(at).0.vision == s.vision,
    decreases s.files.len() - at,
{
    if at < s.files.len() && is_valid(s.files[at]) && !fetched(at, s.vision) {
        arrived_is_published(s, at + 1);
    }
}

/// An installation that is given up, or that has not come to its end, leaves the record
/// of what is installed as it was; one that comes to its end switches it to the whole
/// new set.
pub proof fn only_whole_sets_are_switched_to(
    s: PlanModel,
    events: Seq<EventModel>,
    before: Option<RecordModel>,
)
    requires
        !(s.phase is Published),
        s.at >= 0,
    ensures
        active_after(before, s.run(events).1) == if s.run(events).0.phase is Published {
            Some(record_for(s.files))
        } else {
            before
        },
    decreases events.len(),
{
    if events.len() > 0 {
        let (next, action) = s.step(events[0]);
        let more = next.run(events.skip(1)).1;
        active_after_first(before, action, more);
        arrived_is_published(s, s.at + 1);
        if next.phase is Published {
            over_stays_over(next, events.skip(1), Some(record_for(s.files)));
        } else {
            arrived_goes_on(s, s.at + 1);
            only_whole_sets_are_switched_to(next, events.skip(1), before);
        }
    }
}

proof fn arrived_goes_on(s: PlanModel, at: int)
    requires
        0 <= at,
    ensures
        s.arrived(at).0.at >= 0,
        s.arrived(at).0.phase is Looking ==> {
            &&& at <= s.arrived(at).0.at < s.files.len()
            &&& fetched(s.arrived(at).0.at, s.vision)
            &&& forall|i: int|
                at <= i < s.arrived(at).0.at ==> !#[trigger] fetched(i, s.vision)
            &&& forall|k: int|
                at <= k <= s.arrived(at).0.at ==> is_valid(#[trigger] s.files[k])
        },
        s.arrived(at).0.phase is Published ==> forall|i: int|
            at <= i < s.files.len() ==> !#[trigger] fetched(i, s.vision),
        s.arrived(at).0.phase is Looking || s.arrived(at).0.phase is Published
            || s.arrived(at).0.phase is Failed,
    decreases s.files.len() - at,
{
    if at < s.files.len() && is_valid(s.files[at]) && !fetched(at, s.vision) {
        arrived_goes_on(s, at + 1);
    }
}

proof fn over_stays_over(s: PlanModel, events: Seq<EventModel>, before: Option<RecordModel>)
    requires
        s.is_over(),
    ensures
        s.run(events).0 == s,
        active_after(before, s.run(events).1) == before,
    decreases events.len(),
{
    if events.len() > 0 {
        over_stays_over(s, events.skip(1), before);
        active_after_first(before, ActionModel::Wait, s.run(events.skip(1)).1);
    }
}

/// A set that was switched to is read back whole: as many files as were installed,
/// each with its name, its digest and its revision.
pub proof fn a_switched_set_is_read_back(
    files: Seq<RemoteFile>,
    active: InstalledRevision,
    dir: Seq<char>,
    repo: Seq<char>,
)
    requires
        files.len() > 0,
        model_updates::all_valid(files),
        model_updates::one_revision(files),
        record_model(active) == record_for(files),
    ensures
        model_updates::is_record_of(active, files[0].source.file@),
        model_updates::all_hashed(active.files@),
        model_updates::recorded_sources(dir, repo, active).len() == files.len(),
        forall|k: int|
            0 <= k < files.len() ==> {
                let read = #[trigger] model_updates::recorded_sources(dir, repo, active)[k];
                &&& read.repo == repo
                &&& read.file == files[k].source.file@
                &&& read.sha256 == Some(files[k].sha256@)
                &&& read.revision == Some(files[k].revision@)
                &&& read.path == model_updates::stored_path(dir, files[k].sha256@)
            },
{
    let named = record_for(files).files;
    assert(model_updates::installed_models(active.files@) == named);
    assert(named.len() == files.len());
    assert(named[0] == (active.files@[0].file@, active.files@[0].sha256@));
    assert(digest::is_hash(files[0].revision@, 40));
    assert forall|k: int| 0 <= k < active.files@.len() implies digest::is_hash(
        (#[trigger] active.files@[k]).sha256@,
        64,
    ) by {
        assert(named[k] == (active.files@[k].file@, active.files@[k].sha256@));
        assert(digest::is_hash(files[k].sha256@, 64));
    }
}

/// Nothing is published before every file that belongs to the set, and is fetched at
/// all, was asked for.
pub proof fn every_file_is_fetched_first(s: PlanModel, events: Seq<EventModel>, i: int)
    requires
        !s.is_over(),
        0 <= s.at,
        if s.phase is Fetching {
            s.at < i
        } else {
            s.at <= i
        },
        i < s.files.len(),
        fetched(i, s.vision),
        s.run(events).0.phase is Published,
    ensures
        s.run(events).1.contains(ActionModel::Fetch(i)),
    decreases events.len(),
{
    if events.len() > 0 {
        let (next, action) = s.step(events[0]);
        let (last, more) = next.run(events.skip(1));
        let all = s.run(events).1;
        assert(all =~= seq![action] + more);
        arrived_goes_on(s, s.at + 1);
        arrived_is_published(s, s.at + 1);
        if next.is_over() {
            over_stays_over(next, events.skip(1), None);
            assert(next.phase is Published);
            assert(fetched(i, s.vision));
        } else if next.phase is Fetching && next.at == i {
            if action == ActionModel::Fetch(i) {
                assert(all[0] == ActionModel::Fetch(i));
            }
        } else {
            every_file_is_fetched_first(next, events.skip(1), i);
            let k = choose|k: int| 0 <= k < more.len() && more[k] == ActionModel::Fetch(i);
            assert(all[k + 1] == ActionModel::Fetch(i));
        }
    }
}

impl InstallPlan {
    /// Plans the installation of a set of files of one revision; `installed` is the
    /// revision that is installed. Returns the first action, or why nothing can be
    /// done.
    pub fn start(
        dir: String,
        files: Vec<RemoteFile>,
        vision: bool,
        initial: bool,
        installed: &Option<String>,
    ) -> (r: Result<(InstallPlan, InstallAction), String>)
        ensures
            if files@.len() == 0 {
                r matches Err(m) && m@ == "No model files to update"@
            } else if !model_updates::one_revision(files@) {
                r matches Err(m) && m@ == "An update must use one repository revision"@
            } else if !model_updates::still_current(
                text::optional(*installed),
                text::optional(files@[0].source.revision),
                files@[0].revision@,
                initial,
            ) {
                r matches Err(m) && m@ == model_updates::overtaken()
            } else {
                let empty = PlanModel { dir: dir@, files: files@, vision, at: 0, phase: Phase::Looking };
                r matches Ok((plan, action)) && (plan@, action@) == empty.arrived(0)
                    && plan@.well_formed()
            },
    {
        match model_updates::check_one_revision(&files) {
            Ok(_) => {},
            Err(m) => {
                return Err(m);
            },
        }
        match model_updates::check_still_current(
            installed,
            &files[0].source.revision,
            files[0].revision.as_str(),
            initial,
        ) {
            Ok(_) => {},
            Err(m) => {
                return Err(m);
            },
        }
        let mut plan = InstallPlan { dir, files, vision, at: 0, phase: Phase::Looking };
        let action = plan.arrive(0);
        Ok((plan, action))
    }

    fn arrive(&mut self, from: usize) -> (r: InstallAction)
        requires
            old(self)@.files.len() > 0,
            from <= old(self)@.files.len(),
            forall|k: int| 0 <= k < from ==> is_valid(#[trigger] old(self)@.files[k]),
        ensures
            (final(self)@, r@) == old(self)@.arrived(from as int),
            final(self)@.well_formed(),
    {
        let ghost was = self@;
        let mut at: usize = from;
        while at < self.files.len()
            invariant
                self@ == was,
                was.files.len() > 0,
                at <= self.files@.len(),
                was == old(self)@,
                forall|k: int| 0 <= k < at ==> is_valid(#[trigger] was.files[k]),
                was.arrived(from as int) == was.arrived(at as int),
            decreases self.files@.len() - at,
        {
            let file = &self.files[at];
            if !digest::valid_hash(file.sha256.as_str(), 64) || !digest::valid_hash(
                file.revision.as_str(),
                40,
            ) {
                self.at = at;
                self.phase = Phase::Failed;
                return InstallAction::Fail("Invalid update checksum or revision".to_string());
            }
            assert(is_valid(was.files[at as int]));
            if model_updates::is_fetched(at, self.vision) {
                self.at = at;
                self.phase = Phase::Looking;
                return InstallAction::Look(at);
            }
            at += 1;
        }
        let record = model_updates::record_of(&self.files);
        self.at = self.files.len();
        self.phase = Phase::Published;
        assert(record_model(record).files =~= record_for(was.files).files);
        InstallAction::Publish(record)
    }

    /// Takes an event; returns what to do next.
    pub fn on_event(&mut self, event: InstallEvent) -> (r: InstallAction)
        requires
            old(self)@.well_formed(),
        ensures
            (final(self)@, r@) == old(self)@.step(event@),
            final(self)@.well_formed(),
    {
        match self.phase {
            Phase::Published | Phase::Failed => {
                return InstallAction::Wait;
            },
            _ => {},
        }
        match event {
            InstallEvent::Broken(m) => {
                self.phase = Phase::Failed;
                InstallAction::Fail(m)
            },
            InstallEvent::Looked { stored, source } => match self.phase {
                Phase::Looking => {
                    let i: usize = self.at;
                    let wanted = self.files[i].sha256.clone();
                    match model_updates::place_step(stored, source, wanted.as_str()) {
                        PlaceStep::Damaged => {
                            let path = model_updates::stored_file(
                                self.dir.as_str(),
                                wanted.as_str(),
                            );
                            self.phase = Phase::Failed;
                            InstallAction::Fail(model_updates::damaged_message(path.as_str()))
                        },
                        PlaceStep::Reuse => {
                            self.phase = Phase::Reusing;
                            InstallAction::Reuse(i)
                        },
                        _ => {
                            self.phase = Phase::Fetching;
                            InstallAction::Fetch(i)
                        },
                    }
                },
                _ => InstallAction::Wait,
            },
            InstallEvent::Done => match self.phase {
                Phase::Reusing => {
                    self.phase = Phase::Fetching;
                    InstallAction::Fetch(self.at)
                },
                Phase::Fetching => {
                    let count: usize = self.files.len();
                    assert(self.at < count);
                    self.arrive(self.at + 1)
                },
                _ => InstallAction::Wait,
            },
        }
    }
}

// ---------------------------------------------------------------------------
// Laws.

/// A file in its place is kept where it is what is wanted, a damaged one stops the plan, one
/// that lies elsewhere is taken from there, and every other is fetched; whatever cannot be
/// done stops the plan, and what is done leads on to the next file.
pub proof fn plans_act_on_what_is_found(s: PlanModel, bytes: Seq<u8>, source: Option<Seq<u8>>, m: Seq<char>)
    requires
        0 <= s.at < s.files.len(),
        !(s.phase is Published) && !(s.phase is Failed),
    ensures
        ({
            let wanted = s.files[s.at].sha256@;
            let sound = digest::sha256_hex(bytes) == wanted;
            let found = s.step(EventModel::Looked { stored: Some(bytes), source });
            let elsewhere = s.step(EventModel::Looked { stored: None, source: Some(bytes) });
            let nowhere = s.step(EventModel::Looked { stored: None, source: None });
            &&& s.phase is Looking && sound ==> found.1 == ActionModel::Fetch(s.at)
                && found.0.phase is Fetching
            &&& s.phase is Looking && !sound ==> found.1 is Fail && found.0.phase is Failed
            &&& s.phase is Looking && sound ==> elsewhere.1 == ActionModel::Reuse(s.at)
                && elsewhere.0.phase is Reusing
            &&& s.phase is Looking && !sound ==> elsewhere.1 == ActionModel::Fetch(s.at)
            &&& s.phase is Looking ==> nowhere.1 == ActionModel::Fetch(s.at)
            &&& s.step(EventModel::Broken(m)).1 == ActionModel::Fail(m)
            &&& s.step(EventModel::Broken(m)).0.phase is Failed
            &&& s.phase is Reusing ==> s.step(EventModel::Done).1 == ActionModel::Fetch(s.at)
        }),
{
}

/// The next file that is looked at is the next that is needed; where a malformed one comes
/// first the plan fails, and behind the last the record of all is handed out.
pub proof fn plans_go_from_file_to_file(s: PlanModel, from: int, at: int)
    requires
        0 <= from <= at <= s.files.len(),
        forall|k: int|
            from <= k < at ==> is_valid(#[trigger] s.files[k]) && !(k == 0 || s.vision),
    ensures
        at < s.files.len() && !is_valid(s.files[at]) ==> s.arrived(from).1 is Fail && s.arrived(
            from,
        ).0.phase is Failed,
        at < s.files.len() && is_valid(s.files[at]) && (at == 0 || s.vision) ==> s.arrived(from).1
            == ActionModel::Look(at) && s.arrived(from).0.phase is Looking && s.arrived(from).0.at
            == at,
        at == s.files.len() ==> s.arrived(from).0.phase is Published && (s.arrived(
            from,
        ).1 matches ActionModel::Publish(r) && r.revision == s.files[0].revision@ && r.files.len()
            == s.files.len()),
    decreases at - from,
{
    if from < at {
        assert(is_valid(s.files[from]));
        plans_go_from_file_to_file(s, from + 1, at);
    }
}

/// A file whose digest is that of some content and whose revision has forty digits in
/// hexadecimal is well described, and one with a digest or a revision of another length is
/// not.
pub proof fn files_have_digest_and_revision(f: RemoteFile)
    ensures
        digest::is_hex_digest(f.sha256@) && f.revision@.len() == 40 && (forall|i: int|
            0 <= i < 40 ==> digest::is_hex_digit(#[trigger] f.revision@[i])) ==> is_valid(f),
        f.sha256@.len() != 64 || f.revision@.len() != 40 ==> !is_valid(f),
{
    if digest::is_hex_digest(f.sha256@) {
        digest::digests_are_valid(f.sha256@);
    }
}

/// Nothing happens once a plan is over, or where what happened was not asked for.
pub proof fn plans_that_are_over_stay_so(s: PlanModel, e: EventModel)
    ensures
        s.phase is Published || s.phase is Failed ==> s.step(e) == (s, ActionModel::Wait),
        s.phase is Looking && e is Done ==> s.step(e) == (s, ActionModel::Wait),
        s.phase is Fetching && e is Looked ==> s.step(e) == (s, ActionModel::Wait),
        s.phase is Reusing && e is Looked ==> s.step(e) == (s, ActionModel::Wait),
{
}

} // verus!
