//! Admin calls, one decision at a time: what to do next, given what the outside
//! world answered.
use crate::access::{gate, header_bytes, header_text, Inner, RequestHead, Status};
use crate::media::{
    bare_name, listing, offer, offered_files, offered_name, playable, playable_name, stably_sorted,
    valid_file_name, DirEntry, FileEntry,
};
use crate::state::{
    fits, loaded, updated, Change, ChangeModel, Persisted, PersistedModel, Schedule, ScheduleModel,
    StateFile, StateView, StateViewModel, time_model,
};
use vstd::prelude::*;

verus! {

/// A request to schedule a file.
pub struct ScheduleRequest {
    pub file: String,
    /// Absent means "now".
    pub start_ms: Option<i64>,
    pub loop_: bool,
}

/// A request to schedule a file, as a mathematical value.
#[verifier::ext_equal]
pub struct RequestModel {
    pub file: Seq<char>,
    pub start_ms: Option<int>,
    pub loop_: bool,
}

impl View for ScheduleRequest {
    type V = RequestModel;

    open spec fn view(&self) -> RequestModel {
        RequestModel {
            file: self.file@,
            start_ms: time_model(self.start_ms),
            loop_: self.loop_,
        }
    }
}

/// What an administrator may ask for.
pub enum Call {
    SetSchedule { req: ScheduleRequest },
    ClearSchedule,
    StartIntermission,
    EndIntermission,
}

/// A call as a mathematical value.
pub enum CallModel {
    SetSchedule { req: RequestModel },
    ClearSchedule,
    StartIntermission,
    EndIntermission,
}

impl View for Call {
    type V = CallModel;

    open spec fn view(&self) -> CallModel {
        match *self {
            Call::SetSchedule { req } => CallModel::SetSchedule { req: req@ },
            Call::ClearSchedule => CallModel::ClearSchedule,
            Call::StartIntermission => CallModel::StartIntermission,
            Call::EndIntermission => CallModel::EndIntermission,
        }
    }
}

/// How far a call has come: what it is waiting for.
pub enum Job {
    /// Whether the media directory holds the requested file.
    Finding { req: ScheduleRequest },
    /// The time, to start the requested file now.
    Dating { req: ScheduleRequest },
    /// The time, to begin an intermission.
    Starting,
    /// The time, to end the intermission.
    Ending,
    /// The changed state to be saved.
    Saving { version: u64 },
    /// The viewers to be woken.
    Waking,
    /// The time, to show the state.
    Viewing,
    /// Nothing more.
    Done,
}

/// A job as a mathematical value.
pub enum JobModel {
    Finding { req: RequestModel },
    Dating { req: RequestModel },
    Starting,
    Ending,
    Saving { version: int },
    Waking,
    Viewing,
    Done,
}

impl View for Job {
    type V = JobModel;

    open spec fn view(&self) -> JobModel {
        match *self {
            Job::Finding { req } => JobModel::Finding { req: req@ },
            Job::Dating { req } => JobModel::Dating { req: req@ },
            Job::Starting => JobModel::Starting,
            Job::Ending => JobModel::Ending,
            Job::Saving { version } => JobModel::Saving { version: version as int },
            Job::Waking => JobModel::Waking,
            Job::Viewing => JobModel::Viewing,
            Job::Done => JobModel::Done,
        }
    }
}

/// What the outside world answered.
pub enum Event {
    /// Whether the name is that of a regular file in the media directory.
    File { is_file: bool },
    /// The server clock.
    Clock { now_ms: i64 },
    /// The state was saved.
    Saved,
    /// The state could not be saved.
    SaveFailed { message: String },
    /// The viewers were woken.
    Woken,
}

/// An answer as a mathematical value.
pub enum EventModel {
    File { is_file: bool },
    Clock { now_ms: int },
    Saved,
    SaveFailed { message: Seq<char> },
    Woken,
}

impl View for Event {
    type V = EventModel;

    open spec fn view(&self) -> EventModel {
        match *self {
            Event::File { is_file } => EventModel::File { is_file },
            Event::Clock { now_ms } => EventModel::Clock { now_ms: now_ms as int },
            Event::Saved => EventModel::Saved,
            Event::SaveFailed { message } => EventModel::SaveFailed { message: message@ },
            Event::Woken => EventModel::Woken,
        }
    }
}

/// What to do next.
pub enum Action {
    /// See whether the media directory holds a regular file of this name.
    FindFile { name: String },
    /// Read the server clock.
    ReadClock,
    /// Save the state.
    Save { state: Persisted },
    /// Wake every viewer with the new version.
    Wake { version: u64 },
    /// Answer with the state.
    Reply { view: StateView },
    /// Answer with a status and a message.
    Refuse { status: Status, message: String },
    /// Stop: the change leaves the range of the server's numbers, or the answer
    /// is one that the call does not wait for.
    Halt,
}

/// What to do next, as a mathematical value.
pub enum ActionModel {
    FindFile { name: Seq<char> },
    ReadClock,
    Save { state: PersistedModel },
    Wake { version: int },
    Reply { view: StateViewModel },
    Refuse { status: Status, message: Seq<char> },
    Halt,
}

impl View for Action {
    type V = ActionModel;

    open spec fn view(&self) -> ActionModel {
        match *self {
            Action::FindFile { name } => ActionModel::FindFile { name: name@ },
            Action::ReadClock => ActionModel::ReadClock,
            Action::Save { state } => ActionModel::Save { state: state@ },
            Action::Wake { version } => ActionModel::Wake { version: version as int },
            Action::Reply { view } => ActionModel::Reply { view: view@ },
            Action::Refuse { status, message } => ActionModel::Refuse { status, message: message@ },
            Action::Halt => ActionModel::Halt,
        }
    }
}

/// A step of a call: the state it leaves, how far it has come, what to do next.
pub struct Step {
    pub state: PersistedModel,
    pub job: JobModel,
    pub action: ActionModel,
}

/// A call that ends in a refusal, the state as it was.
pub open spec fn refused(s: PersistedModel, status: Status, message: Seq<char>) -> Step {
    Step { state: s, job: JobModel::Done, action: ActionModel::Refuse { status, message } }
}

/// A change made, and the state to be saved; out of range, nothing is changed.
pub open spec fn changing(s: PersistedModel, change: ChangeModel) -> Step {
    if fits(s, change) {
        let state = updated(s, change);
        Step {
            state,
            job: JobModel::Saving { version: state.version },
            action: ActionModel::Save { state },
        }
    } else {
        Step { state: s, job: JobModel::Done, action: ActionModel::Halt }
    }
}

/// A schedule replaced by the requested one, which starts at the given time.
pub open spec fn scheduling(s: PersistedModel, req: RequestModel, start_ms: int) -> Step {
    changing(
        s,
        ChangeModel::Replace {
            schedule: Some(ScheduleModel { file: req.file, start_ms, loop_: req.loop_ }),
        },
    )
}

/// The first step of a call.
pub open spec fn begun(s: PersistedModel, admitted: bool, call: CallModel) -> Step {
    if !admitted {
        refused(s, Status::Unauthorized, "admin token required"@)
    } else {
        match call {
            CallModel::SetSchedule { req } => if !offered_name(req.file) {
                refused(s, Status::BadRequest, "not a playable file name"@)
            } else {
                Step {
                    state: s,
                    job: JobModel::Finding { req },
                    action: ActionModel::FindFile { name: req.file },
                }
            },
            CallModel::ClearSchedule => changing(s, ChangeModel::Replace { schedule: None }),
            CallModel::StartIntermission => Step {
                state: s,
                job: JobModel::Starting,
                action: ActionModel::ReadClock,
            },
            CallModel::EndIntermission => Step {
                state: s,
                job: JobModel::Ending,
                action: ActionModel::ReadClock,
            },
        }
    }
}

/// The answer is one that the job waits for.
pub open spec fn awaits(job: JobModel, event: EventModel) -> bool {
    match job {
        JobModel::Finding { .. } => event is File,
        JobModel::Dating { .. } => event is Clock,
        JobModel::Starting => event is Clock,
        JobModel::Ending => event is Clock,
        JobModel::Saving { .. } => event is Saved || event is SaveFailed,
        JobModel::Waking => event is Woken,
        JobModel::Viewing => event is Clock,
        JobModel::Done => false,
    }
}

/// The step that follows an answer.
pub open spec fn continued(s: PersistedModel, job: JobModel, event: EventModel) -> Step {
    match (job, event) {
        (JobModel::Finding { req }, EventModel::File { is_file }) => if !is_file {
            refused(s, Status::NotFound, "no such file in the media directory"@)
        } else {
            match req.start_ms {
                Some(start_ms) => scheduling(s, req, start_ms),
                None => Step {
                    state: s,
                    job: JobModel::Dating { req },
                    action: ActionModel::ReadClock,
                },
            }
        },
        (JobModel::Dating { req }, EventModel::Clock { now_ms }) => scheduling(s, req, now_ms),
        (JobModel::Starting, EventModel::Clock { now_ms }) => changing(
            s,
            ChangeModel::StartIntermission { now_ms },
        ),
        (JobModel::Ending, EventModel::Clock { now_ms }) => changing(
            s,
            ChangeModel::EndIntermission { now_ms },
        ),
        (JobModel::Saving { version }, EventModel::Saved) => Step {
            state: s,
            job: JobModel::Waking,
            action: ActionModel::Wake { version },
        },
        (JobModel::Saving { .. }, EventModel::SaveFailed { message }) => refused(
            s,
            Status::InternalServerError,
            message,
        ),
        (JobModel::Waking, EventModel::Woken) => Step {
            state: s,
            job: JobModel::Viewing,
            action: ActionModel::ReadClock,
        },
        (JobModel::Viewing, EventModel::Clock { now_ms }) => Step {
            state: s,
            job: JobModel::Done,
            action: ActionModel::Reply {
                view: StateViewModel { server_now_ms: now_ms, state: s },
            },
        },
        _ => Step { state: s, job, action: ActionModel::Halt },
    }
}

impl Job {
    /// Whether the answer is one that the job waits for.
    pub fn waits_for(&self, event: &Event) -> (r: bool)
        ensures
            r == awaits(self@, event@),
    {
        match (self, event) {
            (Job::Finding { .. }, Event::File { .. }) => true,
            (Job::Dating { .. }, Event::Clock { .. }) => true,
            (Job::Starting, Event::Clock { .. }) => true,
            (Job::Ending, Event::Clock { .. }) => true,
            (Job::Saving { .. }, Event::Saved) => true,
            (Job::Saving { .. }, Event::SaveFailed { .. }) => true,
            (Job::Waking, Event::Woken) => true,
            (Job::Viewing, Event::Clock { .. }) => true,
            _ => false,
        }
    }
}

impl Inner {
    /// The secrets are the same.
    pub open spec fn same_secrets(&self, other: &Inner) -> bool {
        self.admin_token == other.admin_token && self.viewer == other.viewer
    }

    /// What clients see at the given time.
    pub fn view(&self, now_ms: i64) -> (r: StateView)
        ensures
            r@ == (StateViewModel { server_now_ms: now_ms as int, state: self.state@ }),
    {
        self.state.seen_at(now_ms)
    }

    /// The files offered to the administrator, given the entries of the media
    /// directory; one that could not be read to its end is a failure of the
    /// server.
    pub fn list_files(
        &self,
        authorization: Option<&[u8]>,
        entries: Option<&[DirEntry]>,
    ) -> (r: Result<Vec<FileEntry>, Status>)
        ensures
            if !self.admits(header_bytes(authorization)) {
                r == Err::<Vec<FileEntry>, Status>(Status::Unauthorized)
            } else if entries is None {
                r == Err::<Vec<FileEntry>, Status>(Status::InternalServerError)
            } else {
                r is Ok && stably_sorted(listing(r->Ok_0@), offered_files(entries->0@))
            },
    {
        if let Err(status) = self.require_admin(authorization) {
            return Err(status);
        }
        match entries {
            Some(entries) => Ok(offer(entries)),
            None => Err(Status::InternalServerError),
        }
    }

    fn change(&mut self, change: Change) -> (r: (Job, Action))
        ensures
            (Step { state: final(self).state@, job: r.0@, action: r.1@ }) == changing(
                old(self).state@,
                change@,
            ),
            final(self).same_secrets(old(self)),
    {
        if !self.state.can(&change) {
            return (Job::Done, Action::Halt);
        }
        let version = self.state.update(change);
        (Job::Saving { version }, Action::Save { state: self.state.clone() })
    }

    fn refuse(status: Status, message: &str) -> (r: (Job, Action))
        ensures
            r.0@ == JobModel::Done,
            r.1@ == (ActionModel::Refuse { status, message: message@ }),
    {
        (Job::Done, Action::Refuse { status, message: message.to_owned() })
    }

    /// Begin a call: only the bearer of the admin token is heard, and only a
    /// bare and playable name is looked for.
    pub fn begin(&mut self, authorization: Option<&[u8]>, call: Call) -> (r: (Job, Action))
        ensures
            (Step { state: final(self).state@, job: r.0@, action: r.1@ }) == begun(
                old(self).state@,
                old(self).admits(header_bytes(authorization)),
                call@,
            ),
            final(self).same_secrets(old(self)),
    {
        if let Err(status) = self.require_admin(authorization) {
            return Self::refuse(status, "admin token required");
        }
        match call {
            Call::SetSchedule { req } => {
                if !valid_file_name(req.file.as_str()) || !playable(req.file.as_str()) {
                    return Self::refuse(Status::BadRequest, "not a playable file name");
                }
                let name = req.file.clone();
                (Job::Finding { req }, Action::FindFile { name })
            },
            Call::ClearSchedule => self.change(Change::Replace { schedule: None }),
            Call::StartIntermission => (Job::Starting, Action::ReadClock),
            Call::EndIntermission => (Job::Ending, Action::ReadClock),
        }
    }

    fn schedule(&mut self, req: ScheduleRequest, start_ms: i64) -> (r: (Job, Action))
        ensures
            (Step { state: final(self).state@, job: r.0@, action: r.1@ }) == scheduling(
                old(self).state@,
                req@,
                start_ms as int,
            ),
            final(self).same_secrets(old(self)),
    {
        let schedule = Schedule { file: req.file, start_ms, loop_: req.loop_ };
        self.change(Change::Replace { schedule: Some(schedule) })
    }

    /// Continue a call with an answer; one that it does not wait for halts it.
    pub fn resume(&mut self, job: Job, event: Event) -> (r: (Job, Action))
        ensures
            (Step { state: final(self).state@, job: r.0@, action: r.1@ }) == continued(
                old(self).state@,
                job@,
                event@,
            ),
            final(self).same_secrets(old(self)),
    {
        match (job, event) {
            (Job::Finding { req }, Event::File { is_file }) => {
                if !is_file {
                    return Self::refuse(Status::NotFound, "no such file in the media directory");
                }
                match req.start_ms {
                    Some(start_ms) => self.schedule(req, start_ms),
                    None => (Job::Dating { req }, Action::ReadClock),
                }
            },
            (Job::Dating { req }, Event::Clock { now_ms }) => self.schedule(req, now_ms),
            (Job::Starting, Event::Clock { now_ms }) => self.change(
                Change::StartIntermission { now_ms },
            ),
            (Job::Ending, Event::Clock { now_ms }) => self.change(
                Change::EndIntermission { now_ms },
            ),
            (Job::Saving { version }, Event::Saved) => (Job::Waking, Action::Wake { version }),
            (Job::Saving { .. }, Event::SaveFailed { message }) => (
                Job::Done,
                Action::Refuse { status: Status::InternalServerError, message },
            ),
            (Job::Waking, Event::Woken) => (Job::Viewing, Action::ReadClock),
            (Job::Viewing, Event::Clock { now_ms }) => (
                Job::Done,
                Action::Reply { view: self.view(now_ms) },
            ),
            (job, _) => (job, Action::Halt),
        }
    }
}

/// Without the admin token no call does anything: it is answered 401 and the
/// state stays.
pub proof fn law_no_call_without_the_token(s: PersistedModel, call: CallModel)
    ensures
        begun(s, false, call) == (Step {
            state: s,
            job: JobModel::Done,
            action: ActionModel::Refuse {
                status: Status::Unauthorized,
                message: "admin token required"@,
            },
        }),
{
}

/// A request without an `Authorization` header is never admitted where the
/// admin token is not empty.
pub proof fn law_a_token_must_be_presented(inner: Inner)
    requires
        inner.admin_token@.len() > 0,
    ensures
        !inner.admits(None),
{
}

/// Whoever presents the admin token as a bearer is admitted, if a header can
/// carry it.
pub proof fn law_the_token_admits(inner: Inner, authorization: Seq<u8>)
    requires
        header_text(authorization) == Some("Bearer "@ + inner.admin_token@),
    ensures
        inner.admits(Some(authorization)),
{
    reveal_strlit("Bearer ");
    let t = "Bearer "@ + inner.admin_token@;
    assert(t.subrange(0, 7) =~= "Bearer "@);
    assert(t.skip(7) =~= inner.admin_token@);
}

/// The state changes only in a step that hands the whole new state on to be
/// saved, and the version then goes up by one.
pub proof fn law_every_change_is_saved(
    s: PersistedModel,
    admitted: bool,
    call: CallModel,
    job: JobModel,
    event: EventModel,
)
    ensures
        begun(s, admitted, call).state != s ==> begun(s, admitted, call).action == (
        ActionModel::Save { state: begun(s, admitted, call).state }) && begun(
            s,
            admitted,
            call,
        ).state.version == s.version + 1,
        continued(s, job, event).state != s ==> continued(s, job, event).action == (
        ActionModel::Save { state: continued(s, job, event).state }) && continued(
            s,
            job,
            event,
        ).state.version == s.version + 1,
{
}

/// What is handed on to be saved is the state as it then is, so a server that
/// restarts from it begins where this one was.
pub proof fn law_a_saved_state_is_restored(
    s: PersistedModel,
    admitted: bool,
    call: CallModel,
    job: JobModel,
    event: EventModel,
    on_disk: Persisted,
)
    ensures
        begun(s, admitted, call).action == (ActionModel::Save { state: on_disk@ }) ==> loaded(
            StateFile::Holds { state: on_disk },
        ) == begun(s, admitted, call).state,
        continued(s, job, event).action == (ActionModel::Save { state: on_disk@ }) ==> loaded(
            StateFile::Holds { state: on_disk },
        ) == continued(s, job, event).state,
{
}

/// Viewers are woken only once the state was saved, and with its version; a
/// save that failed wakes nobody and is answered 500.
pub proof fn law_viewers_wake_after_the_save(
    s: PersistedModel,
    admitted: bool,
    call: CallModel,
    job: JobModel,
    event: EventModel,
)
    ensures
        !(begun(s, admitted, call).action is Wake),
        continued(s, job, event).action matches ActionModel::Wake { version } ==> event is Saved
            && job == (JobModel::Saving { version }),
        job is Saving && event is SaveFailed ==> continued(s, job, event) == (Step {
            state: s,
            job: JobModel::Done,
            action: ActionModel::Refuse {
                status: Status::InternalServerError,
                message: event->message,
            },
        }),
{
}

/// A step that refuses leaves the state as it finds it.
pub proof fn law_refusals_change_nothing(
    s: PersistedModel,
    admitted: bool,
    call: CallModel,
    job: JobModel,
    event: EventModel,
)
    ensures
        begun(s, admitted, call).action is Refuse ==> begun(s, admitted, call).state == s,
        continued(s, job, event).action is Refuse ==> continued(s, job, event).state == s,
{
}

/// A change that is saved wakes the viewers with the new version and is then
/// answered with the changed state, if no other call came between.
pub proof fn law_a_saved_change_is_shown(s: PersistedModel, change: ChangeModel, now: int)
    requires
        fits(s, change),
    ensures
        ({
            let changed = changing(s, change);
            let saved = continued(changed.state, changed.job, EventModel::Saved);
            let woken = continued(saved.state, saved.job, EventModel::Woken);
            let shown = continued(woken.state, woken.job, EventModel::Clock { now_ms: now });
            &&& saved.action == (ActionModel::Wake { version: s.version + 1 })
            &&& woken.action == ActionModel::ReadClock
            &&& shown.job == JobModel::Done
            &&& shown.action == (ActionModel::Reply {
                view: StateViewModel { server_now_ms: now, state: updated(s, change) },
            })
        }),
{
}

/// A call that was saved wakes the viewers with the version it made, and is then
/// answered with the time and the state as they are when that is done, whatever
/// other calls came between (`a`, `b` and `c` are the states found on the way).
pub proof fn law_saved_calls_wake_and_show(
    version: int,
    a: PersistedModel,
    b: PersistedModel,
    c: PersistedModel,
    now: int,
)
    ensures
        ({
            let saved = continued(a, JobModel::Saving { version }, EventModel::Saved);
            let woken = continued(b, saved.job, EventModel::Woken);
            let shown = continued(c, woken.job, EventModel::Clock { now_ms: now });
            &&& saved.state == a && woken.state == b && shown.state == c
            &&& saved.action == (ActionModel::Wake { version })
            &&& woken.action == ActionModel::ReadClock
            &&& shown.action == (ActionModel::Reply {
                view: StateViewModel { server_now_ms: now, state: c },
            })
            &&& shown.job == JobModel::Done
        }),
{
}

/// The step changed the state and hands it on, whole, to be saved under the next
/// version.
pub open spec fn hands_on(step: Step, before: PersistedModel) -> bool {
    &&& step.state.version == before.version + 1
    &&& step.job == (JobModel::Saving { version: before.version + 1 })
    &&& step.action == (ActionModel::Save { state: step.state })
}

/// The step stops the call and keeps the state.
pub open spec fn stops(step: Step, before: PersistedModel) -> bool {
    step.state == before && step.job == JobModel::Done && step.action == ActionModel::Halt
}

/// A file that is offered and there is scheduled as asked, at the time asked
/// for or else at the present one, and an intermission ends with that.
pub proof fn law_an_offered_file_is_scheduled(s: PersistedModel, req: RequestModel, now: int)
    requires
        offered_name(req.file),
        s.version < u64::MAX,
    ensures
        ({
            let asked = begun(s, true, CallModel::SetSchedule { req });
            let found = continued(asked.state, asked.job, EventModel::File { is_file: true });
            let last = if req.start_ms is Some {
                found
            } else {
                continued(found.state, found.job, EventModel::Clock { now_ms: now })
            };
            &&& asked.action == (ActionModel::FindFile { name: req.file })
            &&& req.start_ms is None ==> found.action == ActionModel::ReadClock
            &&& last.state.intermission_since_ms is None
            &&& last.state.schedule == Some(
                ScheduleModel {
                    file: req.file,
                    start_ms: if req.start_ms is Some {
                        req.start_ms->0
                    } else {
                        now
                    },
                    loop_: req.loop_,
                },
            )
        }),
{
}

/// A file with an offered name that is in the media directory is scheduled as
/// asked: that file, that loop flag, at the time asked for, or else at the time
/// the clock shows then; an intermission ends with that, and nothing of the old
/// schedule stays. `s`, `t` and `u` are the states found on the way.
pub proof fn law_a_file_is_scheduled_as_asked(
    s: PersistedModel,
    t: PersistedModel,
    u: PersistedModel,
    req: RequestModel,
    now: int,
)
    requires
        bare_name(req.file),
        playable_name(req.file),
        if req.start_ms is Some {
            t.version < u64::MAX
        } else {
            u.version < u64::MAX
        },
    ensures
        ({
            let asked = begun(s, true, CallModel::SetSchedule { req });
            let found = continued(t, asked.job, EventModel::File { is_file: true });
            let before = if req.start_ms is Some {
                t
            } else {
                u
            };
            let last = if req.start_ms is Some {
                found
            } else {
                continued(u, found.job, EventModel::Clock { now_ms: now })
            };
            &&& asked.state == s
            &&& asked.action == (ActionModel::FindFile { name: req.file })
            &&& req.start_ms is None ==> found.state == t && found.action == ActionModel::ReadClock
            &&& hands_on(last, before)
            &&& last.state.intermission_since_ms is None
            &&& last.state.schedule is Some
            &&& last.state.schedule->0.file == req.file
            &&& last.state.schedule->0.loop_ == req.loop_
            &&& last.state.schedule->0.start_ms == if req.start_ms is Some {
                req.start_ms->0
            } else {
                now
            }
        }),
{
}

/// A file that is not in the media directory is never scheduled, whatever time
/// was asked for: the call is answered 404 and the state stays.
pub proof fn law_a_missing_file_is_not_scheduled(
    s: PersistedModel,
    t: PersistedModel,
    req: RequestModel,
)
    ensures
        continued(t, JobModel::Finding { req }, EventModel::File { is_file: false }) == (Step {
            state: t,
            job: JobModel::Done,
            action: ActionModel::Refuse {
                status: Status::NotFound,
                message: "no such file in the media directory"@,
            },
        }),
        bare_name(req.file) && playable_name(req.file) ==> begun(
            s,
            true,
            CallModel::SetSchedule { req },
        ).job == (JobModel::Finding { req }),
{
}

/// A name that is not offered is neither looked for nor scheduled: the call is
/// answered 400 and the state stays.
pub proof fn law_other_names_are_refused(s: PersistedModel, req: RequestModel)
    requires
        !bare_name(req.file) || !playable_name(req.file),
    ensures
        begun(s, true, CallModel::SetSchedule { req }) == (Step {
            state: s,
            job: JobModel::Done,
            action: ActionModel::Refuse {
                status: Status::BadRequest,
                message: "not a playable file name"@,
            },
        }),
{
}

/// Clearing leaves nothing scheduled and no intermission on.
pub proof fn law_clearing_the_schedule(s: PersistedModel)
    requires
        s.version < u64::MAX,
    ensures
        ({
            let cleared = begun(s, true, CallModel::ClearSchedule);
            &&& hands_on(cleared, s)
            &&& cleared.state.schedule is None
            &&& cleared.state.intermission_since_ms is None
        }),
{
}

/// From the start of an intermission on, one is on since the time the clock
/// showed, with or without a schedule, before its start or after; one that was
/// on goes on as it began. The schedule stays. `s` and `t` are the states found
/// on the way.
pub proof fn law_starting_an_intermission(s: PersistedModel, t: PersistedModel, now: int)
    requires
        t.version < u64::MAX,
    ensures
        ({
            let asked = begun(s, true, CallModel::StartIntermission);
            let started = continued(t, asked.job, EventModel::Clock { now_ms: now });
            &&& asked.state == s
            &&& asked.action == ActionModel::ReadClock
            &&& hands_on(started, t)
            &&& started.state.schedule == t.schedule
            &&& started.state.intermission_since_ms is Some
            &&& started.state.intermission_since_ms->0 == if t.intermission_since_ms is Some {
                t.intermission_since_ms->0
            } else {
                now
            }
        }),
{
}

/// Ending an intermission turns it off. A film that had started when it began
/// has its start moved forward by the intermission's length and five seconds,
/// but not past the present; any other keeps its start; file and loop flag stay
/// in any case. Where the new start cannot be computed in 64 bits, step by step,
/// the call stops. `s` and `t` are the states found on the way.
pub proof fn law_ending_an_intermission(s: PersistedModel, t: PersistedModel, now: int)
    requires
        t.version < u64::MAX,
    ensures
        ({
            let asked = begun(s, true, CallModel::EndIntermission);
            let ended = continued(t, asked.job, EventModel::Clock { now_ms: now });
            let since = t.intermission_since_ms->0;
            let start = t.schedule->0.start_ms;
            let paused = t.intermission_since_ms is Some && t.schedule is Some && start <= since;
            let in_range = i64::MIN <= now - since <= i64::MAX && i64::MIN <= start + (now - since)
                <= i64::MAX && i64::MIN <= start + (now - since) + 5_000 <= i64::MAX;
            &&& asked.state == s
            &&& asked.action == ActionModel::ReadClock
            &&& paused && !in_range ==> stops(ended, t)
            &&& !paused || in_range ==> {
                &&& hands_on(ended, t)
                &&& ended.state.intermission_since_ms is None
                &&& ended.state.schedule is Some <==> t.schedule is Some
                &&& t.schedule is Some ==> {
                    let film = ended.state.schedule->0;
                    &&& film.file == t.schedule->0.file
                    &&& film.loop_ == t.schedule->0.loop_
                    &&& !paused ==> film.start_ms == start
                    &&& paused ==> film.start_ms <= now && film.start_ms <= start + (now - since)
                        + 5_000 && (film.start_ms == now || film.start_ms == start + (now - since)
                        + 5_000)
                }
            }
        }),
{
}

/// An intermission pauses the film for every viewer, looping or not: at its end
/// the film is five seconds before where it was at its beginning, or at its own
/// beginning if it had not come that far, and a countdown goes on as if there
/// had been none. This is so over the two calls, for times that a clock shows.
pub proof fn law_an_intermission_pauses_the_film(s: PersistedModel, begin: int, end: int)
    requires
        s.version < u64::MAX - 1,
        s.intermission_since_ms is None,
        s.schedule is Some,
        i64::MIN <= s.schedule->0.start_ms <= i64::MAX,
        0 <= begin <= end <= i64::MAX - 5_000,
    ensures
        ({
            let asked = begun(s, true, CallModel::StartIntermission);
            let on = continued(s, asked.job, EventModel::Clock { now_ms: begin }).state;
            let back = begun(on, true, CallModel::EndIntermission);
            let off = continued(on, back.job, EventModel::Clock { now_ms: end }).state;
            let at_begin = begin - s.schedule->0.start_ms;
            let at_end = end - off.schedule->0.start_ms;
            &&& on.intermission_since_ms == Some(begin)
            &&& off.intermission_since_ms is None
            &&& off.version == s.version + 2
            &&& at_begin >= 5_000 ==> at_end == at_begin - 5_000
            &&& 0 <= at_begin < 5_000 ==> at_end == 0
            &&& at_begin < 0 ==> off.schedule->0.start_ms == s.schedule->0.start_ms
        }),
{
}

/// Once the version is the last there is, no call changes the state: one that
/// would stops.
pub proof fn law_the_last_version_stays(
    s: PersistedModel,
    job: JobModel,
    event: EventModel,
    call: CallModel,
    req: RequestModel,
    now: int,
)
    requires
        s.version >= u64::MAX,
    ensures
        begun(s, true, call).state == s,
        continued(s, job, event).state == s,
        stops(begun(s, true, CallModel::ClearSchedule), s),
        stops(continued(s, JobModel::Starting, EventModel::Clock { now_ms: now }), s),
        stops(continued(s, JobModel::Ending, EventModel::Clock { now_ms: now }), s),
        stops(continued(s, JobModel::Dating { req }, EventModel::Clock { now_ms: now }), s),
        req.start_ms is Some ==> stops(
            continued(s, JobModel::Finding { req }, EventModel::File { is_file: true }),
            s,
        ),
{
}

/// A job that asked for a file, the time, a save or a wake waits for the answer to
/// that and nothing else. Any other answer, and none but those, halts the call and
/// leaves state and job as they are.
pub proof fn law_jobs_wait_for_what_they_use(
    s: PersistedModel,
    job: JobModel,
    event: EventModel,
)
    ensures
        awaits(job, event) <==> continued(s, job, event) != (Step {
            state: s,
            job,
            action: ActionModel::Halt,
        }),
        event is File ==> (awaits(job, event) <==> job is Finding),
        event is Clock ==> (awaits(job, event) <==> job is Dating || job is Starting
            || job is Ending || job is Viewing),
        event is Saved || event is SaveFailed ==> (awaits(job, event) <==> job is Saving),
        event is Woken ==> (awaits(job, event) <==> job is Waking),
{
}

/// Servers with the same secrets have the same admin token and the same viewer
/// key and cookie, so they admit and let through the same requests.
pub proof fn law_the_same_secrets_open_to_the_same(
    a: Inner,
    b: Inner,
    authorization: Option<&[u8]>,
    req: RequestHead,
)
    requires
        a.same_secrets(&b),
    ensures
        a.admin_token == b.admin_token && a.viewer == b.viewer,
        a.admits(header_bytes(authorization)) == b.admits(header_bytes(authorization)),
        gate(a.cookie(), req) == gate(b.cookie(), req),
{
}

/// The models of requests, calls, jobs, answers and actions hold what these hold.
pub proof fn law_call_models(
    req: ScheduleRequest,
    version: u64,
    now: i64,
    text: String,
    state: Persisted,
    view: StateView,
    status: Status,
)
    ensures
        req@.file == req.file@ && req@.loop_ == req.loop_,
        req@.start_ms is Some <==> req.start_ms is Some,
        req.start_ms is Some ==> req@.start_ms->0 == req.start_ms->0,
        (Call::SetSchedule { req })@ == (CallModel::SetSchedule { req: req@ }),
        Call::ClearSchedule@ == CallModel::ClearSchedule,
        Call::StartIntermission@ == CallModel::StartIntermission,
        Call::EndIntermission@ == CallModel::EndIntermission,
        (Job::Finding { req })@ == (JobModel::Finding { req: req@ }),
        (Job::Dating { req })@ == (JobModel::Dating { req: req@ }),
        (Job::Saving { version })@ == (JobModel::Saving { version: version as int }),
        Job::Starting@ == JobModel::Starting && Job::Ending@ == JobModel::Ending,
        Job::Waking@ == JobModel::Waking && Job::Viewing@ == JobModel::Viewing,
        Job::Done@ == JobModel::Done,
        (Event::File { is_file: true })@ == (EventModel::File { is_file: true }),
        (Event::File { is_file: false })@ == (EventModel::File { is_file: false }),
        (Event::Clock { now_ms: now })@ == (EventModel::Clock { now_ms: now as int }),
        Event::Saved@ == EventModel::Saved && Event::Woken@ == EventModel::Woken,
        (Event::SaveFailed { message: text })@ == (EventModel::SaveFailed { message: text@ }),
        (Action::FindFile { name: text })@ == (ActionModel::FindFile { name: text@ }),
        Action::ReadClock@ == ActionModel::ReadClock && Action::Halt@ == ActionModel::Halt,
        (Action::Save { state })@ == (ActionModel::Save { state: state@ }),
        (Action::Wake { version })@ == (ActionModel::Wake { version: version as int }),
        (Action::Reply { view })@ == (ActionModel::Reply { view: view@ }),
        (Action::Refuse { status, message: text })@ == (ActionModel::Refuse {
            status,
            message: text@,
        }),
{
}

/// The file that a job waits to schedule, if it waits for one, has an offered name.
pub open spec fn waits_on_offered(job: JobModel) -> bool {
    match job {
        JobModel::Finding { req } => offered_name(req.file),
        JobModel::Dating { req } => offered_name(req.file),
        _ => true,
    }
}

/// What is scheduled, if anything is, has an offered name.
pub open spec fn schedules_offered(s: PersistedModel) -> bool {
    s.schedule matches Some(sch) ==> offered_name(sch.file)
}

/// Only offered names are ever looked for or scheduled: no name but an offered
/// one is looked for, and where a call and the schedule hold offered names only,
/// so they do after every step.
pub proof fn law_only_offered_names_are_looked_for_or_scheduled(
    s: PersistedModel,
    admitted: bool,
    call: CallModel,
    job: JobModel,
    event: EventModel,
)
    ensures
        begun(s, admitted, call).action matches ActionModel::FindFile { name } ==> admitted
            && offered_name(name),
        !(continued(s, job, event).action is FindFile),
        waits_on_offered(begun(s, admitted, call).job),
        waits_on_offered(job) ==> waits_on_offered(continued(s, job, event).job),
        schedules_offered(s) ==> schedules_offered(begun(s, admitted, call).state),
        schedules_offered(s) && waits_on_offered(job) ==> schedules_offered(
            continued(s, job, event).state,
        ),
{
}

/// An answer that the job does not wait for, such as any answer to a finished
/// one, halts the call, and the state stays.
pub proof fn law_an_unawaited_answer_halts(s: PersistedModel, job: JobModel, event: EventModel)
    requires
        !awaits(job, event),
    ensures
        continued(s, job, event) == (Step { state: s, job, action: ActionModel::Halt }),
{
}

} // verus!
