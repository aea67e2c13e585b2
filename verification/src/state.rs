//! What is scheduled, how it changes, and what viewers are told of it.
use vstd::prelude::*;

verus! {

/// What is scheduled. `start_ms` is unix milliseconds on the server clock.
#[derive(Debug, PartialEq)]
pub struct Schedule {
    pub file: String,
    pub start_ms: i64,
    pub loop_: bool,
}

/// A schedule as a mathematical value.
#[verifier::ext_equal]
pub struct ScheduleModel {
    pub file: Seq<char>,
    pub start_ms: int,
    pub loop_: bool,
}

impl View for Schedule {
    type V = ScheduleModel;

    open spec fn view(&self) -> ScheduleModel {
        ScheduleModel { file: self.file@, start_ms: self.start_ms as int, loop_: self.loop_ }
    }
}

impl Clone for Schedule {
    fn clone(&self) -> (r: Self)
        ensures
            r == *self,
    {
        Schedule { file: self.file.clone(), start_ms: self.start_ms, loop_: self.loop_ }
    }
}

/// The persisted state. `version` bumps on every change so clients can tell
/// a new schedule from a repeat of the current one.
#[derive(Debug)]
pub struct Persisted {
    pub version: u64,
    pub schedule: Option<Schedule>,
    /// When the intermission began, if one is on. The film is paused for
    /// its length: ending it moves the schedule's start forward by that.
    pub intermission_since_ms: Option<i64>,
}

/// The state as a mathematical value.
#[verifier::ext_equal]
pub struct PersistedModel {
    pub version: int,
    pub schedule: Option<ScheduleModel>,
    pub intermission_since_ms: Option<int>,
}

/// An optional schedule as a mathematical value.
pub open spec fn schedule_model(s: Option<Schedule>) -> Option<ScheduleModel> {
    match s {
        Some(s) => Some(s@),
        None => None,
    }
}

/// An optional time as a mathematical value.
pub open spec fn time_model(t: Option<i64>) -> Option<int> {
    match t {
        Some(t) => Some(t as int),
        None => None,
    }
}

impl View for Persisted {
    type V = PersistedModel;

    open spec fn view(&self) -> PersistedModel {
        PersistedModel {
            version: self.version as int,
            schedule: schedule_model(self.schedule),
            intermission_since_ms: time_model(self.intermission_since_ms),
        }
    }
}

/// The state of a server that nothing was ever scheduled on.
pub open spec fn empty_state() -> PersistedModel {
    PersistedModel { version: 0, schedule: None, intermission_since_ms: None }
}

impl Default for Persisted {
    fn default() -> (r: Self)
        ensures
            r@ == empty_state(),
    {
        Persisted { version: 0, schedule: None, intermission_since_ms: None }
    }
}

impl Clone for Persisted {
    fn clone(&self) -> (r: Self)
        ensures
            r == *self,
    {
        let schedule = match &self.schedule {
            Some(s) => Some(s.clone()),
            None => None,
        };
        Persisted {
            version: self.version,
            schedule,
            intermission_since_ms: self.intermission_since_ms,
        }
    }
}

/// What clients see: the state plus the server clock for offset estimation.
#[derive(Debug)]
pub struct StateView {
    pub server_now_ms: i64,
    pub version: u64,
    pub schedule: Option<Schedule>,
    pub intermission_since_ms: Option<i64>,
}

/// What clients see, as a mathematical value.
#[verifier::ext_equal]
pub struct StateViewModel {
    pub server_now_ms: int,
    pub state: PersistedModel,
}

impl View for StateView {
    type V = StateViewModel;

    open spec fn view(&self) -> StateViewModel {
        StateViewModel {
            server_now_ms: self.server_now_ms as int,
            state: PersistedModel {
                version: self.version as int,
                schedule: schedule_model(self.schedule),
                intermission_since_ms: time_model(self.intermission_since_ms),
            },
        }
    }
}

/// How far before the point of pause a film resumes, so that the audience
/// picks the thread up.
pub const REWIND_MS: i64 = 5_000;

/// A change to the state.
pub enum Change {
    /// Replace the schedule, or clear it.
    Replace { schedule: Option<Schedule> },
    /// Begin an intermission, if none is on.
    StartIntermission { now_ms: i64 },
    /// End the intermission, if one is on.
    EndIntermission { now_ms: i64 },
}

/// A change as a mathematical value.
pub enum ChangeModel {
    Replace { schedule: Option<ScheduleModel> },
    StartIntermission { now_ms: int },
    EndIntermission { now_ms: int },
}

impl View for Change {
    type V = ChangeModel;

    open spec fn view(&self) -> ChangeModel {
        match *self {
            Change::Replace { schedule } => ChangeModel::Replace { schedule: schedule_model(schedule) },
            Change::StartIntermission { now_ms } => ChangeModel::StartIntermission {
                now_ms: now_ms as int,
            },
            Change::EndIntermission { now_ms } => ChangeModel::EndIntermission {
                now_ms: now_ms as int,
            },
        }
    }
}

/// The start of a film after an intermission from `since` to `now`. A film
/// that had started by then is moved forward by the intermission's length and
/// the rewind, but never past `now`, where it would resume before its own
/// beginning. One that had not started keeps its countdown.
pub open spec fn resumed_start(start: int, since: int, now: int) -> int {
    if start > since {
        start
    } else if start + (now - since) + REWIND_MS <= now {
        start + (now - since) + REWIND_MS
    } else {
        now
    }
}

/// The schedule after an intermission from `since` to `now`.
pub open spec fn resumed(
    schedule: Option<ScheduleModel>,
    since: int,
    now: int,
) -> Option<ScheduleModel> {
    match schedule {
        Some(s) => Some(
            ScheduleModel { start_ms: resumed_start(s.start_ms, since, now), ..s },
        ),
        None => None,
    }
}

/// The state after a change: the version goes up by one every time.
pub open spec fn updated(s: PersistedModel, change: ChangeModel) -> PersistedModel {
    let version = s.version + 1;
    match change {
        ChangeModel::Replace { schedule } => PersistedModel {
            version,
            schedule,
            intermission_since_ms: None,
        },
        ChangeModel::StartIntermission { now_ms } => PersistedModel {
            version,
            intermission_since_ms: match s.intermission_since_ms {
                Some(since) => Some(since),
                None => Some(now_ms),
            },
            ..s
        },
        ChangeModel::EndIntermission { now_ms } => PersistedModel {
            version,
            schedule: match s.intermission_since_ms {
                Some(since) => resumed(s.schedule, since, now_ms),
                None => s.schedule,
            },
            intermission_since_ms: None,
        },
    }
}

/// A number of milliseconds the server can hold.
pub open spec fn in_range(t: int) -> bool {
    i64::MIN <= t <= i64::MAX
}

/// The arithmetic of a change stays in range: the version can go up, and a
/// started film's new start can be computed.
pub open spec fn fits(s: PersistedModel, change: ChangeModel) -> bool {
    &&& s.version < u64::MAX
    &&& match (change, s.intermission_since_ms, s.schedule) {
        (ChangeModel::EndIntermission { now_ms }, Some(since), Some(sch)) => sch.start_ms > since
            || (in_range(now_ms - since) && in_range(sch.start_ms + (now_ms - since)) && in_range(
            sch.start_ms + (now_ms - since) + REWIND_MS,
        )),
        _ => true,
    }
}

impl Persisted {
    /// Whether the arithmetic of a change stays in range.
    pub fn can(&self, change: &Change) -> (r: bool)
        ensures
            r == fits(self@, change@),
    {
        if self.version == u64::MAX {
            return false;
        }
        if let Change::EndIntermission { now_ms } = change {
            if let Some(since) = self.intermission_since_ms {
                if let Some(sch) = &self.schedule {
                    if sch.start_ms <= since {
                        return match now_ms.checked_sub(since) {
                            Some(length) => match sch.start_ms.checked_add(length) {
                                Some(start) => start.checked_add(REWIND_MS).is_some(),
                                None => false,
                            },
                            None => false,
                        };
                    }
                }
            }
        }
        true
    }

    /// What clients see at the given time.
    pub fn seen_at(&self, now_ms: i64) -> (r: StateView)
        ensures
            r@ == (StateViewModel { server_now_ms: now_ms as int, state: self@ }),
    {
        let s = self.clone();
        StateView {
            server_now_ms: now_ms,
            version: s.version,
            schedule: s.schedule,
            intermission_since_ms: s.intermission_since_ms,
        }
    }

    /// Change the state and bump the version.
    pub fn update(&mut self, change: Change) -> (r: u64)
        requires
            fits(old(self)@, change@),
        ensures
            final(self)@ == updated(old(self)@, change@),
            r == final(self).version,
    {
        match change {
            Change::Replace { schedule } => {
                self.schedule = schedule;
                self.intermission_since_ms = None;
            },
            Change::StartIntermission { now_ms } => {
                if self.intermission_since_ms.is_none() {
                    self.intermission_since_ms = Some(now_ms);
                }
            },
            Change::EndIntermission { now_ms } => {
                if let Some(since) = self.intermission_since_ms.take() {
                    if let Some(sch) = &mut self.schedule {
                        if sch.start_ms <= since {
                            let start = sch.start_ms + (now_ms - since) + REWIND_MS;
                            sch.start_ms = if start <= now_ms {
                                start
                            } else {
                                now_ms
                            };
                        }
                    }
                }
            },
        }
        self.version = self.version + 1;
        self.version
    }

    /// Replace the schedule; an intermission ends with it.
    pub fn set(&mut self, schedule: Option<Schedule>) -> (r: u64)
        requires
            old(self).version < u64::MAX,
        ensures
            final(self)@ == updated(
                old(self)@,
                ChangeModel::Replace { schedule: schedule_model(schedule) },
            ),
            r == final(self).version,
    {
        self.update(Change::Replace { schedule })
    }
}

/// What became of reading the state file.
pub enum StateFile {
    /// It could not be read.
    Absent,
    /// It was read, but holds no state.
    Unreadable,
    /// It holds this state.
    Holds { state: Persisted },
}

/// The state to start with: what the file holds, else the empty one.
pub open spec fn loaded(file: StateFile) -> PersistedModel {
    match file {
        StateFile::Holds { state } => state@,
        _ => empty_state(),
    }
}

/// The state to start with.
pub fn load_state(file: StateFile) -> (r: Persisted)
    ensures
        r@ == loaded(file),
{
    match file {
        StateFile::Holds { state } => state,
        StateFile::Unreadable => Persisted::default(),
        StateFile::Absent => Persisted::default(),
    }
}

/// The film's position at server time `t` for a viewer who was told `seen`:
/// the milliseconds since its start, negative while it counts down.
pub open spec fn position(seen: StateViewModel, t: int) -> int
    recommends
        seen.state.schedule is Some,
{
    t - seen.state.schedule->0.start_ms
}

/// Every viewer told of a state, early or late, is at the same position of
/// the same file at every moment of the server clock.
pub proof fn law_viewers_agree(state: PersistedModel, early: int, late: int, t: int)
    requires
        state.schedule is Some,
    ensures
        ({
            let a = StateViewModel { server_now_ms: early, state };
            let b = StateViewModel { server_now_ms: late, state };
            a.state.schedule->0.file == b.state.schedule->0.file && position(a, t) == position(b, t)
        }),
{
}

/// An intermission pauses a film that has started: when it ends, the film is
/// five seconds before where it was when the intermission began, or at its very
/// beginning if it had not come that far. File and loop flag stay.
pub proof fn law_intermission_pauses_a_running_film(s: PersistedModel, begin: int, end: int)
    requires
        s.intermission_since_ms is None,
        s.schedule is Some,
        s.schedule->0.start_ms <= begin,
    ensures
        ({
            let paused = updated(s, ChangeModel::StartIntermission { now_ms: begin });
            let resumed = updated(paused, ChangeModel::EndIntermission { now_ms: end });
            let at_pause = position(StateViewModel { server_now_ms: begin, state: paused }, begin);
            let at_resume = position(StateViewModel { server_now_ms: end, state: resumed }, end);
            &&& paused.schedule == s.schedule
            &&& resumed.intermission_since_ms is None
            &&& at_resume == if at_pause >= 5_000 {
                at_pause - 5_000
            } else {
                0
            }
            &&& resumed.schedule->0.file == s.schedule->0.file
            &&& resumed.schedule->0.loop_ == s.schedule->0.loop_
        }),
{
}

/// A film that has not started when the intermission begins keeps its
/// countdown: the schedule is the same after it.
pub proof fn law_intermission_keeps_a_countdown(s: PersistedModel, begin: int, end: int)
    requires
        s.intermission_since_ms is None,
        s.schedule is Some,
        s.schedule->0.start_ms > begin,
    ensures
        ({
            let paused = updated(s, ChangeModel::StartIntermission { now_ms: begin });
            let resumed = updated(paused, ChangeModel::EndIntermission { now_ms: end });
            resumed.schedule == s.schedule && resumed.intermission_since_ms is None
        }),
{
}

/// A film never resumes before its own beginning.
pub proof fn law_no_resume_before_the_beginning(s: PersistedModel, end: int)
    requires
        s.intermission_since_ms is Some,
        s.schedule is Some,
        s.schedule->0.start_ms <= s.intermission_since_ms->0,
    ensures
        updated(s, ChangeModel::EndIntermission { now_ms: end }).schedule->0.start_ms <= end,
{
}

/// Asking for an intermission that is already on leaves it as it began.
pub proof fn law_second_start_changes_nothing(s: PersistedModel, first: int, second: int)
    ensures
        ({
            let once = updated(s, ChangeModel::StartIntermission { now_ms: first });
            let twice = updated(once, ChangeModel::StartIntermission { now_ms: second });
            twice.schedule == once.schedule && twice.intermission_since_ms
                == once.intermission_since_ms
        }),
{
}

/// Ending an intermission that is not on leaves the schedule as it is.
pub proof fn law_end_without_intermission(s: PersistedModel, now: int)
    requires
        s.intermission_since_ms is None,
    ensures
        ({
            let after = updated(s, ChangeModel::EndIntermission { now_ms: now });
            after.schedule == s.schedule && after.intermission_since_ms is None
        }),
{
}

/// The state after some changes, one after the other.
pub open spec fn after(s: PersistedModel, changes: Seq<ChangeModel>) -> PersistedModel
    decreases changes.len(),
{
    if changes.len() == 0 {
        s
    } else {
        updated(after(s, changes.drop_last()), changes.last())
    }
}

/// The version counts the changes, so no two states of a server's history
/// carry the same one.
pub proof fn law_versions_count_changes(
    s: PersistedModel,
    changes: Seq<ChangeModel>,
    more: Seq<ChangeModel>,
)
    ensures
        after(s, changes).version == s.version + changes.len(),
        more.len() != changes.len() ==> after(s, more).version != after(s, changes).version,
{
    lemma_version(s, changes);
    lemma_version(s, more);
}

proof fn lemma_version(s: PersistedModel, changes: Seq<ChangeModel>)
    ensures
        after(s, changes).version == s.version + changes.len(),
    decreases changes.len(),
{
    if changes.len() > 0 {
        lemma_version(s, changes.drop_last());
    }
}

/// The models of a schedule, of the state, of what clients see and of a change
/// hold every field as it is.
pub proof fn law_models_hold_every_field(s: Schedule, p: Persisted, v: StateView, now: i64)
    ensures
        s@.file == s.file@ && s@.start_ms == s.start_ms && s@.loop_ == s.loop_,
        p@.version == p.version,
        p@.schedule is Some <==> p.schedule is Some,
        p.schedule is Some ==> p@.schedule->0 == p.schedule->0@,
        p@.intermission_since_ms is Some <==> p.intermission_since_ms is Some,
        p.intermission_since_ms is Some ==> p@.intermission_since_ms->0
            == p.intermission_since_ms->0,
        v@.server_now_ms == v.server_now_ms,
        v@.state.version == v.version,
        v@.state.schedule is Some <==> v.schedule is Some,
        v.schedule is Some ==> v@.state.schedule->0 == v.schedule->0@,
        v@.state.intermission_since_ms is Some <==> v.intermission_since_ms is Some,
        v.intermission_since_ms is Some ==> v@.state.intermission_since_ms->0
            == v.intermission_since_ms->0,
        (Change::Replace { schedule: Some(s) })@ == (ChangeModel::Replace { schedule: Some(s@) }),
        (Change::Replace { schedule: None })@ == (ChangeModel::Replace { schedule: None }),
        (Change::StartIntermission { now_ms: now })@ == (ChangeModel::StartIntermission {
            now_ms: now as int,
        }),
        (Change::EndIntermission { now_ms: now })@ == (ChangeModel::EndIntermission {
            now_ms: now as int,
        }),
{
}

/// A server starts with the state its file holds, all of it, and where the file
/// holds none, with version 0, nothing scheduled and no intermission.
pub proof fn law_what_a_server_starts_with(state: Persisted, file: StateFile)
    requires
        file is Absent || file is Unreadable,
    ensures
        loaded(StateFile::Holds { state }) == state@,
        loaded(file).version == 0,
        loaded(file).schedule is None,
        loaded(file).intermission_since_ms is None,
{
}

/// A change leaves the range of the server's numbers only where the version is
/// the last there is, or where the new start of a film that the intermission
/// paused cannot be computed in 64 bits, step by step.
pub proof fn law_when_a_change_fits(s: PersistedModel, schedule: Option<ScheduleModel>, now: int)
    requires
        s.version <= u64::MAX,
    ensures
        fits(s, ChangeModel::Replace { schedule }) <==> s.version != u64::MAX,
        fits(s, ChangeModel::StartIntermission { now_ms: now }) <==> s.version != u64::MAX,
        fits(s, ChangeModel::EndIntermission { now_ms: now }) <==> s.version != u64::MAX && ((
        s.intermission_since_ms is Some && s.schedule is Some && s.schedule->0.start_ms
            <= s.intermission_since_ms->0) ==> {
            let length = now - s.intermission_since_ms->0;
            let start = s.schedule->0.start_ms;
            &&& i64::MIN <= length <= i64::MAX
            &&& i64::MIN <= start + length <= i64::MAX
            &&& i64::MIN <= start + length + 5_000 <= i64::MAX
        }),
{
}

/// For times a clock shows (from the epoch on, before the last 5 seconds that
/// can be counted), the end of an intermission after its beginning always fits.
pub proof fn law_ordinary_times_fit(s: PersistedModel, now: int)
    requires
        0 <= s.version < u64::MAX,
        s.intermission_since_ms is Some ==> 0 <= s.intermission_since_ms->0 <= now,
        s.schedule is Some ==> i64::MIN <= s.schedule->0.start_ms,
        now <= i64::MAX - 5_000,
    ensures
        fits(s, ChangeModel::EndIntermission { now_ms: now }),
{
}

/// Any replacement of the schedule ends the intermission, keeps nothing of what
/// was scheduled, and counts the version up.
pub proof fn law_replacing_the_schedule(
    s: PersistedModel,
    other: PersistedModel,
    schedule: Option<ScheduleModel>,
)
    ensures
        ({
            let after = updated(s, ChangeModel::Replace { schedule });
            &&& after.version == s.version + 1
            &&& after.schedule == schedule
            &&& after.intermission_since_ms is None
        }),
        s.version == other.version ==> updated(s, ChangeModel::Replace { schedule }) == updated(
            other,
            ChangeModel::Replace { schedule },
        ),
{
}

} // verus!
