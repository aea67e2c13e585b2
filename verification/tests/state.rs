use multipass_video::access::{Inner, Status};
use multipass_video::admin::{Action, Call, Event, Job, ScheduleRequest};
use multipass_video::clock::{epoch_ms, now_ms, reading_ms};
use multipass_video::media::{DirEntry, FileMeta};
use multipass_video::state::{
    load_state, Change, Persisted, Schedule, StateFile, StateView, REWIND_MS,
};
use multipass_video::trace::{post_trace, TraceBody, MAX_LINES};

const ADMIN: Option<&[u8]> = Some(b"Bearer admin");

fn server() -> Inner {
    Inner::new("admin".to_string(), None, Persisted::default())
}

fn schedule(start_ms: i64) -> Schedule {
    Schedule { file: "f.mp4".to_string(), start_ms, loop_: false }
}

/// What came of a call: the state shown, or the refusal; and what was done on
/// the way.
struct Outcome {
    answer: Result<StateView, (Status, String)>,
    log: Vec<String>,
}

struct World {
    now_ms: i64,
    is_file: bool,
    disk_full: bool,
}

fn run(app: &mut Inner, authorization: Option<&[u8]>, call: Call, world: &World) -> Outcome {
    let mut log = Vec::new();
    let (mut job, mut action) = app.begin(authorization, call);
    loop {
        let event = match action {
            Action::FindFile { name } => {
                log.push(format!("find {name}"));
                Event::File { is_file: world.is_file }
            }
            Action::ReadClock => Event::Clock { now_ms: world.now_ms },
            Action::Save { state } => {
                log.push(format!("save {}", state.version));
                if world.disk_full {
                    Event::SaveFailed { message: "disk full".to_string() }
                } else {
                    Event::Saved
                }
            }
            Action::Wake { version } => {
                log.push(format!("wake {version}"));
                Event::Woken
            }
            Action::Reply { view } => return Outcome { answer: Ok(view), log },
            Action::Refuse { status, message } => {
                return Outcome { answer: Err((status, message)), log }
            }
            Action::Halt => panic!("halt"),
        };
        assert!(job.waits_for(&event));
        (job, action) = app.resume(job, event);
    }
}

fn at(now_ms: i64) -> World {
    World { now_ms, is_file: true, disk_full: false }
}

fn play(file: &str, start_ms: Option<i64>) -> Call {
    Call::SetSchedule {
        req: ScheduleRequest { file: file.to_string(), start_ms, loop_: false },
    }
}

#[test]
fn an_intermission_pauses_a_running_film_and_not_a_countdown() {
    let mut app = server();
    let now = 1_700_000_000_000;

    // A film that started 100 s ago.
    let started = now - 100_000;
    let r = run(&mut app, ADMIN, play("f.mp4", Some(started)), &at(now));
    assert_eq!(r.answer.unwrap().schedule, Some(schedule(started)));

    let s = run(&mut app, ADMIN, Call::StartIntermission, &at(now)).answer.unwrap();
    assert_eq!(s.intermission_since_ms, Some(now));
    let s = run(&mut app, ADMIN, Call::EndIntermission, &at(now + 50)).answer.unwrap();
    assert_eq!(s.intermission_since_ms, None);
    // Moved forward by the intermission's length (50 ms) plus the 5 s rewind.
    let shifted = s.schedule.unwrap().start_ms - started;
    assert!((5_050..7_000).contains(&shifted), "start moved by {shifted} ms");
    assert_eq!(shifted, 50 + REWIND_MS);

    // A film paused 2 s in cannot rewind 5 s: it resumes from its start.
    let just_started = now - 2_000;
    run(&mut app, ADMIN, play("f.mp4", Some(just_started)), &at(now)).answer.unwrap();
    run(&mut app, ADMIN, Call::StartIntermission, &at(now)).answer.unwrap();
    let s = run(&mut app, ADMIN, Call::EndIntermission, &at(now + 7)).answer.unwrap();
    let start = s.schedule.unwrap().start_ms;
    assert!(
        start <= now + 7 && start > now + 7 - 500,
        "resumes from the beginning, not before it"
    );

    // A film that has not started keeps its countdown.
    let future = now + 100_000;
    run(&mut app, ADMIN, play("f.mp4", Some(future)), &at(now)).answer.unwrap();
    run(&mut app, ADMIN, Call::StartIntermission, &at(now)).answer.unwrap();
    let s = run(&mut app, ADMIN, Call::EndIntermission, &at(now + 50)).answer.unwrap();
    assert_eq!(s.schedule.unwrap().start_ms, future);

    // Without the token: refused.
    let r = run(&mut app, None, Call::StartIntermission, &at(now));
    assert_eq!(r.answer.unwrap_err().0, Status::Unauthorized);
    assert!(r.log.is_empty());
}

#[test]
fn a_call_saves_before_it_wakes() {
    let mut app = server();
    let r = run(&mut app, ADMIN, play("f.mp4", None), &at(42));
    assert_eq!(r.log, ["find f.mp4", "save 1", "wake 1"]);
    let view = r.answer.unwrap();
    assert_eq!((view.server_now_ms, view.version), (42, 1));
    assert_eq!(view.schedule, Some(schedule(42)));

    let full = World { now_ms: 43, is_file: true, disk_full: true };
    let r = run(&mut app, ADMIN, Call::ClearSchedule, &full);
    assert_eq!(r.log, ["save 2"]);
    assert_eq!(
        r.answer.unwrap_err(),
        (Status::InternalServerError, "disk full".to_string())
    );
    assert_eq!(app.state.version, 2);
    assert_eq!(app.state.schedule, None);
}

#[test]
fn what_cannot_be_scheduled_is_refused() {
    let mut app = server();
    let missing = World { now_ms: 0, is_file: false, disk_full: false };
    for bad in ["../f.mp4", ".f.mp4", "f.txt", ""] {
        let r = run(&mut app, ADMIN, play(bad, None), &at(0));
        assert_eq!(
            r.answer.unwrap_err(),
            (Status::BadRequest, "not a playable file name".to_string())
        );
        assert!(r.log.is_empty());
    }
    let r = run(&mut app, ADMIN, play("f.mp4", None), &missing);
    assert_eq!(
        r.answer.unwrap_err(),
        (Status::NotFound, "no such file in the media directory".to_string())
    );
    for call in [
        play("f.mp4", None),
        Call::ClearSchedule,
        Call::StartIntermission,
        Call::EndIntermission,
    ] {
        let r = run(&mut app, Some(b"Bearer wrong"), call, &at(0));
        assert_eq!(
            r.answer.unwrap_err(),
            (Status::Unauthorized, "admin token required".to_string())
        );
    }
    assert_eq!(app.state.version, 0);
    assert_eq!(app.view(7).version, 0);
}

#[test]
fn files_are_listed_for_the_administrator() {
    let app = server();
    let entries = [
        DirEntry { name: "b.mp4".to_string(), meta: Some(FileMeta { is_file: true, len: 2 }) },
        DirEntry { name: "a.mp4".to_string(), meta: Some(FileMeta { is_file: true, len: 1 }) },
    ];
    let files = app.list_files(ADMIN, Some(&entries)).unwrap();
    let names: Vec<(&str, u64)> = files.iter().map(|f| (f.name.as_str(), f.size)).collect();
    assert_eq!(names, [("a.mp4", 1), ("b.mp4", 2)]);
    assert_eq!(app.list_files(None, Some(&entries)), Err(Status::Unauthorized));
    assert_eq!(app.list_files(None, None), Err(Status::Unauthorized));
    assert_eq!(app.list_files(ADMIN, None), Err(Status::InternalServerError));
}

#[test]
fn jobs_wait_for_their_own_events() {
    let clock = || Event::Clock { now_ms: 1 };
    assert!(Job::Starting.waits_for(&clock()));
    assert!(!Job::Done.waits_for(&clock()));
    assert!(!Job::Starting.waits_for(&Event::Saved));
    assert!(Job::Saving { version: 1 }.waits_for(&Event::Saved));
    assert!(!Job::Waking.waits_for(&clock()));
}

#[test]
fn an_answer_nobody_waits_for_halts() {
    let mut app = server();
    let (job, action) = app.resume(Job::Done, Event::Saved);
    assert!(matches!(job, Job::Done) && matches!(action, Action::Halt));
    let (job, action) = app.resume(Job::Starting, Event::File { is_file: true });
    assert!(matches!(job, Job::Starting) && matches!(action, Action::Halt));
    assert_eq!((app.state.version, app.state.intermission_since_ms), (0, None));
}

#[test]
fn every_change_bumps_the_version() {
    let mut s = Persisted::default();
    assert_eq!(s.set(Some(schedule(5))), 1);
    assert_eq!(s.update(Change::StartIntermission { now_ms: 10 }), 2);
    assert_eq!(s.update(Change::StartIntermission { now_ms: 20 }), 3);
    assert_eq!(s.intermission_since_ms, Some(10));
    assert_eq!(s.set(None), 4);
    assert_eq!((s.schedule.clone(), s.intermission_since_ms), (None, None));
    assert_eq!(s.update(Change::EndIntermission { now_ms: 30 }), 5);
    assert_eq!(s.clone().version, 5);
    let view = s.seen_at(99);
    assert_eq!((view.server_now_ms, view.version), (99, 5));
}

#[test]
fn changes_out_of_range_are_told() {
    let state = |version: u64, start_ms: i64, since: i64| Persisted {
        version,
        schedule: Some(schedule(start_ms)),
        intermission_since_ms: Some(since),
    };
    let end = |now_ms: i64| Change::EndIntermission { now_ms };
    assert!(state(0, 0, 0).can(&end(10)));
    assert!(!state(u64::MAX, 0, 0).can(&end(10)));
    assert!(!state(0, 0, 0).can(&end(i64::MAX)));
    assert!(state(0, 1, 0).can(&end(i64::MAX)));
    assert!(!state(0, i64::MIN, i64::MIN).can(&end(0)));
    assert!(!state(0, i64::MIN, 10).can(&end(5)));
    assert!(state(0, i64::MIN, i64::MAX).can(&end(i64::MAX)));
}

#[test]
fn a_server_starts_with_what_was_saved() {
    let saved = Persisted {
        version: 9,
        schedule: Some(schedule(3)),
        intermission_since_ms: Some(4),
    };
    let s = load_state(StateFile::Holds { state: saved });
    assert_eq!((s.version, s.intermission_since_ms), (9, Some(4)));
    assert_eq!(s.schedule, Some(schedule(3)));
    for file in [StateFile::Absent, StateFile::Unreadable] {
        let s = load_state(file);
        assert_eq!((s.version, s.schedule, s.intermission_since_ms), (0, None, None));
    }
}

#[test]
fn the_clock_counts_unix_milliseconds() {
    assert_eq!(epoch_ms(0), 0);
    assert_eq!(epoch_ms(1_700_000_000_123), 1_700_000_000_123);
    assert_eq!(epoch_ms(u64::MAX as u128), -1);
    assert_eq!(reading_ms(Some(1_700_000_000_123)), Some(1_700_000_000_123));
    assert_eq!(reading_ms(Some(1 << 64)), Some(0));
    assert_eq!(reading_ms(None), None);
    let before = std::time::SystemTime::now()
        .duration_since(std::time::UNIX_EPOCH)
        .unwrap()
        .as_millis() as i64;
    let now = now_ms().unwrap();
    assert!(before <= now && now < before + 10_000);
}

#[test]
fn traces_are_bounded() {
    let body = |id: &str, ua: &str, lines: Vec<String>| TraceBody {
        id: id.to_string(),
        ua: ua.to_string(),
        lines,
    };
    let (status, log) = post_trace(&body("tv-1 \u{e9}/AbCdEfGh", "TV", vec!["play".to_string()]));
    assert_eq!(status, Status::NoContent);
    assert_eq!(log, ["tv1AbCdE ua TV", "tv1AbCdE play"]);

    let long = "\u{e9}".repeat(400);
    let (_, log) = post_trace(&body("", &long, vec![long.clone(); MAX_LINES]));
    assert_eq!(log.len(), 201);
    assert_eq!(log[0], format!(" ua {}", "\u{e9}".repeat(200)));
    assert_eq!(log[200], format!(" {}", "\u{e9}".repeat(300)));

    let (status, log) = post_trace(&body("a", "b", vec![String::new(); 201]));
    assert_eq!(status, Status::PayloadTooLarge);
    assert!(log.is_empty());
}
