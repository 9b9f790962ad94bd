//! When the daemon records, what it puts off, and how it obeys.
use rewindd::clipboard::{Ingest, Stretch};
use rewindd::config::{Numbers, Settings};
use rewindd::daemon::{
    answer, copied, crop_file, frame_of, next_command, self_test, tell_archive, Action, Asked, CropTurn, Grabbed,
    Written, VERSION,
};
use rewindd::gate::{Daemon, Gap, Sight};
use rewindd::hypr::{ActiveWindow, Client, Monitor};
use rewindd::ipc::Command;
use rewindd::lookup::StatsSnap;
use rewindd::pause::PauseReason;
use rewindd::store::Store;
use rewindd::tx::{capture_work, ocr_work, Step, Tx};
use serde_json::Value;

fn numbers() -> Numbers {
    Numbers { byte_cap: None, cadence_ms: None, idle_pause_sec: None }
}

fn clear() -> Sight {
    Sight { locked: false, idle_ms: 0, portal_active: false, clients: Some(Vec::new()) }
}

fn idle() -> Sight {
    Sight { idle_ms: 10_000_000, ..clear() }
}

fn locked() -> Sight {
    Sight { locked: true, ..clear() }
}

fn asked(now: i64, sight: Sight) -> Asked {
    Asked { now, numbers: numbers(), sight }
}

fn recording() -> Daemon {
    let settings = Settings { consent_at: 1, arm_on_login: true, ..Settings::default() };
    let mut d = Daemon::start(settings, "png");
    d.refresh_pause(&clear(), 1);
    assert!(d.is_recording());
    d
}

fn monitor(name: &str) -> Monitor {
    Monitor { name: name.into(), ..Monitor::default() }
}

fn written() -> Written {
    Written {
        path: "frames/0/7.png".into(),
        width: 1280,
        height: 720,
        out_w: 1920,
        out_h: 1080,
        bytes: 10,
        encoder: "png".into(),
        crop: None,
        crop_bytes: 0,
    }
}

fn send(d: &mut Daemon, store: &Store, line: &str, at: &Asked) -> Action {
    d.handle_command(store, Command::parse(line).unwrap(), at)
}

#[test]
fn a_kept_armed_bit_does_not_record() {
    let settings = Settings { consent_at: 1, armed: true, ..Settings::default() };
    let mut d = Daemon::start(settings, "png");
    assert!(!d.armed);
    assert_eq!(d.refresh_pause(&clear(), 5), Some(PauseReason::Disarmed));
}

#[test]
fn arm_is_rejected_until_consent_is_recorded() {
    let store = Store::new("/data", false, true);
    let mut d = Daemon::start(Settings::default(), "png");
    let a = asked(5, clear());
    match send(&mut d, &store, r#"{"cmd":"arm","id":7}"#, &a) {
        Action::Tell(e) => {
            assert_eq!((&e.value["ok"], &e.value["id"]), (&Value::from(false), &Value::from(7)));
            assert_eq!(e.value["error"], "consent required");
        }
        other => panic!("{other:?}"),
    }
    assert!(!d.armed && d.now.gen == 0);
    assert!(matches!(
        send(&mut d, &store, r#"{"cmd":"consent","id":8}"#, &a),
        Action::State { id: 8, save: true }
    ));
    assert!(!d.armed);
    assert_eq!(d.settings.consent_at, 5);
    assert!(matches!(send(&mut d, &store, r#"{"cmd":"arm","id":9}"#, &a), Action::State { id: 9, save: true }));
    assert!(d.is_recording());
}

#[test]
fn stale_ticket_after_disarm_rearm_cannot_commit() {
    let mut d = recording();
    let ticket = d.begin_capture(&monitor("eDP-1")).unwrap();
    assert!(d.write_allowed(ticket, &clear(), 2));
    d.disarm();
    assert!(!d.write_allowed(ticket, &clear(), 3));
    assert!(d.arm(&Value::Null, &numbers()));
    assert!(!d.write_allowed(ticket, &clear(), 4));
    assert!(d.is_recording());
    assert!(d.write_allowed(d.now, &clear(), 5));
}

#[test]
fn capture_privacy_pause_during_grab_does_not_commit() {
    let mut d = recording();
    let ticket = d.begin_capture(&monitor("eDP-1")).unwrap();
    assert_eq!(d.after_grab(ticket, 5, &locked(), 2), Grabbed::Rejected);
    assert_eq!(d.after_grab(ticket, 5, &clear(), 3), Grabbed::Rejected);
    let fresh = d.begin_capture(&monitor("eDP-1")).unwrap();
    assert_eq!(d.after_grab(fresh, 5, &clear(), 4), Grabbed::Fresh);
}

#[test]
fn armed_unpaused_capture_writes_a_frame() {
    let mut d = recording();
    let mut store = Store::new("/data", true, true);
    let ticket = d.begin_capture(&monitor("eDP-1")).unwrap();
    let f = frame_of(7, written(), 5, &ActiveWindow::default(), &monitor("eDP-1"));
    let mut tx = Tx::begin(&store, capture_work(&f, "[]", &d.clip_for_frame(), 1_000));
    loop {
        match d.write_step(&mut tx, ticket, &clear(), 8) {
            Step::Write(_) => {}
            Step::Commit => break,
            Step::Abandon => unreachable!(),
        }
    }
    store.finish(tx);
    d.frame_kept(5, "png");
    assert_eq!(store.mutation_counters().0, 1);
    assert_eq!(d.after_grab(ticket, 5, &clear(), 9), Grabbed::Unchanged);
    assert_eq!(d.after_grab(ticket, 6, &clear(), 9), Grabbed::Fresh);
}

#[test]
fn concurrent_disarm_during_gated_commit_writes_nothing() {
    let mut d = recording();
    let store = Store::new("/data", true, true);
    let ticket = d.now;
    let f = frame_of(7, written(), 5, &ActiveWindow::default(), &monitor("eDP-1"));
    let mut tx = Tx::begin(&store, capture_work(&f, "[]", "", 1_000));
    assert!(matches!(d.write_step(&mut tx, ticket, &clear(), 8), Step::Write(_)));
    d.disarm();
    assert!(matches!(d.write_step(&mut tx, ticket, &clear(), 9), Step::Abandon));
}

#[test]
fn an_output_without_a_name_is_not_captured() {
    let d = recording();
    assert_eq!(d.begin_capture(&monitor("")), None);
}

#[test]
fn unknown_windows_pause() {
    let mut d = recording();
    let blind = Sight { clients: None, ..clear() };
    assert_eq!(d.refresh_pause(&blind, 2), Some(PauseReason::Excluded));
    let shared = Sight { portal_active: true, ..clear() };
    assert_eq!(d.refresh_pause(&shared, 3), Some(PauseReason::Portal));
    let client = Client { class: "1Password".into(), mapped: true, ..Client::default() };
    let secret = Sight { clients: Some(vec![client]), ..clear() };
    assert_eq!(d.refresh_pause(&secret, 4), Some(PauseReason::Excluded));
    assert_eq!(d.refresh_pause(&idle(), 5), Some(PauseReason::Idle));
    assert_eq!(d.refresh_pause(&clear(), 6), None);
}

#[test]
fn ocr_write_ok_blocks_locked_and_hard_pauses() {
    let mut d = recording();
    d.refresh_pause(&idle(), 2);
    let ticket = d.now;
    assert!(d.ocr_may_write(ticket, &idle(), 3));
    assert!(!d.ocr_may_write(ticket, &locked(), 4));
    let now = d.now;
    assert!(!d.ocr_may_write(now, &locked(), 5));
    assert!(!d.ocr_may_write(ticket, &idle(), 6));
    d.disarm();
    let now = d.now;
    assert!(!d.ocr_may_write(now, &idle(), 7));
}

#[test]
fn disarmed_is_not_ocr_idle() {
    let mut d = recording();
    assert_eq!(d.crop_turn(true, &clear(), 2), CropTurn::Stop);
    assert_eq!(d.crop_turn(true, &idle(), 3), CropTurn::Read);
    assert_eq!(d.crop_turn(false, &idle(), 4), CropTurn::Forget);
    assert_eq!(d.crop_turn(true, &locked(), 6), CropTurn::Read);
    assert_eq!(d.crop_turn(false, &locked(), 7), CropTurn::Leave);
    assert!(d.is_idle());
    d.disarm();
    assert!(!d.is_idle());
    assert_eq!(d.crop_turn(true, &idle(), 9), CropTurn::Stop);
    assert!(!d.is_idle());
}

#[test]
fn an_annotation_is_abandoned_when_the_screen_locks() {
    let mut d = recording();
    let store = Store::new("/data", true, true);
    d.refresh_pause(&idle(), 2);
    let ticket = d.now;
    let mut tx = Tx::begin(&store, ocr_work(7, "t", "a", "b", "", &Vec::new()));
    assert!(matches!(d.ocr_step(&mut tx, ticket, &locked(), 3), Step::Abandon));
}

#[test]
fn clip_cache_cleared_and_not_attached_across_privacy_pause() {
    let mut d = recording();
    assert!(matches!(d.ingest("copied", &clear(), 2), Ingest::Keep(s) if s == "copied"));
    assert_eq!(d.clip_for_frame(), "");
    let ticket = d.now;
    d.hold_clip("copied".into(), ticket);
    assert_eq!(d.clip_for_frame(), "copied");
    assert!(matches!(d.ingest("secret", &locked(), 3), Ingest::Drop));
    assert_eq!(d.clip_for_frame(), "");
    d.refresh_pause(&clear(), 4);
    d.hold_clip("copied".into(), ticket);
    assert_eq!(d.clip_for_frame(), "");
}

#[test]
fn pause_transition_does_not_write_to_store() {
    let mut d = recording();
    let held = d.flush_deferred(&clear(), 2);
    assert_eq!(held.gaps.len(), 0);
    assert_eq!(d.flush_deferred(&locked(), 3).gaps.len(), 0);
    assert_eq!(d.gaps.len(), 1);
    let due = d.flush_deferred(&clear(), 4);
    let kinds: Vec<(i64, &str, &str)> = due.gaps.iter().map(|g| (g.ts, g.kind(), g.why())).collect();
    assert_eq!(kinds, vec![(3, "pause", "locked"), (4, "resume", "")]);
    assert_eq!(Gap { ts: 0, reason: Some(PauseReason::Portal) }.why(), "portal");
}

#[test]
fn disarm_defers_checkpoint_and_flush_applies_it() {
    let mut d = recording();
    d.disarm();
    assert!(d.checkpoint_due);
    let held = d.flush_deferred(&clear(), 2);
    assert!(!held.checkpoint && !held.save);
    assert!(d.arm(&Value::Null, &numbers()));
    let due = d.flush_deferred(&clear(), 3);
    assert!(due.checkpoint && due.save);
    assert!(!d.checkpoint_due && !d.save_due);
}

#[test]
fn settings_save_deferred_while_paused() {
    let store = Store::new("/data", true, true);
    let mut d = recording();
    let line = r#"{"cmd":"configure","id":1,"skipUnchanged":false}"#;
    assert!(matches!(send(&mut d, &store, line, &asked(2, locked())), Action::State { id: 1, save: false }));
    assert!(d.save_due && !d.settings.skip_unchanged);
    assert!(matches!(send(&mut d, &store, line, &asked(3, clear())), Action::State { id: 1, save: true }));
    assert!(!d.save_due);
}

#[test]
fn an_open_overlay_pauses_at_once() {
    let store = Store::new("/data", true, true);
    let mut d = recording();
    let ticket = d.now;
    let open = r#"{"cmd":"set-pause","id":1,"reason":"overlay","paused":true}"#;
    assert!(matches!(send(&mut d, &store, open, &asked(2, clear())), Action::State { id: 1, save: false }));
    assert_eq!(d.pause, Some(PauseReason::Overlay));
    assert!(!d.write_allowed(ticket, &clear(), 3));
    let other = r#"{"cmd":"set-pause","id":1,"reason":"whim","paused":false}"#;
    send(&mut d, &store, other, &asked(4, clear()));
    assert!(d.overlay_open);
    let shut = r#"{"cmd":"set-pause","id":1,"reason":"overlay","paused":false}"#;
    send(&mut d, &store, shut, &asked(5, clear()));
    assert!(d.is_recording());
    send(&mut d, &store, r#"{"cmd":"disarm","id":2}"#, &asked(6, clear()));
    assert_eq!(d.pause, Some(PauseReason::Disarmed));
}

#[test]
fn commands_that_ask_are_answered() {
    let mut store = Store::new("/data", true, true);
    store.insert_clip(5, "text/plain", "copied é").unwrap();
    let mut d = recording();
    let a = asked(9, clear());
    match send(&mut d, &store, r#"{"cmd":"hello","id":1}"#, &a) {
        Action::Tell(e) => assert_eq!(e.value["data"]["version"], VERSION),
        other => panic!("{other:?}"),
    }
    match send(&mut d, &store, r#"{"cmd":"clips","id":1}"#, &a) {
        Action::Tell(e) => assert_eq!(e.value["data"]["clips"][0]["content"], "copied é"),
        other => panic!("{other:?}"),
    }
    match send(&mut d, &store, r#"{"cmd":"timeline","id":1}"#, &a) {
        Action::Tell(e) => assert_eq!(e.value["data"]["frames"].as_array().unwrap().len(), 0),
        other => panic!("{other:?}"),
    }
    match send(&mut d, &store, r#"{"cmd":"copy-clip","id":1,"ts":4}"#, &a) {
        Action::Tell(e) => assert_eq!(e.value["error"], "no clip at that moment"),
        other => panic!("{other:?}"),
    }
    match send(&mut d, &store, r#"{"cmd":"copy-clip","id":1,"ts":6}"#, &a) {
        Action::Copy { id, content } => {
            assert_eq!(content, "copied é");
            let e = copied(id, &content, Ok(()));
            assert_eq!((&e.value["data"]["ok"], &e.value["data"]["bytes"]), (&Value::from(true), &Value::from(9)));
            assert_eq!(copied(id, &content, Err("wl-copy missing".into())).value["error"], "wl-copy missing");
        }
        other => panic!("{other:?}"),
    }
    assert!(matches!(
        send(&mut d, &store, r#"{"cmd":"query","id":2,"q":"x"}"#, &a),
        Action::Search { id: 2, limit: 50, .. }
    ));
    assert!(matches!(send(&mut d, &store, r#"{"cmd":"moment","ts":3}"#, &a), Action::Moment { ts: 3, .. }));
    assert!(matches!(send(&mut d, &store, r#"{"cmd":"reopen-plan","ts":3}"#, &a), Action::Plan { ts: 3, .. }));
    assert!(matches!(
        send(&mut d, &store, r#"{"cmd":"reopen-window","target":{"class":"kitty"}}"#, &a),
        Action::PlanWindow { target, .. } if target["class"] == "kitty"
    ));
    assert!(matches!(
        send(&mut d, &store, r#"{"cmd":"reopen-exec","plan":{"steps":[{"kind":"exec","cmd":"kitty"}]}}"#, &a),
        Action::Dispatch { asked, .. } if asked.len() == 1
    ));
    assert!(matches!(
        send(&mut d, &store, r#"{"cmd":"wipe","scope":"all"}"#, &a),
        Action::Wipe { scope, .. } if scope == "all"
    ));
    assert!(matches!(send(&mut d, &store, r#"{"cmd":"stats","id":3}"#, &a), Action::Stats { id: 3 }));
    match send(&mut d, &store, r#"{"cmd":"shutdown","id":4}"#, &a) {
        Action::Stop(e) => assert_eq!(e.value["data"]["bye"], true),
        other => panic!("{other:?}"),
    }
    assert!(d.is_recording());
}

#[test]
fn the_daemon_tells_its_state() {
    let d = recording();
    let snap = StatsSnap { frames: 3, frames_today: 2, bytes: 9, first_ts: 1, last_ts: 2 };
    let v = d.stats_json(&snap, Some(PauseReason::Idle), Value::Null, true, "grim");
    assert_eq!((&v["armed"], &v["consent"], &v["paused"]), (&Value::from(true), &Value::from(true), &Value::from(true)));
    assert_eq!((&v["reason"], &v["frames"], &v["framesToday"]), (&Value::from("idle"), &Value::from(3), &Value::from(2)));
    assert_eq!((&v["encoder"], &v["capture"], &v["version"]), (&Value::from("png"), &Value::from("grim"), &Value::from("0.1.0")));
    assert_eq!(v["daysEstimate"], Value::Null);
    let bare = tell_archive(&snap, "cwebp", false, "missing");
    assert_eq!((&bare["bytes"], &bare["encoder"]), (&Value::from(9), &Value::from("cwebp")));
    assert_eq!(answer(4, Err("no".into())).value["error"], "no");
    assert_eq!(answer(4, Ok(Value::from(1))).value["data"], 1);
}

#[test]
fn lines_are_commands() {
    assert!(next_command("   \t").is_none());
    assert!(matches!(next_command("  {\"cmd\":\"hello\"} "), Some(Ok(Command::Hello { id: 0 }))));
    assert!(matches!(next_command("{"), Some(Err(_))));
}

#[test]
fn frames_are_filed_by_day() {
    let mut d = recording();
    assert_eq!(d.frame_file(1_700_000_000_000, 5, "webp"), "frames/19675/1700000000000.webp");
    d.frame_kept(5, "png");
    assert_eq!(d.frame_file(7, 5, "png"), "frames/0/7-d.png");
    assert_eq!(crop_file(7), "crops/7.png");
    let active = ActiveWindow { class: "kitty".into(), at: (1, 2), size: (3, 4), ..ActiveWindow::default() };
    let f = frame_of(7, written(), u64::MAX, &active, &monitor("eDP-1"));
    assert_eq!((f.dhash, f.crop_x, f.crop_h, f.out_w), (-1, 1, 4, 1920));
    assert_eq!((f.app.as_str(), f.output.as_str()), ("kitty", "eDP-1"));
}

#[test]
fn stretches_are_told_apart() {
    let a = Stretch { gen: 1, epoch: 0 };
    assert_eq!(a, Stretch { gen: 1, epoch: 0 });
    assert_ne!(a, Stretch { gen: 1, epoch: 1 });
}

#[test]
fn the_library_passes_its_own_trial() {
    assert_eq!(self_test(), Ok(()));
}
