//! Frames on their way into the archive, and the reading of their crops.
use rewindd::capture::RawFrame;
use rewindd::config::Settings;
use rewindd::encode::Encoder;
use rewindd::gate::{Daemon, Sight};
use rewindd::hypr::{ActiveWindow, Monitor};
use rewindd::query::WordBox;
use rewindd::reader::{Got, Reader, Want};
use rewindd::rows::FrameInsert;
use rewindd::shot::{Ask, News, Shot};
use rewindd::store::Store;

fn clear() -> Sight {
    Sight { locked: false, idle_ms: 0, portal_active: false, clients: Some(Vec::new()) }
}

fn idle() -> Sight {
    Sight { idle_ms: 10_000_000, ..clear() }
}

fn locked() -> Sight {
    Sight { locked: true, ..clear() }
}

fn recording() -> Daemon {
    let settings = Settings { consent_at: 1, arm_on_login: true, ..Settings::default() };
    let mut d = Daemon::start(settings, "png");
    d.refresh_pause(&clear(), 1);
    d
}

fn away() -> Daemon {
    let mut d = recording();
    d.refresh_pause(&idle(), 2);
    d
}

fn monitor() -> Monitor {
    Monitor { name: "eDP-1".into(), width: 16, height: 8, ..Monitor::default() }
}

fn window() -> ActiveWindow {
    ActiveWindow { class: "kitty".into(), title: "notes".into(), at: (4, 2), size: (8, 4), ..ActiveWindow::default() }
}

fn begin(d: &Daemon, active: ActiveWindow) -> (Ask, Shot) {
    Shot::begin(d, monitor(), active, "[]".into(), false).unwrap()
}

fn picture() -> RawFrame {
    let rgba = (0..16 * 8).flat_map(|i: u32| [(i * 37 % 251) as u8, i as u8, 0, 255]).collect();
    RawFrame { rgba, width: 16, height: 8 }
}

fn taken(ts: i64) -> News {
    News::Picture { raw: picture(), sight: clear(), ts }
}

fn seen(ts: i64) -> News {
    News::Seen { sight: clear(), ts }
}

/// A frame whose picture and crop were written.
fn written(d: &mut Daemon, store: &mut Store) -> (Ask, Shot) {
    let (_, shot) = begin(d, window());
    let (_, shot) = shot.step(d, store, taken(7));
    let (_, shot) = shot.unwrap().step(d, store, News::Encoded { encoder: Encoder::Png, bytes: 40 });
    let (ask, shot) = shot.unwrap().step(d, store, News::CropSaved { bytes: 5 });
    (ask, shot.unwrap())
}

/// Keep a frame, unless it is given up.
fn kept(d: &mut Daemon, store: &mut Store, mut shot: Shot) -> Ask {
    let mut news = seen(8);
    loop {
        let (ask, next) = shot.step(d, store, news);
        news = match ask {
            Ask::Write { .. } => seen(9),
            Ask::Seal => News::Sealed,
            last => return last,
        };
        shot = next.unwrap();
    }
}

#[test]
fn a_frame_goes_all_the_way() {
    let mut d = recording();
    let mut store = Store::new("/data", true, true);
    let (ask, shot) = begin(&d, window());
    match ask {
        Ask::Grab { output } => assert_eq!(output, "eDP-1"),
        _ => panic!("not grabbed"),
    }
    let (ask, shot) = shot.step(&mut d, &mut store, taken(7));
    match ask {
        Ask::Encode { picture, path } => {
            assert_eq!((picture.width, picture.height), (16, 8));
            assert_eq!(picture.bytes.len(), 16 * 8 * 4);
            assert!(path.starts_with("frames/") && path.ends_with(".png"));
        }
        _ => panic!("not encoded"),
    }
    let (ask, shot) = shot.unwrap().step(&mut d, &mut store, News::Encoded { encoder: Encoder::Png, bytes: 40 });
    match ask {
        Ask::SaveCrop { picture: part, path } => {
            assert_eq!((part.width, part.height), (8, 4));
            assert_eq!(part.bytes[..4], picture().rgba[(2 * 16 + 4) * 4..(2 * 16 + 5) * 4]);
            assert!(path.starts_with("crops/"));
        }
        _ => panic!("not cropped"),
    }
    let (ask, shot) = shot.unwrap().step(&mut d, &mut store, News::CropSaved { bytes: 5 });
    assert!(matches!(ask, Ask::Look));
    assert_eq!(store.mutation_counters().0, 0);
    match kept(&mut d, &mut store, shot.unwrap()) {
        Ask::Done { event } => assert_eq!(event.value["ts"], 7),
        _ => panic!("not kept"),
    }
    assert_eq!(store.mutation_counters().0, 1);
    assert_eq!(store.pending_crop_count(), 1);
    assert_eq!(store.labels_at(7), ("kitty".to_string(), "notes".to_string()));

    let (_, shot) = begin(&d, window());
    let (ask, next) = shot.step(&mut d, &mut store, taken(9));
    assert!(matches!(ask, Ask::Unchanged) && next.is_none());
}

#[test]
fn a_frame_without_a_window_has_no_crop() {
    let mut d = recording();
    let mut store = Store::new("/data", true, true);
    let (_, shot) = begin(&d, ActiveWindow::default());
    let (_, shot) = shot.step(&mut d, &mut store, taken(7));
    let (ask, shot) = shot.unwrap().step(&mut d, &mut store, News::Encoded { encoder: Encoder::Png, bytes: 40 });
    assert!(matches!(ask, Ask::Look));
    assert!(matches!(kept(&mut d, &mut store, shot.unwrap()), Ask::Done { .. }));
    assert_eq!(store.pending_crop_count(), 0);

    let far = ActiveWindow { at: (i64::MAX, 0), size: (1, 1), ..ActiveWindow::default() };
    let left = Monitor { x: -1, ..monitor() };
    let (_, shot) = Shot::begin(&d, left, far, "[]".into(), false).unwrap();
    let raw = RawFrame { rgba: vec![9; 4], width: 1, height: 1 };
    d.settings.skip_unchanged = false;
    let (_, shot) = shot.step(&mut d, &mut store, News::Picture { raw, sight: clear(), ts: 20 });
    let (ask, _) = shot.unwrap().step(&mut d, &mut store, News::Encoded { encoder: Encoder::Png, bytes: 4 });
    assert!(matches!(ask, Ask::Look));
}

#[test]
fn no_frame_is_begun_while_recording_is_off() {
    let mut d = recording();
    assert!(Shot::begin(&d, Monitor::default(), window(), "[]".into(), false).is_none());
    d.disarm();
    assert!(Shot::begin(&d, monitor(), window(), "[]".into(), false).is_none());
}

#[test]
fn a_picture_of_a_locked_screen_is_dropped() {
    let mut d = recording();
    let mut store = Store::new("/data", true, true);
    let (_, shot) = begin(&d, window());
    let (ask, next) = shot.step(&mut d, &mut store, News::Picture { raw: picture(), sight: locked(), ts: 7 });
    assert!(next.is_none());
    match ask {
        Ask::Discard { files, error } => assert!(files.is_empty() && error.is_none()),
        _ => panic!("not dropped"),
    }
    assert!(!d.is_recording());
}

#[test]
fn a_pause_removes_the_files_of_a_frame() {
    let mut d = recording();
    let mut store = Store::new("/data", true, true);
    let (_, shot) = written(&mut d, &mut store);
    let (ask, shot) = shot.step(&mut d, &mut store, seen(8));
    assert!(matches!(ask, Ask::Write { .. }));
    let (ask, next) = shot.unwrap().step(&mut d, &mut store, News::Seen { sight: locked(), ts: 9 });
    assert!(next.is_none());
    match ask {
        Ask::Discard { files, error } => {
            assert_eq!(files.len(), 2);
            assert!(files[0].starts_with("frames/") && files[1].starts_with("crops/"));
            assert_eq!(error, None);
        }
        _ => panic!("not given up"),
    }
    assert_eq!(store.mutation_counters().0, 0);
}

#[test]
fn a_disarm_and_rearm_gives_a_frame_up() {
    let mut d = recording();
    let mut store = Store::new("/data", true, true);
    let (_, shot) = written(&mut d, &mut store);
    d.disarm();
    let numbers = rewindd::config::Numbers { byte_cap: None, cadence_ms: None, idle_pause_sec: None };
    assert!(d.arm(&serde_json::Value::Null, &numbers));
    assert!(matches!(kept(&mut d, &mut store, shot), Ask::Discard { error: None, .. }));
    assert_eq!(store.mutation_counters().0, 0);
}

#[test]
fn failures_are_told() {
    let mut d = recording();
    let mut store = Store::new("/data", true, true);
    let (_, shot) = written(&mut d, &mut store);
    match shot.step(&mut d, &mut store, News::Failed { error: "disk full".into() }) {
        (Ask::Discard { files, error }, None) => {
            assert_eq!(files.len(), 2);
            assert_eq!(error.as_deref(), Some("disk full"));
        }
        _ => panic!("not given up"),
    }
    let (_, shot) = begin(&d, window());
    match shot.step(&mut d, &mut store, News::Sealed) {
        (Ask::Discard { error, .. }, None) => assert_eq!(error.as_deref(), Some("out of turn")),
        _ => panic!("not given up"),
    }
    let (_, shot) = begin(&d, window());
    let raw = RawFrame { rgba: Vec::new(), width: 65536, height: 65536 };
    match shot.step(&mut d, &mut store, News::Picture { raw, sight: clear(), ts: 7 }) {
        (Ask::Discard { error, .. }, None) => assert_eq!(error.as_deref(), Some("picture too large")),
        _ => panic!("not given up"),
    }
    let mut shut = Store::new("/data", false, true);
    let (_, shot) = begin(&d, ActiveWindow::default());
    let (_, shot) = shot.step(&mut d, &mut shut, taken(7));
    match shot.unwrap().step(&mut d, &mut shut, News::Encoded { encoder: Encoder::Png, bytes: 40 }) {
        (Ask::Discard { files, error }, None) => {
            assert_eq!(files.len(), 1);
            assert_eq!(error.as_deref(), Some("read-only store"));
        }
        _ => panic!("not given up"),
    }
}

fn with_crops(stamps: &[i64]) -> Store {
    let mut store = Store::new("/data", true, true);
    for ts in stamps {
        let frame = FrameInsert {
            ts: *ts,
            path: format!("frames/{ts}.png"),
            app: "kitty".into(),
            title: "notes".into(),
            workspace: "1".into(),
            output: "eDP-1".into(),
            width: 16,
            height: 8,
            out_w: 16,
            out_h: 8,
            crop_x: 0,
            crop_y: 0,
            crop_w: 16,
            crop_h: 8,
            bytes: 10,
            dhash: *ts,
            encoder: "png".into(),
            crop_path: Some(format!("crops/{ts}.png")),
            crop_bytes: 5,
        };
        store.insert_frame(&frame).unwrap();
    }
    store
}

fn inspected(there: bool) -> Got {
    Got::Inspected { there, sight: idle(), now: 3 }
}

fn words() -> Got {
    let boxes = vec![WordBox { word: "hello".into(), x: 0, y: 0, w: 0, h: 0 }];
    Got::Words { text: "hello".into(), boxes, sight: idle(), now: 4 }
}

fn looked() -> Got {
    Got::Seen { sight: idle(), now: 5 }
}

#[test]
fn crops_are_read_one_after_the_other() {
    let mut d = away();
    let mut store = with_crops(&[1, 2, 3]);
    let (want, reader) = Reader::begin(&d, &store).unwrap();
    match want {
        Want::Inspect { path } => assert_eq!(path, "crops/1.png"),
        _ => panic!("not inspected"),
    }
    let (want, reader) = reader.step(&mut d, &mut store, inspected(true));
    match want {
        Want::Read { ts, path } => assert_eq!((ts, path.as_str()), (1, "crops/1.png")),
        _ => panic!("not read"),
    }
    let (mut want, reader) = reader.unwrap().step(&mut d, &mut store, words());
    assert!(matches!(want, Want::Look));
    let mut reader = reader.unwrap();
    assert_eq!(store.mutation_counters().2, 0);
    loop {
        let got = match want {
            Want::Look | Want::Write { .. } => looked(),
            Want::Seal => Got::Sealed,
            Want::Clear { ts, tell } => {
                assert_eq!(ts, 1);
                let told = tell.unwrap();
                assert_eq!((&told.value["done"], &told.value["queued"]), (&1.into(), &3.into()));
                break;
            }
            _ => panic!("not annotated"),
        };
        let (w, r) = reader.step(&mut d, &mut store, got);
        want = w;
        reader = r.unwrap();
    }
    assert_eq!(store.mutation_counters().2, 1);
    assert_eq!(store.moment(1).boxes[0].word, "hello");
    let (want, reader) = reader.step(&mut d, &mut store, Got::Done);
    match want {
        Want::Inspect { path } => assert_eq!(path, "crops/2.png"),
        _ => panic!("not inspected"),
    }
    let (want, reader) = reader.unwrap().step(&mut d, &mut store, inspected(false));
    assert!(matches!(want, Want::Clear { ts: 2, tell: None }));
    let (want, reader) = reader.unwrap().step(&mut d, &mut store, Got::Done);
    assert!(matches!(want, Want::Inspect { .. }));
    let (want, reader) = reader.unwrap().step(&mut d, &mut store, inspected(true));
    assert!(matches!(want, Want::Read { ts: 3, .. }));
    let (want, reader) = reader.unwrap().step(&mut d, &mut store, Got::NoWords { sight: idle(), now: 6 });
    assert!(matches!(want, Want::Clear { ts: 3, tell: None }));
    let (want, reader) = reader.unwrap().step(&mut d, &mut store, Got::Done);
    assert!(matches!(want, Want::Rest) && reader.is_none());
}

#[test]
fn crops_wait_while_somebody_is_there() {
    let mut d = recording();
    let mut store = with_crops(&[1]);
    assert!(Reader::begin(&d, &store).is_none());
    d.refresh_pause(&idle(), 2);
    assert!(Reader::begin(&d, &Store::new("/data", true, true)).is_none());
    let (_, reader) = Reader::begin(&d, &store).unwrap();
    let (want, reader) = reader.step(&mut d, &mut store, Got::Inspected { there: true, sight: clear(), now: 3 });
    assert!(matches!(want, Want::Rest) && reader.is_none());
}

#[test]
fn a_lock_while_a_crop_is_read_leaves_it_alone() {
    let mut d = away();
    let mut store = with_crops(&[1, 2]);
    let (_, reader) = Reader::begin(&d, &store).unwrap();
    let (_, reader) = reader.step(&mut d, &mut store, inspected(true));
    let got = Got::Words { text: "hello".into(), boxes: Vec::new(), sight: locked(), now: 4 };
    let (want, reader) = reader.unwrap().step(&mut d, &mut store, got);
    assert!(matches!(want, Want::Inspect { .. }));
    let got = Got::Inspected { there: false, sight: locked(), now: 5 };
    let (want, reader) = reader.unwrap().step(&mut d, &mut store, got);
    assert!(matches!(want, Want::Rest) && reader.is_none());
    assert_eq!(store.pending_crop_count(), 2);
}

#[test]
fn an_annotation_is_undone_when_the_screen_locks() {
    let mut d = away();
    let mut store = with_crops(&[1]);
    let (_, reader) = Reader::begin(&d, &store).unwrap();
    let (_, reader) = reader.step(&mut d, &mut store, inspected(true));
    let (_, reader) = reader.unwrap().step(&mut d, &mut store, words());
    let (want, reader) = reader.unwrap().step(&mut d, &mut store, looked());
    assert!(matches!(want, Want::Write { .. }));
    let (want, reader) = reader.unwrap().step(&mut d, &mut store, Got::Seen { sight: locked(), now: 6 });
    assert!(matches!(want, Want::Undo));
    let (want, reader) = reader.unwrap().step(&mut d, &mut store, Got::Done);
    assert!(matches!(want, Want::Rest) && reader.is_none());
    assert_eq!(store.mutation_counters().2, 0);
    assert_eq!(store.pending_crop_count(), 1);
}

#[test]
fn a_read_crop_stays_where_it_may_no_longer_be_removed() {
    let mut d = away();
    let mut store = with_crops(&[1]);
    let (_, reader) = Reader::begin(&d, &store).unwrap();
    let (_, reader) = reader.step(&mut d, &mut store, inspected(true));
    let (mut want, reader) = reader.unwrap().step(&mut d, &mut store, words());
    let mut reader = reader.unwrap();
    let mut sealed = false;
    loop {
        let got = match want {
            Want::Look if sealed => Got::Seen { sight: locked(), now: 6 },
            Want::Look | Want::Write { .. } => looked(),
            Want::Seal => {
                sealed = true;
                Got::Sealed
            }
            Want::Tell { event } => {
                assert_eq!(event.value["done"], 1);
                break;
            }
            _ => panic!("not told"),
        };
        let (w, r) = reader.step(&mut d, &mut store, got);
        want = w;
        reader = r.unwrap();
    }
    assert_eq!(store.pending_crop_count(), 1);
}

#[test]
fn a_reading_out_of_turn_rests() {
    let mut d = away();
    let mut store = with_crops(&[1]);
    let (_, reader) = Reader::begin(&d, &store).unwrap();
    let (want, reader) = reader.step(&mut d, &mut store, Got::Sealed);
    assert!(matches!(want, Want::Rest) && reader.is_none());
    let (_, reader) = Reader::begin(&d, &store).unwrap();
    let (want, reader) = reader.step(&mut d, &mut store, Got::Failed);
    assert!(matches!(want, Want::Undo));
    let (want, _) = reader.unwrap().step(&mut d, &mut store, Got::Done);
    assert!(matches!(want, Want::Rest));
}
