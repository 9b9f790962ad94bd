//! The archive: what it keeps, finds, prunes and forgets.
use rewindd::archive::Change;
use rewindd::query::WordBox;
use rewindd::rows::{Clip, FrameInsert, Layout, PauseEvent, SearchText};
use rewindd::search::{is_like, join_path, merge_hits, spans, Match, SearchReply};
use rewindd::query::Hit;
use rewindd::store::Store;
use rewindd::tx::{Asking, Step, Tx, Work};
use rewindd::wipe::{swept, wipe_bounds, Unlink};
use std::cell::Cell;

fn sample(ts: i64, bytes: i64, title: &str) -> FrameInsert {
    FrameInsert {
        ts,
        path: format!("frames/{ts}.png"),
        app: "kitty".into(),
        title: title.into(),
        workspace: "1".into(),
        output: "eDP-1".into(),
        width: 100,
        height: 80,
        out_w: 100,
        out_h: 80,
        crop_x: 0,
        crop_y: 0,
        crop_w: 100,
        crop_h: 80,
        bytes,
        dhash: ts,
        encoder: "png".into(),
        crop_path: None,
        crop_bytes: 0,
    }
}

fn open() -> Store {
    Store::new("/data", true, true)
}

fn no_index(store: &Store, q: &str, limit: usize) -> SearchReply {
    store.search(q, limit, 0, 0, &None, false).unwrap()
}

fn stamps(v: &serde_json::Value) -> Vec<i64> {
    v["frames"].as_array().unwrap().iter().map(|f| f["ts"].as_i64().unwrap()).collect()
}

fn hit(ts: i64) -> Hit {
    Hit { ts, path: String::new(), app: String::new(), title: String::new(), snippet: String::new(), boxes: Vec::new() }
}

#[test]
fn timeline_returns_newest_frames_not_oldest() {
    let mut store = open();
    for ts in 1..=10 {
        store.insert_frame(&sample(ts, 10, "t")).unwrap();
    }
    let v = store.timeline(0, 0, 3);
    assert_eq!(stamps(&v), vec![8, 9, 10], "newest 3, ascending");
}

#[test]
fn search_hit_outside_timeline_window_still_resolves_a_frame() {
    let mut store = open();
    store.insert_frame(&sample(1, 10, "t")).unwrap();
    store.insert_clip(1, "text/plain", "zzUNIQUEmarkerzz").unwrap();
    store.record_clip_search(1, "zzUNIQUEmarkerzz").unwrap();
    for ts in 2..=50 {
        store.insert_frame(&sample(ts, 10, "t")).unwrap();
    }
    let tl = store.timeline(0, 0, 5);
    assert!(!stamps(&tl).contains(&1), "early frame is out of the window");
    let found = Some(vec![Match { ts: 1, snippet: "zzUNIQUEmarkerzz".into() }]);
    let reply = store.search("zzUNIQUEmarkerzz", 10, 0, 0, &found, false).unwrap();
    let ts0 = reply.hits[0].ts;
    assert_eq!(ts0, 1);
    let m = store.moment(ts0);
    let told = store.tell_moment(&m, serde_json::Value::Null, serde_json::Value::Null);
    assert_eq!(told["frame"]["ts"].as_i64().unwrap(), 1);
    assert!(told["frame"]["path"].as_str().unwrap().contains("frames/"));
    assert_eq!(told["frame"]["path"], "/data/frames/1.png");
}

#[test]
fn delete_range_tombstones_then_unlinks_files() {
    let mut store = open();
    let mut f = sample(5, 10, "t");
    f.crop_path = Some("crops/5.png".into());
    f.crop_bytes = 3;
    store.insert_frame(&f).unwrap();
    let wiped = store.wipe("all", 0, 0, 1_000, None).unwrap();
    assert_eq!(wiped.frames, 1);
    let mut doomed = store.doomed().clone();
    doomed.sort();
    assert_eq!(doomed, vec!["crops/5.png".to_string(), "frames/5.png".to_string()]);
    let left = store.flush_unlinks(&vec![Unlink::Removed, Unlink::Removed]);
    assert_eq!(left, 0);
    let n = wiped.report("all", left);
    assert_eq!(n["wiped"].as_i64().unwrap(), 1);
    assert_eq!(n["ok"].as_bool().unwrap(), true);
    assert_eq!(n["residual"].as_i64().unwrap(), 0);
    assert_eq!(store.pending_unlink_count(), 0);
}

#[test]
fn orphan_frame_from_crash_before_commit_is_swept() {
    let mut store = open();
    let mut f = sample(100, 10, "kept");
    f.path = "frames/20260820/100.webp".into();
    store.insert_frame(&f).unwrap();
    let on_disk = vec![
        "frames/20260820/100.webp".to_string(),
        "frames/20260820/999.webp".to_string(),
        "frames/flat-orphan.webp".to_string(),
    ];
    let orphans = store.sweep_orphan_frames(&on_disk);
    assert_eq!(
        orphans,
        vec!["frames/20260820/999.webp".to_string(), "frames/flat-orphan.webp".to_string()]
    );
    let (removed, residual) = swept(&vec![Unlink::Removed, Unlink::Removed]);
    assert_eq!(removed, 2, "both orphan frame files removed");
    assert_eq!(residual, 0);

    let late = vec!["frames/20260820/100.webp".to_string(), "frames/20260820/888.webp".to_string()];
    let wiped = store.wipe("all", 0, 0, 1_000, None).unwrap();
    assert_eq!(store.sweep_orphan_frames(&late), late);
    let left = store.flush_unlinks(&vec![Unlink::Removed]);
    let w = wiped.report("all", left);
    assert_eq!(w["ok"].as_bool().unwrap(), true);
    assert_eq!(w["residual"].as_i64().unwrap(), 0);
}

#[test]
fn wipe_reports_residual_when_file_cannot_be_unlinked() {
    let mut store = open();
    let mut f = sample(5, 10, "t");
    f.path = "stuck".into();
    store.insert_frame(&f).unwrap();
    let wiped = store.wipe("all", 0, 0, 1_000, None).unwrap();
    let remaining = store.flush_unlinks(&vec![Unlink::Failed]);
    assert_eq!(remaining, 1, "un-unlinkable file remains tombstoned");
    assert_eq!(store.pending_unlink_count(), 1);
    assert_eq!(store.doomed(), &vec!["stuck".to_string()]);
    let told = wiped.report("all", remaining);
    assert_eq!(told["ok"], false);
    assert_eq!(told["residual"], 1);
    assert_eq!(store.flush_unlinks(&vec![Unlink::Missing]), 0);
}

#[test]
fn crop_bytes_count_in_managed_budget_and_prune() {
    let mut s = open();
    let mut f = sample(1000, 10, "a");
    f.crop_path = Some("crops/1000.png".into());
    f.crop_bytes = 5_000;
    s.insert_frame(&f).unwrap();
    assert_eq!(s.stats(0).bytes, 5_010);
    assert!(s.prune_to(100).unwrap() >= 1, "crop bytes must drive pruning");
    assert_eq!(s.stats(0).bytes, 0);
    let mut g = sample(2000, 20, "b");
    g.crop_path = Some("crops/2000.png".into());
    g.crop_bytes = 9_000;
    s.insert_frame(&g).unwrap();
    assert_eq!(s.stats(0).bytes, 9_020);
    s.clear_crop(2000, Unlink::Removed).unwrap();
    assert_eq!(s.stats(0).bytes, 20, "clearing a consumed crop drops its bytes from the budget");
}

#[test]
fn frame_geom_loads_crop_and_output() {
    let mut store = open();
    let mut f = sample(42, 10, "geom");
    f.crop_x = 400;
    f.crop_y = 108;
    f.crop_w = 800;
    f.crop_h = 600;
    f.out_w = 1920;
    f.out_h = 1080;
    f.width = 1280;
    f.height = 720;
    store.insert_frame(&f).unwrap();
    let g = store.frame_geom(42).unwrap();
    assert_eq!(g.crop_x, 400);
    assert_eq!(g.crop_w, 800);
    assert_eq!(g.out_w, 1920);
    assert_eq!(g.stored_w, 1280);
    assert!(store.frame_geom(41).is_none());
}

#[test]
fn capture_tx_rolls_back_when_still_fails_mid_commit() {
    let mut store = open();
    let f = sample(7, 10, "race");
    let n = Cell::new(0);
    let mut still = Asking::new(|| {
        n.set(n.get() + 1);
        n.get() < 2
    });
    let ok = store
        .commit_capture_tx(&f, "[]", "", 1_000_000, &mut still)
        .unwrap();
    assert!(!ok);
    assert_eq!(still.given(), &vec![true, false]);
    assert_eq!(store.mutation_counters().0, 0);
}

#[test]
fn ocr_tx_rolls_back_when_still_fails_mid_commit() {
    let mut store = open();
    store.insert_frame(&sample(7, 10, "ocr")).unwrap();
    let boxes = vec![WordBox {
        word: "hi".into(),
        x: 0.1f64.to_bits(),
        y: 0.1f64.to_bits(),
        w: 0.2f64.to_bits(),
        h: 0.1f64.to_bits(),
    }];
    let n = Cell::new(0);
    let mut still = Asking::new(|| {
        n.set(n.get() + 1);
        n.get() < 2
    });
    let ok = store
        .commit_ocr_tx(7, "hi", "kitty", "t", "", &boxes, &mut still)
        .unwrap();
    assert!(!ok);
    assert_eq!(still.given(), &vec![true, false]);
    assert_eq!(store.mutation_counters().2, 0);
    assert_eq!(store.pending_crop_count(), 0);
}

#[test]
fn clip_tx_rolls_back_when_still_fails_mid_commit() {
    let mut store = open();
    store.insert_frame(&sample(7, 10, "clip")).unwrap();
    let n = Cell::new(0);
    let mut still = Asking::new(|| {
        n.set(n.get() + 1);
        n.get() < 2
    });
    let ok = store
        .commit_clip_tx(7, "text/plain", "secret", 0, &mut still)
        .unwrap();
    assert!(!ok);
    assert_eq!(still.given(), &vec![true, false]);
    assert_eq!(store.mutation_counters().3, 0);
}

#[test]
fn prune_oldest_first_to_byte_cap() {
    let mut store = open();
    for i in 0..5 {
        store.insert_frame(&sample(1_000 + i, 100, "t")).unwrap();
    }
    let removed = store.prune_to(250).unwrap();
    assert!(removed >= 2);
    let snap = store.stats(0);
    assert!(snap.bytes <= 250);
    assert!(snap.frames <= 3);
    assert_eq!(store.frame_geom(1_000).is_none(), true);
    assert!(store.frame_geom(1_004).is_some());
}

#[test]
fn titles_and_clipboard_search_without_ocr() {
    let mut store = open();
    store.insert_frame(&sample(50, 10, "commit message zebra-token")).unwrap();
    store.insert_clip(50, "text/plain", "git-hash-ff00aa").unwrap();
    store.index_search_row(50, "", "kitty", "commit message zebra-token", "git-hash-ff00aa").unwrap();
    let a = no_index(&store, "zebra-token", 10);
    assert_eq!(a.hits.len(), 1);
    let b = no_index(&store, "git-hash-ff00aa", 10);
    assert_eq!(b.hits.len(), 1);
    let indexed = Some(vec![Match { ts: 50, snippet: "commit message zebra-token".into() }]);
    let c = store.search("zebra-token", 10, 0, 0, &indexed, false).unwrap();
    assert_eq!(c.hits.len(), 1);
}

#[test]
fn clipboard_event_search_joins_nearest_frame_without_ocr() {
    let mut store = open();
    store.insert_frame(&sample(100, 10, "editor")).unwrap();
    store.index_search_row(100, "", "kitty", "editor", "").unwrap();
    store.insert_clip(150, "text/plain", "orphan-clip-token-zz").unwrap();
    store.record_clip_search(150, "orphan-clip-token-zz").unwrap();
    let indexed = Some(vec![Match { ts: 100, snippet: "orphan-clip-token-zz".into() }]);
    for found in [None, indexed] {
        let reply = store.search("orphan-clip-token-zz", 10, 0, 0, &found, false).unwrap();
        let told = reply.tell(vec![serde_json::Value::Null; reply.hits.len()]);
        let arr = told["hits"].as_array().unwrap();
        assert_eq!(arr.len(), 1, "{told}");
        assert_eq!(arr[0]["ts"], 100);
        assert!(
            arr[0]["path"].as_str().unwrap_or("").contains("100"),
            "path should be the nearest frame: {}",
            arr[0]["path"]
        );
    }
}

#[test]
fn wipe_range_deletes_clips_layouts_by_range() {
    let mut store = open();
    store.insert_frame(&sample(100, 10, "a")).unwrap();
    store.insert_clip(150, "text/plain", "secret-clip").unwrap();
    store.insert_layout(150, "[]").unwrap();
    store.wipe("range", 100, 200, 1_000, None).unwrap();
    let clips = store.clips(10);
    assert_eq!(clips["clips"].as_array().unwrap().len(), 0);
    assert_eq!(store.stats(0).frames, 0);
    assert!(store.layout_at(1_000).is_none());
}

#[test]
fn prune_removes_clips_in_oldest_window() {
    let mut store = open();
    for ts in [100, 200, 300, 400, 500] {
        store.insert_frame(&sample(ts, 100, "t")).unwrap();
    }
    store.insert_clip(150, "text/plain", "old-secret").unwrap();
    store.prune_to(250).unwrap();
    let clips = store.clips(10);
    let arr = clips["clips"].as_array().unwrap();
    assert!(arr.iter().all(|c| c["content"] != "old-secret"), "{clips}");
}

#[test]
fn wipe_today_keeps_older() {
    let mut store = open();
    let now = 1_700_000_000_000i64;
    store.insert_frame(&sample(10, 10, "old")).unwrap();
    store.insert_frame(&sample(now, 10, "new")).unwrap();
    store.wipe("today", 0, 0, now, Some(1_699_920_000)).unwrap();
    let snap = store.stats(0);
    assert_eq!(snap.frames, 1);
    assert_eq!(snap.last_ts, 10);
}

#[test]
fn ocr_commit_keeps_crop_tracked_until_file_deleted() {
    let mut store = open();
    let mut f = sample(9, 10, "x");
    f.crop_path = Some("crops/9.png".into());
    f.crop_bytes = 9;
    store.insert_frame(&f).unwrap();
    let ok = store.commit_ocr_tx(9, "hello", "kitty", "x", "", &Vec::new(), &mut Asking::new(|| true)).unwrap();
    assert!(ok);
    assert_eq!(
        store.crop_path(9).as_deref(),
        Some("crops/9.png"),
        "OCR commit leaves the crop tracked (deleted separately)"
    );
    store.clear_crop(9, Unlink::Failed).unwrap();
    assert_eq!(store.crop_path(9).as_deref(), Some("crops/9.png"));
    store.clear_crop(9, Unlink::Removed).unwrap();
    assert!(store.crop_path(9).is_none(), "crop_path cleared only after the file is gone");
}

#[test]
fn sweep_orphan_crops_removes_unreferenced_files() {
    let mut store = open();
    let mut f = sample(1, 1, "ref");
    f.crop_path = Some("crops/ref.png".into());
    f.crop_bytes = 1;
    store.insert_frame(&f).unwrap();
    let found = vec!["crops/ref.png".to_string(), "crops/orphan.png".to_string()];
    let orphans = store.sweep_orphan_crops(&found);
    assert_eq!(orphans.len(), 1, "only the unreferenced crop is swept");
    assert_eq!(orphans[0], "crops/orphan.png");
}

#[test]
fn clipboard_growth_prunes_under_cap() {
    let mut store = open();
    let cap = 200i64;
    for ts in 1..=50 {
        store.commit_clip_tx(ts, "text/plain", &"x".repeat(20), cap, &mut Asking::new(|| true)).unwrap();
    }
    let total = store.managed_total();
    assert!(total <= cap as i128, "clipboard-only growth must prune under cap (got {total})");
    let n = store.mutation_counters().3;
    assert!(n > 0 && n < 50, "oldest clips pruned, newest kept (n={n})");
}

#[test]
fn frames_only_db_clips_query_is_empty_not_error() {
    let mut ro = Store::new("/data", false, false);
    let mut f = sample(1, 10, "t");
    f.path = "frames/1.webp".into();
    ro.apply(Change::PutFrame { frame: f });
    let v = ro.clips(10);
    assert_eq!(v["clips"].as_array().unwrap().len(), 0);
    assert_eq!(ro.clip_at(1), "");
    let m = ro.moment(1);
    assert_eq!(m.clip, "");
}

#[test]
fn writable_open_migrates_missing_clips_table() {
    let mut store = open();
    store.insert_clip(42, "text/plain", "hello").unwrap();
    let v = store.clips(10);
    assert_eq!(v["clips"].as_array().unwrap().len(), 1);
    assert_eq!(v["clips"][0]["content"], "hello");
    let ro = store.copy();
    let v = ro.clips(10);
    assert_eq!(v["clips"].as_array().unwrap().len(), 1);
}

#[test]
fn read_only_store_refuses_every_write() {
    let mut ro = Store::new("/data", false, true);
    assert!(!ro.is_writable());
    assert_eq!(ro.insert_frame(&sample(1, 1, "t")), Err("read-only store".to_string()));
    let refused = Err("attempt to write a readonly database".to_string());
    assert_eq!(ro.insert_clip(1, "text/plain", "x"), refused);
    assert_eq!(ro.insert_layout(1, "[]"), refused);
    assert_eq!(ro.record_event(1, "pause", "locked"), refused);
    assert_eq!(ro.index_search_row(1, "", "a", "b", "c"), refused);
    assert_eq!(ro.record_clip_search(1, "x"), refused);
    assert_eq!(ro.insert_ocr_boxes(1, &Vec::new()), refused);
    assert_eq!(ro.prune_to(0), Ok(0));
    let mut full = Store::new("/data", false, true);
    full.apply(Change::PutFrame { frame: sample(1, 10, "t") });
    assert_eq!(full.prune_to(5), Err("attempt to write a readonly database".to_string()));
    assert!(ro.delete_range(0, 5).is_err());
    assert!(ro.wipe("all", 0, 0, 5, None).is_err());
    assert!(ro.commit_clip_tx(1, "text/plain", "x", 0, &mut Asking::new(|| true)).is_err());
    assert!(ro.commit_capture_tx(&sample(1, 1, "t"), "[]", "", 0, &mut Asking::new(|| true)).is_err());
    assert_eq!(ro.mutation_counters(), (0, 0, 0, 0));
}

#[test]
fn unknown_scope_is_an_error() {
    let mut store = open();
    store.insert_frame(&sample(1, 1, "t")).unwrap();
    let e = store.wipe("week", 0, 0, 5, None);
    assert!(matches!(e, Err(ref m) if m == "unknown wipe scope: week"));
    assert_eq!(store.stats(0).frames, 1);
    assert_eq!(wipe_bounds("all", 3, 4, 5, None), Some((0, i64::MAX)));
    assert_eq!(wipe_bounds("range", 3, 0, 50, None), Some((3, 50)));
    assert_eq!(wipe_bounds("today", 0, 0, 86_400_005, None), Some((86_400_000, 86_400_005)));
}

#[test]
fn ocr_annotates_only_a_frame_that_is_there() {
    let mut store = open();
    assert_eq!(store.commit_ocr_tx(9, "hello", "kitty", "x", "", &Vec::new(), &mut Asking::new(|| true)), Ok(false));
    store.insert_frame(&sample(9, 10, "x")).unwrap();
    let boxes = vec![WordBox { word: "hello".into(), x: 1, y: 2, w: 3, h: 4 }];
    assert_eq!(store.commit_ocr_tx(9, "hello", "kitty", "x", "c", &boxes, &mut Asking::new(|| true)), Ok(true));
    let m = store.moment(9);
    assert_eq!(m.boxes.len(), 1);
    assert_eq!(m.boxes[0].word, "hello");
    assert_eq!((m.boxes[0].x, m.boxes[0].h), (1, 4));
    assert_eq!(store.commit_ocr_tx(9, "bye", "kitty", "x", "c", &Vec::new(), &mut Asking::new(|| true)), Ok(true));
    assert_eq!(store.moment(9).boxes.len(), 0);
    assert_eq!(store.labels_at(9), ("kitty".to_string(), "x".to_string()));
    assert_eq!(store.labels_at(8), (String::new(), String::new()));
}

#[test]
fn a_capture_is_kept_with_its_layout_and_stays_within_the_cap() {
    let mut store = open();
    for ts in 1..=6 {
        let ok = store.commit_capture_tx(&sample(ts, 100, "t"), "[1]", "copied", 330, &mut Asking::new(|| true)).unwrap();
        assert!(ok);
        assert!(store.managed_total() <= 330);
    }
    assert_eq!(store.layout_at(6).as_deref(), Some("[1]"));
    assert!(store.frame_geom(1).is_none());
    assert!(store.frame_geom(6).is_some());
    assert!(store.doomed().contains(&"frames/1.png".to_string()));
}

#[test]
fn a_transaction_is_asked_before_each_step() {
    let store = open();
    let f = sample(3, 10, "t");
    let work = rewindd::tx::capture_work(&f, "[]", "", 1_000);
    let steps = work.len();
    for stop in 0..=steps {
        let mut tx = Tx::begin(&store, rewindd::tx::capture_work(&f, "[]", "", 1_000));
        let mut written = 0;
        loop {
            match tx.step(written < stop) {
                Step::Write(_) => written += 1,
                Step::Commit => unreachable!(),
                Step::Abandon => break,
            }
        }
        assert_eq!(written, stop);
    }
    let mut tx = Tx::begin(&store, vec![Work::Look]);
    assert!(matches!(tx.step(true), Step::Write(c) if c.is_empty()));
    assert!(matches!(tx.step(true), Step::Commit));
    let mut kept = store.copy();
    kept.finish(tx);
    assert_eq!(kept.mutation_counters(), (0, 0, 0, 0));
}

#[test]
fn nearest_frame_is_the_last_one_before_else_the_first_after() {
    let mut store = open();
    assert_eq!(store.nearest_frame_ts(5), None);
    store.insert_frame(&sample(10, 1, "a")).unwrap();
    store.insert_frame(&sample(20, 1, "b")).unwrap();
    assert_eq!(store.nearest_frame_ts(5), Some(10));
    assert_eq!(store.nearest_frame_ts(10), Some(10));
    assert_eq!(store.nearest_frame_ts(19), Some(10));
    assert_eq!(store.nearest_frame_ts(25), Some(20));
}

#[test]
fn moment_of_an_absent_stamp_has_no_frame_but_the_latest_clip() {
    let mut store = open();
    store.insert_frame(&sample(10, 1, "a")).unwrap();
    store.insert_clip(12, "text/plain", "copied").unwrap();
    store.insert_layout(11, "[2]").unwrap();
    let m = store.moment(13);
    assert!(m.frame.is_none());
    assert_eq!(m.clip, "copied");
    assert_eq!(m.layout.as_deref(), Some("[2]"));
    let told = store.tell_moment(&m, serde_json::Value::from(1), serde_json::Value::from(2));
    assert_eq!(told["frame"], serde_json::Value::Null);
    assert_eq!(told["windows"], 1);
    assert_eq!(told["boxes"], 2);
    assert_eq!(told["clip"], "copied");
}

#[test]
fn timeline_tells_gaps() {
    let mut store = open();
    for ts in [1_000, 2_000, 20_000, 35_000] {
        store.insert_frame(&sample(ts, 10, "t")).unwrap();
    }
    let v = store.timeline(0, 0, 100);
    let gaps = v["gaps"].as_array().unwrap();
    assert_eq!(gaps.len(), 1);
    assert_eq!(gaps[0]["from"], 2_000);
    assert_eq!(gaps[0]["to"], 20_000);
    assert_eq!(gaps[0]["reason"], "gap");
    assert_eq!(stamps(&store.timeline(2_000, 20_000, 100)), vec![2_000, 20_000]);
    assert_eq!(stamps(&store.timeline(0, 0, 0)).len(), 1);
}

#[test]
fn clips_are_told_newest_first() {
    let mut store = open();
    store.insert_clip(1, "text/plain", "first").unwrap();
    store.insert_clip(2, "text/plain", "second").unwrap();
    let v = store.clips(1);
    assert_eq!(v["clips"].as_array().unwrap().len(), 1);
    assert_eq!(v["clips"][0]["content"], "second");
    assert_eq!(v["clips"][0]["ts"], 2);
}

#[test]
fn stats_count_frames_since_midnight() {
    let mut store = open();
    store.insert_frame(&sample(10, 7, "a")).unwrap();
    store.insert_frame(&sample(20, 5, "b")).unwrap();
    let s = store.stats(15);
    assert_eq!((s.frames, s.frames_today, s.bytes, s.first_ts, s.last_ts), (2, 1, 12, 10, 20));
    assert_eq!(store.oldest_ts(None), Some(10));
    assert_eq!(store.oldest_ts(Some(10)), Some(20));
}

#[test]
fn events_and_changes_are_counted() {
    let mut store = open();
    store.record_event(1, "pause", "locked").unwrap();
    store.apply(Change::AddEvent {
        ts: 2,
        event: PauseEvent { kind: "resume".into(), reason: String::new() },
    });
    store.apply(Change::PutClip {
        ts: 2,
        clip: Clip { mime: "text/plain".into(), content: "abc".into(), bytes: 3 },
    });
    store.apply(Change::PutLayout { ts: 2, layout: Layout { json: "[]".into() } });
    store.apply(Change::Index {
        ts: 2,
        row: SearchText { text: "wxyz".into(), app: String::new(), title: String::new(), clip: String::new() },
    });
    assert_eq!(store.mutation_counters(), (0, 2, 0, 1));
    assert_eq!(store.managed_total(), 3 + 2 + 4);
}

#[test]
fn pending_crops_are_those_of_kept_frames() {
    let mut store = open();
    let mut f = sample(1, 1, "t");
    f.crop_path = Some("crops/1.png".into());
    store.insert_frame(&f).unwrap();
    store.insert_frame(&sample(2, 1, "t")).unwrap();
    assert_eq!(store.pending_crops(), vec![(1, "crops/1.png".to_string())]);
    assert_eq!(store.pending_crop_count(), 1);
    store.delete_range(0, 10).unwrap();
    assert_eq!(store.pending_crop_count(), 0);
    assert_eq!(store.pending_unlink_count(), 3);
}

#[test]
fn hits_are_merged_newest_first_without_doubles() {
    let out = merge_hits(vec![hit(5), hit(3)], vec![hit(4), hit(5), hit(9)], 3);
    let ts: Vec<i64> = out.iter().map(|h| h.ts).collect();
    assert_eq!(ts, vec![9, 5, 4]);
}

#[test]
fn patterns_match_as_in_the_database() {
    let like = |p: &str, s: &str| is_like(&p.chars().collect(), &s.chars().collect());
    assert!(like("%ab%", "xxabyy"));
    assert!(like("a_c", "abc"));
    assert!(!like("a_c", "ac"));
    assert!(like("%", ""));
    assert!(!like("", "a"));
    assert!(spans(5, 0, 0) && spans(5, 5, 5) && !spans(5, 6, 0) && !spans(5, 1, 4));
    assert_eq!(join_path("/data", "a/b"), "/data/a/b");
    assert_eq!(join_path("/data", "/abs"), "/abs");
}

#[test]
fn an_empty_query_finds_nothing_and_a_huge_one_fails() {
    let mut store = open();
    store.insert_frame(&sample(1, 1, "t")).unwrap();
    let none = no_index(&store, "   ", 10);
    assert_eq!(none.hits.len(), 0);
    assert_eq!(none.query, "");
    let huge = "x".repeat(50_000);
    let e = store.search(&huge, 10, 0, 0, &None, true);
    assert!(matches!(e, Err(ref m) if m == "LIKE or GLOB pattern too complex"));
}

#[test]
fn a_search_is_told_with_the_words_of_each_hit() {
    let mut store = open();
    store.insert_frame(&sample(1, 1, "needle in a title")).unwrap();
    let r = store.search(" NEEDLE ", 10, 0, 0, &None, true).unwrap();
    let told = r.tell(vec![serde_json::Value::from("words")]);
    assert_eq!(told["ocrAvailable"], true);
    assert_eq!(told["query"], "NEEDLE");
    assert_eq!(told["hits"][0]["boxes"], "words");
    assert_eq!(told["hits"][0]["title"], "needle in a title");
}

#[test]
fn the_store_passes_its_own_trial() {
    let mut store = open();
    assert_eq!(store.self_test(), Ok(()));
    assert_eq!(store.mutation_counters(), (1, 0, 0, 1));
    let mut shut = Store::new("", false, true);
    assert_eq!(shut.self_test(), Err("read-only store".to_string()));
    assert_eq!(shut.mutation_counters(), (0, 0, 0, 0));
}

/// Answers yes a number of times, and then no.
fn yes_for(times: i64) -> Asking<impl Fn() -> bool> {
    let left = Cell::new(times);
    Asking::new(move || {
        left.set(left.get() - 1);
        left.get() >= 0
    })
}

#[test]
fn a_transaction_asks_before_each_write_and_before_its_end() {
    let boxes = vec![WordBox { word: "hi".into(), x: 0, y: 0, w: 0, h: 0 }, WordBox { word: "ho".into(), x: 0, y: 0, w: 0, h: 0 }];
    for n in 0..=6 {
        let mut store = open();
        let mut still = yes_for(n);
        let kept = store.commit_capture_tx(&sample(7, 10, "t"), "[]", "", 1_000, &mut still).unwrap();
        assert_eq!(kept, n >= 5);
        assert_eq!(still.given().len() as i64, 5.min(n + 1));
        assert_eq!(store.mutation_counters().0, i64::from(kept));

        let mut still = yes_for(n);
        let kept = store.commit_clip_tx(7, "text/plain", "x", 1_000, &mut still).unwrap();
        assert_eq!(kept, n >= 5);
        assert_eq!(still.given().len() as i64, 5.min(n + 1));
        assert_eq!(store.mutation_counters().3, i64::from(kept));

        let mut store = open();
        store.insert_frame(&sample(7, 10, "t")).unwrap();
        let mut still = yes_for(n);
        let kept = store.commit_ocr_tx(7, "hi ho", "kitty", "t", "", &boxes, &mut still).unwrap();
        assert_eq!(kept, n >= 5);
        assert_eq!(still.given().len() as i64, 5.min(n + 1));
        assert_eq!(store.mutation_counters().2, if kept { 2 } else { 0 });
    }
    let mut still = yes_for(9);
    assert_eq!(open().commit_ocr_tx(7, "hi ho", "kitty", "t", "", &boxes, &mut still), Ok(false));
    assert_eq!(still.given(), &vec![true]);
    let mut shut = Store::new("/data", false, true);
    let mut still = yes_for(9);
    let refused = Err("read-only store".to_string());
    assert_eq!(shut.commit_clip_tx(7, "text/plain", "x", 0, &mut still), refused);
    assert_eq!(shut.commit_capture_tx(&sample(7, 10, "t"), "[]", "", 0, &mut still), refused);
    assert_eq!(shut.commit_ocr_tx(7, "", "", "", "", &boxes, &mut still), refused);
    assert!(still.given().is_empty());
}

#[test]
fn the_cap_counts_bytes() {
    let mut store = open();
    store.insert_clip(1, "text/plain", "\u{e9}").unwrap();
    assert_eq!(store.stats(0).bytes, 2);
    store.insert_layout(2, "\u{1f600}").unwrap();
    assert_eq!(store.stats(0).bytes, 6);
    store.index_search_row(1, "\u{20ac}", "k", "\u{e9}t", "\u{e9}").unwrap();
    assert_eq!(store.stats(0).bytes, 6 + 3 + 1 + 3 + 2);
    store.insert_ocr_boxes(1, &vec![WordBox { word: "a\0\u{e9}".into(), x: 0, y: 0, w: 0, h: 0 }]).unwrap();
    assert_eq!(store.stats(0).bytes, 15 + 4);
    for ts in 10..=30 {
        store.commit_clip_tx(ts, "text/plain", &"\u{20ac}".repeat(20), 200, &mut Asking::new(|| true)).unwrap();
        assert!(store.stats(0).bytes <= 200);
    }
    assert_eq!(store.mutation_counters().3, 1);
}
