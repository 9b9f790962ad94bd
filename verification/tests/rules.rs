//! Pauses, exclusions, settings, pixels, pictures and the clipboard.
use rewindd::capture::{
    backend_name, base_cadence_ms, buffer_size, next_cadence_ms, next_grab, pick_output, reusable, CopyEvent, CopyStep,
    Copying, Grab, Shape,
};
use rewindd::clipboard::{cap_text, payload, ClipCache, Ingest, Stretch};
use rewindd::config::{
    first_reading, number_members, split_csv, Number, Numbers, Settings, DEFAULT_BYTE_CAP, DEFAULT_CADENCE_MS,
};
use rewindd::dhash::{compute, distance, unchanged};
use rewindd::encode::{crop_roi, downscale_720p, next_attempt, preferred, preferred_ext, preferred_name, Attempt, Encoder};
use rewindd::exclude::{client_visible, excluded_visible, matches_class, private_browsing, title_pause};
use rewindd::float;
use rewindd::hypr::{ActiveWindow, Client, Monitor};
use rewindd::pause::{evaluate, PauseInput, PauseReason};
use rewindd::perms::{default_data_dir, is_private, private_mode, DataPaths};
use rewindd::pixel::{decode_buffer, decode_pixel, local_day_bounds, local_day_start_ms, startup_recording, ShmFormat};
use rewindd::CLIP_CAP;
use serde_json::Value;

fn solid(w: u32, h: u32, r: u8, g: u8, b: u8) -> Vec<u8> {
    let mut v = Vec::with_capacity((w * h * 4) as usize);
    for _ in 0..(w * h) {
        v.extend_from_slice(&[r, g, b, 255]);
    }
    v
}

fn gradient(w: u32, h: u32) -> Vec<u8> {
    let mut v = Vec::with_capacity((w * h * 4) as usize);
    for y in 0..h {
        for x in 0..w {
            let t = (x * 255 / (w - 1)) as u8;
            v.extend_from_slice(&[t, t, (255 - t).saturating_add(y as u8 / 4), 255]);
        }
    }
    v
}

fn win(class: &str, title: &str, mapped: bool) -> Client {
    Client { class: class.into(), title: title.into(), mapped, hidden: false, ..Client::default() }
}

fn armed() -> PauseInput {
    PauseInput { armed: true, idle_limit_ms: 120_000, ..PauseInput::default() }
}

fn no_numbers() -> Numbers {
    Numbers { byte_cap: None, cadence_ms: None, idle_pause_sec: None }
}

fn object(text: &str) -> Value {
    serde_json::from_str(text).unwrap()
}

#[test]
fn backend_is_named() {
    for wayland in [false, true] {
        for grim in [false, true] {
            let name = backend_name(wayland, grim);
            assert!(name == "grim" || name == "missing" || name == "wlr-screencopy");
        }
    }
    assert_eq!(backend_name(true, true), "wlr-screencopy");
    assert_eq!(backend_name(false, true), "grim");
    assert_eq!(backend_name(false, false), "missing");
}

#[test]
fn cap_truncates_at_64k() {
    let s = "a".repeat(CLIP_CAP + 50);
    let out = cap_text(&s);
    assert_eq!(out.len(), CLIP_CAP);
}

#[test]
fn cap_keeps_multiline() {
    let s = "line1\nline2\nline3";
    assert_eq!(cap_text(s), s);
}

#[test]
fn cap_cuts_no_character_in_two() {
    let s = format!("{}é", "a".repeat(CLIP_CAP - 1));
    assert_eq!(cap_text(&s).len(), CLIP_CAP - 1);
    let s = format!("{}é", "a".repeat(CLIP_CAP - 2));
    assert_eq!(cap_text(&s), s);
}

#[test]
fn gb_schema_becomes_bytes() {
    let mut s = Settings::default();
    let n = Numbers { byte_cap: Some(2f64.to_bits()), ..no_numbers() };
    s.merge_json(&object(r#"{"byteCapGb": 2}"#), &n);
    assert_eq!(s.byte_cap, DEFAULT_BYTE_CAP);
}

#[test]
fn csv_excludes() {
    let mut s = Settings::default();
    s.merge_json(&object(r#"{"excludeApps": "foo, bar"}"#), &no_numbers());
    assert_eq!(s.exclude_apps, vec!["foo", "bar"]);
    assert_eq!(split_csv(" a ,, b,"), vec!["a", "b"]);
}

#[test]
fn settings_keep_their_floors_and_never_arm() {
    let mut s = Settings::default();
    assert!(!s.armed && s.consent_at == 0 && s.cadence_ms == DEFAULT_CADENCE_MS);
    let n = Numbers {
        byte_cap: Some(3_000_000f64.to_bits()),
        cadence_ms: Some(10f64.to_bits()),
        idle_pause_sec: Some((-4f64).to_bits()),
    };
    let v = object(r#"{"armed": true, "consentAt": 5, "armOnLogin": true, "skipUnchanged": false, "excludeApps": []}"#);
    s.merge_json(&v, &n);
    assert_eq!((s.byte_cap, s.cadence_ms, s.idle_pause_sec), (3_000_000, 1000, 30));
    assert!(!s.armed && s.consent_at == 0 && s.arm_on_login && !s.skip_unchanged);
    assert!(!s.exclude_apps.is_empty());
    s.byte_cap = 0;
    s.exclude_apps.clear();
    s.repair();
    assert_eq!(s.byte_cap, DEFAULT_BYTE_CAP);
    assert!(!s.exclude_apps.is_empty());
}

#[test]
fn doubles_convert_as_the_machine_converts_them() {
    for x in [0.0, 0.5, 1.5, -1.5, 2.0, 127.999, 128.0, 1e9, 1e19, -1e19, 9.2e18, f64::NAN, f64::INFINITY, -0.0] {
        let x: f64 = x;
        assert_eq!(float::to_i64(x.to_bits(), 0), x as i64, "{x}");
        assert_eq!(float::to_i64(x.to_bits(), 30), (x * 1073741824.0) as i64, "{x}");
        assert_eq!(float::to_u64_at_least(x.to_bits(), 1000), (x as u64).max(1000), "{x}");
        assert_eq!(float::is_above_zero_below(x.to_bits(), 128), x > 0.0 && x < 128.0, "{x}");
    }
}

#[test]
fn edges_scale_as_the_machine_scales_them() {
    for (w, h) in [(1920u32, 1080u32), (2560, 1440), (3840, 2160), (1281, 7), (3440, 1440), (1366, 768), (5120, 2880)] {
        let long = w.max(h);
        let scale = 1280f32 / long as f32;
        for edge in [w, h] {
            let want = ((edge as f32 * scale).round() as u32).max(1);
            assert_eq!(float::scale_edge(edge, long), want, "{edge} of {long}");
        }
    }
}

#[test]
fn identical_frames_match() {
    let a = gradient(64, 48);
    assert_eq!(compute(&a, 64, 48), compute(&a, 64, 48));
}

#[test]
fn different_frames_diverge() {
    let a = gradient(64, 48);
    let b = solid(64, 48, 10, 10, 10);
    assert!(distance(compute(&a, 64, 48), compute(&b, 64, 48)) > 8);
}

#[test]
fn near_duplicates_count_as_unchanged() {
    let a = gradient(32, 32);
    let mut b = a.clone();
    b[0] = b[0].saturating_add(3);
    assert!(unchanged(compute(&a, 32, 32), compute(&b, 32, 32), 4));
}

#[test]
fn fingerprints_of_plain_pictures() {
    assert_eq!(compute(&solid(8, 8, 0, 0, 0), 8, 8), 0);
    assert_eq!(compute(&solid(8, 8, 255, 255, 255), 8, 8), 255 << 56);
    assert_eq!(compute(&solid(8, 8, 100, 0, 0), 8, 8), 30 << 56);
    assert_eq!(compute(&[], 8, 8), 0);
    assert_eq!(compute(&[], 0, 8), 0);
    assert_eq!(distance(0b1011, 0b0001), 2);
    assert!(!unchanged(0, 0, 64));
}

#[test]
fn downscale_caps_long_edge() {
    let px = vec![20u8; 1920 * 1080 * 4];
    let s = downscale_720p(&px, 1920, 1080);
    assert!(s.width <= 1280);
    assert!(s.height <= 1280);
    assert_eq!(s.width, 1280);
    assert_eq!(s.height, 720);
    assert_eq!(s.bytes.len(), 1280 * 720 * 4);
    assert!(s.bytes.iter().all(|b| *b == 20));
}

#[test]
fn small_frames_stay() {
    let px = vec![20u8; 800 * 600 * 4];
    let s = downscale_720p(&px, 800, 600);
    assert_eq!((s.width, s.height), (800, 600));
    assert_eq!(s.bytes, px);
}

#[test]
fn roi_crop_clamps() {
    let px = vec![9u8; 100 * 80 * 4];
    let active = ActiveWindow { at: (90, 70), size: (40, 40), ..ActiveWindow::default() };
    let mon = Monitor { x: 0, y: 0, ..Monitor::default() };
    let crop = crop_roi(&px, 100, 80, &active, &mon).unwrap();
    assert_eq!(crop.width, 10);
    assert_eq!(crop.height, 10);
}

#[test]
fn crop_holds_the_pixels_of_its_region() {
    let mut px = vec![0u8; 4 * 3 * 4];
    for (i, b) in px.iter_mut().enumerate() {
        *b = i as u8;
    }
    let active = ActiveWindow { at: (11, 21), size: (2, 1), ..ActiveWindow::default() };
    let mon = Monitor { x: 10, y: 20, ..Monitor::default() };
    let crop = crop_roi(&px, 4, 3, &active, &mon).unwrap();
    assert_eq!((crop.width, crop.height), (2, 1));
    assert_eq!(crop.bytes, vec![20, 21, 22, 23, 24, 25, 26, 27]);
    let empty = ActiveWindow { at: (10, 20), size: (0, 3), ..ActiveWindow::default() };
    assert!(crop_roi(&[0u8; 48], 4, 3, &empty, &mon).is_none());
}

#[test]
fn the_better_encoder_goes_first() {
    assert_eq!(preferred(true), Encoder::Cwebp);
    assert_eq!((preferred_name(true), preferred_ext(true)), ("cwebp", "webp"));
    assert_eq!((preferred_name(false), preferred_ext(false)), ("png", "png"));
    assert_eq!(next_attempt(true, None), Attempt::Try(Encoder::Cwebp));
    assert_eq!(next_attempt(true, Some(true)), Attempt::Done(Encoder::Cwebp));
    assert_eq!(next_attempt(true, Some(false)), Attempt::Try(Encoder::Png));
    assert_eq!(next_attempt(false, None), Attempt::Try(Encoder::Png));
}

#[test]
fn visible_anywhere_not_just_focused() {
    let clients = vec![win("kitty", "demo", true), win("keepassxc", "db", true)];
    assert_eq!(excluded_visible(&clients, &vec!["keepassxc".into()]).as_deref(), Some("keepassxc"));
}

#[test]
fn hidden_excluded_does_not_pause() {
    let mut c = win("keepassxc", "db", true);
    c.hidden = true;
    assert!(!client_visible(&c));
    assert!(excluded_visible(&vec![c], &vec!["keepassxc".into()]).is_none());
}

#[test]
fn exclusions_stand_in_classes_and_classes_in_exclusions() {
    assert!(matches_class("org.KeePassXC.KeePassXC", &vec!["keepassxc".into()]));
    assert!(matches_class("xc", &vec!["keepassxc".into()]));
    assert!(!matches_class("kitty", &vec!["keepassxc".into(), String::new()]));
}

#[test]
fn firefox_private_is_heuristic() {
    let c = win("firefox", "Bank — Mozilla Firefox (Private Browsing)", true);
    let hit = private_browsing(&vec![c]).unwrap();
    assert!(hit.heuristic);
    assert_eq!(hit.marker, "(Private Browsing)");
}

#[test]
fn user_title_pattern() {
    let c = win("slack", "ACME standup", true);
    assert_eq!(title_pause(&vec![c], &vec!["standup".into()]).as_deref(), Some("standup"));
}

#[test]
fn disarmed_wins() {
    let mut i = armed();
    i.armed = false;
    i.locked = true;
    assert_eq!(evaluate(&i), Some(PauseReason::Disarmed));
}

#[test]
fn lock_idle_overlay_portal_exclusion() {
    let cases = [
        (PauseInput { locked: true, ..armed() }, PauseReason::Locked),
        (PauseInput { overlay_open: true, ..armed() }, PauseReason::Overlay),
        (PauseInput { portal_active: true, ..armed() }, PauseReason::Portal),
        (PauseInput { excluded: Some("keepassxc".into()), ..armed() }, PauseReason::Excluded),
        (PauseInput { idle_ms: 180_000, ..armed() }, PauseReason::Idle),
    ];
    for (input, want) in cases {
        assert_eq!(evaluate(&input), Some(want));
    }
}

#[test]
fn idle_under_limit_records() {
    let i = PauseInput { idle_ms: 30_000, ..armed() };
    assert_eq!(evaluate(&i), None);
}

#[test]
fn reasons_are_named() {
    let names: Vec<&str> = [
        PauseReason::Disarmed,
        PauseReason::Locked,
        PauseReason::Idle,
        PauseReason::Overlay,
        PauseReason::Excluded,
        PauseReason::Portal,
        PauseReason::PrivateBrowsing,
        PauseReason::TitlePattern,
    ]
    .iter()
    .map(|r| r.as_str())
    .collect();
    assert_eq!(
        names,
        vec!["disarmed", "locked", "idle", "overlay", "excluded", "portal", "private-browsing", "title-pattern"]
    );
}

#[test]
fn xrgb_forces_opaque() {
    let px = decode_pixel(ShmFormat::Xrgb8888, [0x11, 0x22, 0x33, 0x00]);
    assert_eq!(px, [0x33, 0x22, 0x11, 255]);
}

#[test]
fn argb_keeps_alpha() {
    let px = decode_pixel(ShmFormat::Argb8888, [0x11, 0x22, 0x33, 0x80]);
    assert_eq!(px, [0x33, 0x22, 0x11, 0x80]);
}

#[test]
fn buffers_are_read_by_their_stride() {
    let src = [1u8, 2, 3, 4, 0, 0, 0, 0, 5, 6, 7, 8];
    assert_eq!(decode_buffer(ShmFormat::Abgr8888, &src, 1, 2, 8), vec![1, 2, 3, 4, 5, 6, 7, 8]);
    assert_eq!(decode_buffer(ShmFormat::Xbgr8888, &src[..6], 1, 2, 8), vec![1, 2, 3, 255, 0, 0, 0, 0]);
    assert_eq!(ShmFormat::from_wayland_raw(0), ShmFormat::Argb8888);
    assert_eq!(ShmFormat::from_wayland_raw(7), ShmFormat::Unknown(7));
}

#[test]
fn startup_ignores_persisted_armed() {
    assert!(!startup_recording(1, false, true));
    assert!(!startup_recording(0, true, true));
    assert!(startup_recording(1, true, false));
}

#[test]
fn local_day_is_not_future() {
    let now = 1_700_000_000_000i64;
    for midnight in [None, Some(1_699_920_000)] {
        let (lo, hi) = local_day_bounds(now, midnight);
        assert!(lo <= now);
        assert_eq!(hi, now);
        assert!(now - lo < 86_400_000);
    }
    assert_eq!(local_day_start_ms(0, Some(5)), 0);
    assert_eq!(local_day_start_ms(now, Some(-1)), 1_699_920_000_000);
}

#[test]
fn clip_cache_stays_in_its_stretch() {
    let here = Stretch { gen: 1, epoch: 1 };
    let there = Stretch { gen: 1, epoch: 2 };
    let mut c = ClipCache::new();
    assert!(matches!(c.ingest("", true, here), Ingest::Ignore));
    assert!(matches!(c.ingest("secret", true, here), Ingest::Keep(s) if s == "secret"));
    assert_eq!(c.latest_cached(here), None);
    c.publish("secret".into(), here);
    assert_eq!(c.latest_cached(here).as_deref(), Some("secret"));
    assert_eq!(c.latest_cached(there), None);
    assert!(matches!(c.ingest("secret", true, here), Ingest::Ignore));
    assert!(matches!(c.ingest("secret", true, there), Ingest::Keep(_)));
    assert!(matches!(c.ingest("other", false, here), Ingest::Drop));
    assert_eq!(c.latest_cached(here), None);
}

#[test]
fn payloads_end_with_a_nul() {
    assert_eq!(payload(vec![97, 10, 98, 0]), Some(vec![97, 10, 98]));
    assert_eq!(payload(vec![97]), Some(vec![97]));
    assert_eq!(payload(vec![0]), None);
    assert_eq!(payload(Vec::new()), None);
}

#[test]
fn another_output_is_never_taken() {
    let names = vec!["DP-1".to_string(), "eDP-1".to_string()];
    assert_eq!(pick_output(&names, "eDP-1"), Some(1));
    assert_eq!(pick_output(&names, "HDMI-A-1"), None);
    assert_eq!(pick_output(&names, ""), None);
    assert_eq!(next_grab("", true, false, true), Grab::NoOutput);
    assert_eq!(next_grab("DP-1", true, false, true), Grab::Screencopy);
    assert_eq!(next_grab("DP-1", true, true, true), Grab::Grim);
    assert_eq!(next_grab("DP-1", false, false, false), Grab::Unavailable);
}

#[test]
fn the_pace_slows_for_unchanged_pictures() {
    assert_eq!(base_cadence_ms(3000, false), 3000);
    assert_eq!(base_cadence_ms(3000, true), 5000);
    assert_eq!(base_cadence_ms(1, false), 1000);
    assert_eq!(next_cadence_ms(3000, false), 3000);
    assert_eq!(next_cadence_ms(3000, true), 10_000);
}

#[test]
fn a_picture_is_copied_and_read() {
    let mut c = Copying::begin();
    assert_eq!(c.step(), CopyStep::Wait);
    c.note(CopyEvent::Buffer { format: ShmFormat::Argb8888, width: 1, height: 1, stride: 4 });
    assert_eq!(c.step(), CopyStep::Copy);
    assert_eq!(c.step(), CopyStep::Wait);
    c.note(CopyEvent::Other);
    c.note(CopyEvent::Ready);
    assert_eq!(c.step(), CopyStep::Read);
    let frame = c.read(&[1, 2, 3, 4]).unwrap();
    assert_eq!((frame.width, frame.height), (1, 1));
    assert_eq!(frame.rgba, vec![3, 2, 1, 4]);
    c.note(CopyEvent::Failed);
    assert_eq!(c.step(), CopyStep::CopyFailed);
    let mut d = Copying::begin();
    d.note(CopyEvent::Failed);
    assert_eq!(d.step(), CopyStep::FrameFailed);
    let shape = Shape { width: 2, height: 3, stride: 8, format: ShmFormat::Argb8888 };
    assert_eq!(buffer_size(shape), Some(24));
    assert_eq!(buffer_size(Shape { stride: -1, ..shape }), None);
    assert!(reusable(Some(shape), shape));
    assert!(!reusable(Some(Shape { height: 4, ..shape }), shape) && !reusable(None, shape));
}

#[test]
fn data_lies_below_the_users_data() {
    let given = |s: &str| Some(s.to_string());
    assert_eq!(default_data_dir(&given("/x"), &given("/d"), &given("/h")), "/x");
    assert_eq!(default_data_dir(&None, &given("/d"), &given("/h")), "/d/rewind");
    assert_eq!(default_data_dir(&given(""), &given(""), &given("/h")), "/h/.local/share/rewind");
    assert_eq!(default_data_dir(&None, &None, &None), "/tmp/.local/share/rewind");
    let p = DataPaths::bare("/d/rewind");
    assert_eq!(
        (p.db.as_str(), p.state.as_str(), p.frames.as_str(), p.crops.as_str()),
        ("/d/rewind/rewind.db", "/d/rewind/state.json", "/d/rewind/frames", "/d/rewind/crops")
    );
    assert_eq!((private_mode(true), private_mode(false)), (0o700, 0o600));
    assert!(is_private(0o100600, false) && is_private(0o40700, true) && !is_private(0o100644, false));
}

#[test]
fn parts_can_be_joined_again() {
    let parts = split_csv(" a b ,, \t,c,\u{a0}d ");
    assert_eq!(parts, vec!["a b", "c", "d"]);
    assert_eq!(split_csv(&parts.join(",")), parts);
    assert!(split_csv(" , ").is_empty());
}

#[test]
fn numbers_come_from_their_keys_in_order() {
    let v = object(r#"{"byte_cap": 3, "byteCapGb": "2", "byteCap": null, "cadence_ms": 4000, "byte_cap_gb": 9}"#);
    let cap = number_members(&v, Number::ByteCap);
    assert_eq!(cap, vec![Value::Null, Value::from("2"), Value::from(3)]);
    assert_eq!(number_members(&v, Number::Cadence), vec![Value::from(4000)]);
    assert!(number_members(&v, Number::IdlePause).is_empty());
    assert!(number_members(&Value::from(7), Number::ByteCap).is_empty());
    assert_eq!(first_reading(&vec![None, Some(5), Some(6)]), Some(5));
    assert_eq!(first_reading(&vec![None]), None);
}

#[test]
fn asking_twice_is_asking_once() {
    let v = object(r#"{"excludeApps": [], "titlePause": "x, y", "armOnLogin": true, "cadenceMs": 10}"#);
    let n = Numbers { byte_cap: None, cadence_ms: Some(10.0f64.to_bits()), idle_pause_sec: None };
    let mut s = Settings::default();
    s.merge_json(&v, &n);
    assert_eq!((s.cadence_ms, s.arm_on_login, s.armed, s.consent_at), (1000, true, false, 0));
    assert_eq!(s.exclude_apps, Settings::default().exclude_apps);
    let once = format!("{s:?}");
    s.merge_json(&v, &n);
    assert_eq!(format!("{s:?}"), once);
    let mut t = Settings::default();
    t.merge_json(&object("{}"), &no_numbers());
    assert_eq!(format!("{t:?}"), format!("{:?}", Settings::default()));
}
