//! Commands, events, the compositor's answers, plans, queries and the command
//! line.
use rewindd::cli::{cli_wipe, parse_args, Cli};
use rewindd::hypr::{
    focused_monitor, hash_bytes, idle_ms, locked, note_cursor, parse_active, parse_clients, parse_monitors,
    parse_portal_dump, portal_screencast_active, session_idle_ms, Client, Dump,
};
use rewindd::ipc::{Command, Event};
use rewindd::ocr::parse_tsv;
use rewindd::plan::{application_dirs, build, build_one, execute_plan, is_browser, parse_desktop, Desktop, DesktopMap};
use rewindd::query::{snippet_around, to_fts, usage_span};
use rewindd::rows::FrameInsert;
use serde_json::Value;

fn app(id: &str, name: &str) -> Desktop {
    Desktop { id: id.into(), name: name.into(), command: id.into(), wm_class: id.into() }
}

fn strings(v: &[&str]) -> Vec<String> {
    v.iter().map(|s| s.to_string()).collect()
}

#[test]
fn parse_keepass_on_second_output() {
    let raw = r#"[{"address":"0x1","class":"kitty","title":"a","workspace":{"id":1},"at":[0,0],"size":[100,100],"mapped":true,"hidden":false,"monitor":0},{"address":"0x2","class":"keepassxc","title":"db","workspace":{"id":2},"at":[1920,0],"size":[400,400],"mapped":true,"hidden":false,"monitor":1}]"#;
    let clients = parse_clients(raw).unwrap();
    assert_eq!(clients.len(), 2);
    assert_eq!(clients[1].class, "keepassxc");
    assert_eq!(clients[1].monitor, 1);
    assert!(clients[1].mapped);
    assert_eq!(clients[1].at, (1920, 0));
    assert_eq!(clients[1].workspace, "2");
}

#[test]
fn answers_that_are_no_json_are_errors() {
    assert!(parse_clients("not json").is_err());
    assert!(parse_active("").is_err());
    assert!(parse_monitors("{").is_err());
    assert_eq!(parse_clients("{}").unwrap().len(), 0);
}

#[test]
fn the_focused_monitor_and_window_are_read() {
    let monitors = parse_monitors(
        r#"[{"name":"DP-1","x":0,"y":0,"focused":false},{"name":"eDP-1","x":1920,"y":5,"focused":true}]"#,
    )
    .unwrap();
    let m = focused_monitor(&monitors);
    assert_eq!((m.name.as_str(), m.x, m.y), ("eDP-1", 1920, 5));
    assert_eq!(focused_monitor(&Vec::new()).name, "");
    let a = parse_active(r#"{"class":"kitty","title":"zsh","workspace":{"id":3},"at":[1,2],"size":[3,4]}"#).unwrap();
    assert_eq!((a.class.as_str(), a.title.as_str(), a.at, a.size), ("kitty", "zsh", (1, 2), (3, 4)));
}

#[test]
fn portal_dump_detects_screencast() {
    let dump = r#"[{"type":"PipeWire:Interface:Node","info":{"props":{"node.name":"xdg-desktop-portal-screencast","media.class":"Stream/Input/Video"}}}]"#;
    assert!(parse_portal_dump(dump));
    assert!(!parse_portal_dump(r#"[{"node.name":"firefox"}]"#));
}

#[test]
fn portal_dump_detects_output_video_screencast() {
    assert!(parse_portal_dump(r#"[{"node.name":"gpu-screen-recorder","media.class":"Stream/Output/Video"}]"#));
    assert!(parse_portal_dump(r#"[{"application.name":"OBS","media.class":"Stream/Input/Video"}]"#));
}

#[test]
fn portal_dump_ignores_plain_video_playback() {
    assert!(!parse_portal_dump(r#"[{"node.name":"mpv","media.class":"Stream/Output/Video"}]"#));
    assert!(portal_screencast_active(&Dump::Failed));
    assert!(!portal_screencast_active(&Dump::Absent));
    assert!(!portal_screencast_active(&Dump::Text("[]".into())));
}

#[test]
fn lock_and_idle_are_told_by_the_session() {
    assert!(locked(true, &None));
    assert!(locked(false, &Some(" yes\n".into())));
    assert!(!locked(false, &Some("no".into())) && !locked(false, &None));
    assert_eq!(session_idle_ms("0\n", 5_000_000), Some(0));
    assert_eq!(session_idle_ms("2000000", 5_000_000), Some(3_000));
    assert_eq!(session_idle_ms("6000000", 5_000_000), Some(0));
    assert_eq!(session_idle_ms("soon", 5_000_000), None);
    assert_eq!(idle_ms(Some(7), 0, 0), 7);
    assert_eq!(idle_ms(None, 100, 350), 250);
    assert_eq!(idle_ms(None, 0, 350), 0);
    assert_eq!(note_cursor(1, 2, 10, 20), 20);
    assert_eq!(note_cursor(2, 2, 10, 20), 10);
    assert_ne!(hash_bytes(b"1, 2"), hash_bytes(b"1, 3"));
}

#[test]
fn parses_arm_and_query() {
    let a = Command::parse(r#"{"cmd":"arm","id":2,"byteCapGb":2}"#).unwrap();
    match a {
        Command::Arm { id, settings } => {
            assert_eq!(id, 2);
            assert_eq!(settings["byteCapGb"], 2);
        }
        _ => panic!("not arm"),
    }
    let q = Command::parse(r#"{"cmd":"query","id":3,"q":"hello"}"#).unwrap();
    match q {
        Command::Query { q, .. } => assert_eq!(q, "hello"),
        _ => panic!("not query"),
    }
}

#[test]
fn every_command_is_parsed() {
    let ok = |s: &str| Command::parse(s).unwrap();
    assert!(matches!(ok(r#"{"cmd":"hello","id":1}"#), Command::Hello { id: 1 }));
    assert!(matches!(ok(r#"{"type":"disarm"}"#), Command::Disarm { id: 0 }));
    assert!(matches!(
        ok(r#"{"cmd":"consent","armNow":true}"#),
        Command::Consent { arm_now: true, arm_on_login: false, .. }
    ));
    assert!(matches!(
        ok(r#"{"cmd":"setPause","reason":"overlay"}"#),
        Command::SetPause { paused: true, reason, .. } if reason == "overlay"
    ));
    assert!(matches!(ok(r#"{"cmd":"configure"}"#), Command::Configure { .. }));
    assert!(matches!(ok(r#"{"cmd":"timeline","from":3}"#), Command::Timeline { from: 3, to: 0, limit: 400, .. }));
    assert!(matches!(ok(r#"{"cmd":"moment","ts":-3}"#), Command::Moment { ts: -3, .. }));
    assert!(matches!(ok(r#"{"cmd":"clips","limit":-3}"#), Command::Clips { limit: 100, .. }));
    assert!(matches!(ok(r#"{"cmd":"reopen-plan","ts":3}"#), Command::ReopenPlan { ts: 3, .. }));
    assert!(matches!(
        ok(r#"{"cmd":"reopenWindow"}"#),
        Command::ReopenWindow { target, .. } if target == Value::Object(serde_json::Map::new())
    ));
    assert!(matches!(ok(r#"{"cmd":"reopen-exec","plan":3}"#), Command::ReopenExec { plan, .. } if plan == 3));
    assert!(matches!(ok(r#"{"cmd":"wipe"}"#), Command::Wipe { scope, .. } if scope == "today"));
    assert!(matches!(ok(r#"{"cmd":"copyClip","ts":1}"#), Command::CopyClip { ts: 1, .. }));
    assert!(matches!(ok(r#"{"cmd":"status","id":9}"#), Command::Stats { id: 9 }));
    assert!(matches!(ok(r#"{"cmd":"shutdown"}"#), Command::Shutdown { .. }));
}

#[test]
fn bad_commands_are_errors() {
    assert!(matches!(Command::parse(r#"{"id":1}"#), Err(ref m) if m == "missing cmd"));
    assert!(matches!(Command::parse(r#"{"cmd":"dance"}"#), Err(ref m) if m == "unknown cmd: dance"));
    assert!(Command::parse("nonsense").is_err());
}

#[test]
fn events_are_one_line_each() {
    let e = Event::error(None, "line\nbreak".into());
    let line = e.to_json();
    assert!(!line.contains('\n'));
    let back: Value = serde_json::from_str(&line).unwrap();
    assert_eq!(back["error"], "line\nbreak");
    assert_eq!(back["id"], Value::Null);
    assert_eq!(back["ok"], false);
    assert_eq!(Event::reply(4, Value::from("x")).value["data"], "x");
    assert_eq!(Event::ready(true, false, "png").value["consentShown"], false);
    assert_eq!(Event::ocr_progress(1, 2).value["queued"], 2);
    let stats = Event::from_stats(serde_json::from_str(r#"{"armed":true}"#).unwrap());
    assert_eq!((&stats.value["event"], &stats.value["armed"]), (&Value::from("stats"), &Value::from(true)));
    assert_eq!(Event::from_stats(Value::from(3)).value, 3);
    let f = FrameInsert {
        ts: 5,
        path: "p".into(),
        app: "a".into(),
        title: "t".into(),
        workspace: "1".into(),
        output: "o".into(),
        width: 1,
        height: 1,
        out_w: 1,
        out_h: 1,
        crop_x: 0,
        crop_y: 0,
        crop_w: 0,
        crop_h: 0,
        bytes: 9,
        dhash: 0,
        encoder: "png".into(),
        crop_path: None,
        crop_bytes: 0,
    };
    let told = Event::frame_written(&f).value;
    assert_eq!((&told["event"], &told["ts"], &told["bytes"]), (&Value::from("frame-written"), &Value::from(5), &Value::from(9)));
}

#[test]
fn parses_tesseract_tsv_level5() {
    let tsv = "level\tpage_num\tblock_num\tpar_num\tline_num\tword_num\tleft\ttop\twidth\theight\tconf\ttext\n\
5\t1\t1\t1\t1\t1\t10\t20\t30\t12\t96\thello\n\
5\t1\t1\t1\t1\t2\t44\t20\t40\t12\t95\tworld\n";
    let (text, boxes) = parse_tsv(tsv);
    assert_eq!(text, "hello world");
    assert_eq!(boxes.len(), 2);
    assert_eq!(boxes[0].word, "hello");
    assert_eq!(boxes[0].left.parse::<f64>().unwrap(), 10.0);
}

#[test]
fn lines_that_are_no_words_are_passed_over() {
    let tsv = "header\n4\t1\t1\t1\t1\t1\t10\t20\t30\t12\t96\tline\n5\t1\t1\n5\t1\t1\t1\t1\t1\t1\t2\t3\t4\t96\t  \n";
    let (text, boxes) = parse_tsv(tsv);
    assert_eq!((text.as_str(), boxes.len()), ("", 0));
}

#[test]
fn launches_missing_and_lists_browser_tabs() {
    let stored = vec![
        Client { class: "kitty".into(), workspace: "1".into(), mapped: true, ..Client::default() },
        Client {
            class: "firefox".into(),
            title: "Inbox".into(),
            workspace: "2".into(),
            mapped: true,
            ..Client::default()
        },
    ];
    let mut map = DesktopMap::new();
    map.insert("kitty".into(), app("kitty", "Kitty"));
    map.insert("firefox".into(), app("firefox", "Firefox"));
    let plan = build(&stored, &Vec::new(), &map);
    let steps = plan["steps"].as_array().unwrap();
    assert_eq!(steps.len(), 2);
    let unre = plan["unrecoverable"].as_array().unwrap();
    assert!(unre.iter().any(|u| u["reason"].as_str().unwrap().contains("tabs")));
    assert_eq!(steps[1]["cmd"], "firefox");
    assert_eq!(steps[1]["workspace"], 2);
    assert_eq!(steps[1]["label"], "Launch Firefox");
}

#[test]
fn open_windows_are_moved_and_placed() {
    let was = Client {
        address: "0x1".into(),
        class: "kitty".into(),
        title: "zsh — unsaved".into(),
        workspace: "3".into(),
        at: (5, 6),
        size: (7, 8),
        floating: true,
        ..Client::default()
    };
    let now = Client { address: "0x9".into(), workspace: "1".into(), ..was.clone() };
    let plan = build_one(&was, &vec![now.clone()], &DesktopMap::new());
    let steps = plan["steps"].as_array().unwrap();
    assert_eq!(steps.len(), 2);
    assert_eq!((&steps[0]["kind"], &steps[0]["address"]), (&Value::from("move"), &Value::from("0x9")));
    assert_eq!(steps[1]["label"], "Place kitty at 5,6");
    assert_eq!(plan["unrecoverable"].as_array().unwrap().len(), 1);
    let (asked, answer) = execute_plan(&plan);
    assert_eq!(
        asked,
        vec!["movetoworkspacesilent 3,address:0x9".to_string(), "movewindowpixel exact 5 6,address:0x9".to_string()]
    );
    assert_eq!(answer["ran"], 2);
    let missing = build(&vec![was, Client::default()], &Vec::new(), &DesktopMap::new());
    assert_eq!(missing["steps"].as_array().unwrap().len(), 0);
    assert_eq!(missing["unrecoverable"][0]["reason"], "no desktop file for this class");
}

#[test]
fn only_complete_steps_are_run() {
    let plan: Value = serde_json::from_str(
        r#"{"steps":[{"kind":"exec","cmd":"kitty"},{"kind":"exec"},{"kind":"move","address":"0x1"},{"kind":"dance"},
        {"kind":"geometry","address":"0x1","x":1,"y":-2}]}"#,
    )
    .unwrap();
    let (asked, answer) = execute_plan(&plan);
    assert_eq!(
        asked,
        vec!["exec [workspace 1 silent] kitty".to_string(), "movewindowpixel exact 1 -2,address:0x1".to_string()]
    );
    assert_eq!(answer["ran"], 2);
    assert_eq!(answer["steps"][1]["kind"], "geometry");
    assert_eq!(execute_plan(&Value::Null).0.len(), 0);
}

#[test]
fn parse_desktop_strips_field_codes() {
    let raw = "[Desktop Entry]\nName=Foo\nExec=/usr/bin/foo %u --bar\nStartupWMClass=Foo\n\n";
    let d = parse_desktop(Some("Foo"), raw).unwrap();
    assert_eq!(d.command, "/usr/bin/foo --bar");
    assert_eq!(d.wm_class, "Foo");
    assert_eq!((d.id.as_str(), d.name.as_str()), ("Foo", "Foo"));
    assert!(parse_desktop(Some("Foo"), "[Desktop Entry]\nName=Foo\n").is_none());
}

#[test]
fn applications_are_known_by_class_and_file() {
    let mut map = DesktopMap::new();
    map.add(Some("org.kde.konsole"), "[Desktop Entry]\nName=Konsole\nExec=konsole %i\nStartupWMClass=Konsole\n");
    assert_eq!(map.lookup("konsole").map(|d| d.command.clone()).as_deref(), Some("konsole"));
    assert_eq!(map.lookup("org.kde.konsole").map(|d| d.name.clone()).as_deref(), Some("Konsole"));
    assert!(map.lookup("zzz").is_none());
    assert!(is_browser("LibreWolf") && !is_browser("kitty"));
}

#[test]
fn desktop_files_lie_below_home_and_the_system() {
    let dirs = application_dirs(&Some("/h".into()), &Some("/x::/y".into()));
    assert_eq!(
        dirs,
        strings(&[
            "/h/.local/share/applications",
            "/usr/share/applications",
            "/usr/local/share/applications",
            "/x",
            "/y"
        ])
    );
    assert_eq!(application_dirs(&None, &None).len(), 2);
}

#[test]
fn fts_quotes_tokens() {
    assert_eq!(to_fts("foo bar"), "\"foo\" AND \"bar\"");
}

#[test]
fn queries_carry_no_syntax() {
    assert_eq!(to_fts("a\"b OR* (c) é"), "\"ab\" AND \"OR\" AND \"c\"");
    assert_eq!(to_fts("  !! "), "\"\"");
    assert_eq!(to_fts("git-hash_1"), "\"git-hash_1\"");
}

#[test]
fn snippets_show_the_surroundings() {
    assert_eq!(snippet_around("short Needle here", "needle"), "short Needle here");
    let long = format!("{}needle{}", "a".repeat(40), "b".repeat(40));
    assert_eq!(snippet_around(&long, "NEEDLE"), format!("…{}needle{}…", "a".repeat(24), "b".repeat(24)));
    assert_eq!(snippet_around(&"x".repeat(100), "y"), "x".repeat(64));
}

#[test]
fn an_estimate_needs_some_use() {
    assert_eq!(usage_span(50_000, 2_000_000_000, 1, 1 + 86_400_000), Some(86_400_000));
    assert_eq!(usage_span(8_191, 2_000_000_000, 1, 1 + 86_400_000), None);
    assert_eq!(usage_span(50_000, 0, 1, 1 + 86_400_000), None);
    assert_eq!(usage_span(50_000, 1, 0, 86_400_000), None);
    assert_eq!(usage_span(50_000, 1, 1, 60_000), None);
}

#[test]
fn the_command_line_is_read() {
    assert!(matches!(parse_args(&Vec::new()), Cli::Daemon));
    assert!(matches!(parse_args(&strings(&["daemon"])), Cli::Daemon));
    assert!(matches!(parse_args(&strings(&["self-test"])), Cli::SelfTest));
    assert!(matches!(parse_args(&strings(&["query", "two", "words"])), Cli::Query { q } if q == "two words"));
    assert!(matches!(parse_args(&strings(&["status"])), Cli::Stats));
    assert!(matches!(parse_args(&strings(&["ldd-report"])), Cli::Linkage));
    assert!(matches!(parse_args(&strings(&["help"])), Cli::Help));
    assert!(matches!(parse_args(&strings(&["--version"])), Cli::Version));
    assert!(matches!(parse_args(&strings(&["dance"])), Cli::Unknown { name } if name == "dance"));
    assert!(matches!(
        parse_args(&strings(&["wipe", "range", "--from", "5", "--to", "+7", "--from"])),
        Cli::Wipe { scope, from: 5, to: 7 } if scope == "range"
    ));
    assert!(matches!(cli_wipe(&Vec::new()), Cli::Wipe { scope, from: 0, to: 0 } if scope == "today"));
    assert!(matches!(
        cli_wipe(&strings(&["all", "--from", "x", "y", "--to", "9"])),
        Cli::Wipe { scope, from: 0, to: 9 } if scope == "all"
    ));
}

#[test]
fn queries_are_joined_and_made_plain() {
    assert_eq!(to_fts("foo bar"), format!("{} AND {}", to_fts("foo"), to_fts("bar")));
    assert_eq!(to_fts("\"fo*o\" b(a)r:"), to_fts("foo bar"));
    assert_eq!(to_fts("* \" ("), "\"\"");
}
