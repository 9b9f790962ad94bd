//! What the compositor and the session tell: windows, monitors, idleness and
//! screen sharing.
use crate::json::{
    self, bool_in, field_of, i64_in, json_of, jsons, list_in, or, parsed, text_in, Json,
};
use crate::text::{self, lower, occurs, trim};
use serde_json::Value;
use vstd::arithmetic::div_mod::lemma_fundamental_div_mod;
use vstd::prelude::*;

verus! {

/// A window.
#[derive(Debug)]
pub struct Client {
    pub address: String,
    pub class: String,
    pub title: String,
    pub workspace: String,
    pub monitor: i64,
    pub at: (i64, i64),
    pub size: (i64, i64),
    pub floating: bool,
    pub mapped: bool,
    pub hidden: bool,
    pub pid: i64,
    pub fullscreen: bool,
}

/// What a window says.
#[verifier::ext_equal]
pub struct ClientRow {
    pub address: Seq<char>,
    pub class: Seq<char>,
    pub title: Seq<char>,
    pub workspace: Seq<char>,
    pub monitor: i64,
    pub at: (i64, i64),
    pub size: (i64, i64),
    pub floating: bool,
    pub mapped: bool,
    pub hidden: bool,
    pub pid: i64,
    pub fullscreen: bool,
}

impl View for Client {
    type V = ClientRow;

    open spec fn view(&self) -> ClientRow {
        ClientRow {
            address: self.address@,
            class: self.class@,
            title: self.title@,
            workspace: self.workspace@,
            monitor: self.monitor,
            at: self.at,
            size: self.size,
            floating: self.floating,
            mapped: self.mapped,
            hidden: self.hidden,
            pid: self.pid,
            fullscreen: self.fullscreen,
        }
    }
}

impl Clone for Client {
    fn clone(&self) -> (r: Self)
        ensures
            r == *self,
    {
        Client {
            address: self.address.clone(),
            class: self.class.clone(),
            title: self.title.clone(),
            workspace: self.workspace.clone(),
            monitor: self.monitor,
            at: self.at,
            size: self.size,
            floating: self.floating,
            mapped: self.mapped,
            hidden: self.hidden,
            pid: self.pid,
            fullscreen: self.fullscreen,
        }
    }
}

/// A window that nothing is known of.
pub open spec fn no_client() -> ClientRow {
    ClientRow {
        address: Seq::empty(),
        class: Seq::empty(),
        title: Seq::empty(),
        workspace: Seq::empty(),
        monitor: 0,
        at: (0, 0),
        size: (0, 0),
        floating: false,
        mapped: false,
        hidden: false,
        pid: 0,
        fullscreen: false,
    }
}

impl Default for Client {
    fn default() -> (r: Self)
        ensures
            r@ == no_client(),
    {
        let r = Client {
            address: String::new(),
            class: String::new(),
            title: String::new(),
            workspace: String::new(),
            monitor: 0,
            at: (0, 0),
            size: (0, 0),
            floating: false,
            mapped: false,
            hidden: false,
            pid: 0,
            fullscreen: false,
        };
        assert(r@ =~= no_client());
        r
    }
}

/// What a list of windows says.
pub open spec fn client_rows(clients: Seq<Client>) -> Seq<ClientRow> {
    clients.map_values(|c: Client| c@)
}

/// A monitor.
#[derive(Debug)]
pub struct Monitor {
    pub name: String,
    pub width: i64,
    pub height: i64,
    pub x: i64,
    pub y: i64,
    pub focused: bool,
}

/// What a monitor says.
#[verifier::ext_equal]
pub struct MonitorRow {
    pub name: Seq<char>,
    pub width: i64,
    pub height: i64,
    pub x: i64,
    pub y: i64,
    pub focused: bool,
}

impl View for Monitor {
    type V = MonitorRow;

    open spec fn view(&self) -> MonitorRow {
        MonitorRow {
            name: self.name@,
            width: self.width,
            height: self.height,
            x: self.x,
            y: self.y,
            focused: self.focused,
        }
    }
}

impl Clone for Monitor {
    fn clone(&self) -> (r: Self)
        ensures
            r == *self,
    {
        Monitor {
            name: self.name.clone(),
            width: self.width,
            height: self.height,
            x: self.x,
            y: self.y,
            focused: self.focused,
        }
    }
}

/// A monitor that nothing is known of.
pub open spec fn no_monitor() -> MonitorRow {
    MonitorRow { name: Seq::empty(), width: 0, height: 0, x: 0, y: 0, focused: false }
}

impl Default for Monitor {
    fn default() -> (r: Self)
        ensures
            r@ == no_monitor(),
    {
        let r = Monitor { name: String::new(), width: 0, height: 0, x: 0, y: 0, focused: false };
        assert(r@ =~= no_monitor());
        r
    }
}

/// What a list of monitors says.
pub open spec fn monitor_rows(monitors: Seq<Monitor>) -> Seq<MonitorRow> {
    monitors.map_values(|m: Monitor| m@)
}

/// The window that has the focus.
#[derive(Debug)]
pub struct ActiveWindow {
    pub class: String,
    pub title: String,
    pub workspace: String,
    pub at: (i64, i64),
    pub size: (i64, i64),
    pub monitor: i64,
    pub address: String,
}

/// What the window that has the focus says.
#[verifier::ext_equal]
pub struct ActiveRow {
    pub class: Seq<char>,
    pub title: Seq<char>,
    pub workspace: Seq<char>,
    pub at: (i64, i64),
    pub size: (i64, i64),
    pub monitor: i64,
    pub address: Seq<char>,
}

impl View for ActiveWindow {
    type V = ActiveRow;

    open spec fn view(&self) -> ActiveRow {
        ActiveRow {
            class: self.class@,
            title: self.title@,
            workspace: self.workspace@,
            at: self.at,
            size: self.size,
            monitor: self.monitor,
            address: self.address@,
        }
    }
}

impl Clone for ActiveWindow {
    fn clone(&self) -> (r: Self)
        ensures
            r == *self,
    {
        ActiveWindow {
            class: self.class.clone(),
            title: self.title.clone(),
            workspace: self.workspace.clone(),
            at: self.at,
            size: self.size,
            monitor: self.monitor,
            address: self.address.clone(),
        }
    }
}

/// No window has the focus.
pub open spec fn no_active() -> ActiveRow {
    ActiveRow {
        class: Seq::empty(),
        title: Seq::empty(),
        workspace: Seq::empty(),
        at: (0, 0),
        size: (0, 0),
        monitor: 0,
        address: Seq::empty(),
    }
}

impl Default for ActiveWindow {
    fn default() -> (r: Self)
        ensures
            r@ == no_active(),
    {
        let r = ActiveWindow {
            class: String::new(),
            title: String::new(),
            workspace: String::new(),
            at: (0, 0),
            size: (0, 0),
            monitor: 0,
            address: String::new(),
        };
        assert(r@ =~= no_active());
        r
    }
}

/// The two numbers of a pair; a number that is missing is zero.
pub open spec fn pair_in(j: Option<Json>) -> Option<(i64, i64)> {
    match list_in(j) {
        Some(s) => if s.len() < 2 {
            None
        } else {
            Some((or(i64_in(Some(s[0])), 0), or(i64_in(Some(s[1])), 0)))
        },
        None => None,
    }
}

/// A flag that may be a truth value, a number or a text.
pub open spec fn flag_in(j: Option<Json>) -> bool {
    match j {
        Some(Json::Bool(b)) => b,
        Some(Json::Int(n)) => or(i64_in(j), 0) != 0,
        Some(Json::Text(s)) => s != "0"@ && s != "false"@,
        _ => false,
    }
}

/// The workspace of a window: its number, else its name, else the first one.
pub open spec fn workspace_in(j: Json) -> Seq<char> {
    match field_of(j, "workspace"@) {
        Some(w) => match i64_in(field_of(w, "id"@)) {
            Some(n) => text::decimal(n as int),
            None => or(text_in(field_of(w, "name"@)), "1"@),
        },
        None => "1"@,
    }
}

/// The window that a value tells of.
pub open spec fn client_in(j: Json) -> ClientRow {
    ClientRow {
        address: or(text_in(field_of(j, "address"@)), ""@),
        class: or(text_in(field_of(j, "class"@)), ""@),
        title: or(text_in(field_of(j, "title"@)), ""@),
        workspace: workspace_in(j),
        monitor: or(i64_in(field_of(j, "monitor"@)), 0),
        at: or(pair_in(field_of(j, "at"@)), (0, 0)),
        size: or(pair_in(field_of(j, "size"@)), (0, 0)),
        floating: or(bool_in(field_of(j, "floating"@)), false),
        mapped: or(bool_in(field_of(j, "mapped"@)), true),
        hidden: or(bool_in(field_of(j, "hidden"@)), false),
        pid: or(i64_in(field_of(j, "pid"@)), 0),
        fullscreen: flag_in(field_of(j, "fullscreen"@)),
    }
}

/// The windows that a value tells of.
pub open spec fn clients_in(j: Json) -> Seq<ClientRow> {
    or(list_in(Some(j)), Seq::empty()).map_values(|c: Json| client_in(c))
}

/// The monitor that a value tells of.
pub open spec fn monitor_in(j: Json) -> MonitorRow {
    MonitorRow {
        name: or(text_in(field_of(j, "name"@)), ""@),
        width: or(i64_in(field_of(j, "width"@)), 0),
        height: or(i64_in(field_of(j, "height"@)), 0),
        x: or(i64_in(field_of(j, "x"@)), 0),
        y: or(i64_in(field_of(j, "y"@)), 0),
        focused: or(bool_in(field_of(j, "focused"@)), false),
    }
}

/// The monitors that a value tells of.
pub open spec fn monitors_in(j: Json) -> Seq<MonitorRow> {
    or(list_in(Some(j)), Seq::empty()).map_values(|m: Json| monitor_in(m))
}

/// The focused window that a value tells of.
pub open spec fn active_in(j: Json) -> ActiveRow {
    if j is Null || field_of(j, "class"@) is None {
        no_active()
    } else {
        let c = client_in(j);
        ActiveRow {
            class: c.class,
            title: c.title,
            workspace: c.workspace,
            at: c.at,
            size: c.size,
            monitor: c.monitor,
            address: c.address,
        }
    }
}

fn number_or(v: &Value, key: &str, other: i64) -> (r: i64)
    ensures
        r == or(i64_in(field_of(json_of(*v), key@)), other),
{
    match json::i64_field(v, key) {
        Some(n) => n,
        None => other,
    }
}

fn flag_or(v: &Value, key: &str, other: bool) -> (r: bool)
    ensures
        r == or(bool_in(field_of(json_of(*v), key@)), other),
{
    match json::bool_field(v, key) {
        Some(b) => b,
        None => other,
    }
}

fn pair(v: Option<&Value>) -> (r: Option<(i64, i64)>)
    ensures
        r == pair_in(json::seen(v)),
{
    let arr = match v {
        Some(x) => match x.as_array() {
            Some(a) => a,
            None => {
                return None;
            },
        },
        None => {
            return None;
        },
    };
    assert(jsons(arr@).len() == arr@.len());
    if arr.len() < 2 {
        return None;
    }
    assert(jsons(arr@)[0] == json_of(arr@[0]));
    assert(jsons(arr@)[1] == json_of(arr@[1]));
    let a = match arr[0].as_i64() {
        Some(n) => n,
        None => 0,
    };
    let b = match arr[1].as_i64() {
        Some(n) => n,
        None => 0,
    };
    Some((a, b))
}

fn pair_or_zero(v: Option<&Value>) -> (r: (i64, i64))
    ensures
        r == or(pair_in(json::seen(v)), (0, 0)),
{
    match pair(v) {
        Some(p) => p,
        None => (0, 0),
    }
}

fn fullscreen_flag(v: Option<&Value>) -> (r: bool)
    ensures
        r == flag_in(json::seen(v)),
{
    match v {
        Some(x) => {
            if let Some(b) = x.as_bool() {
                return b;
            }
            if let Some(n) = x.as_i64() {
                return n != 0;
            }
            if let Some(s) = x.as_str() {
                return !text::same(s, "0") && !text::same(s, "false");
            }
            false
        },
        None => false,
    }
}

fn workspace_of(v: &Value) -> (r: String)
    ensures
        r@ == workspace_in(json_of(*v)),
{
    match json::field(v, "workspace") {
        Some(w) => match json::i64_field(w, "id") {
            Some(n) => text::i64_text(n),
            None => json::text_or(w, "name", "1"),
        },
        None => "1".to_string(),
    }
}

/// The window that a value tells of.
pub fn parse_client(v: &Value) -> (r: Client)
    ensures
        r@ == client_in(json_of(*v)),
{
    let r = Client {
        address: json::text_or(v, "address", ""),
        class: json::text_or(v, "class", ""),
        title: json::text_or(v, "title", ""),
        workspace: workspace_of(v),
        monitor: number_or(v, "monitor", 0),
        at: pair_or_zero(json::field(v, "at")),
        size: pair_or_zero(json::field(v, "size")),
        floating: flag_or(v, "floating", false),
        mapped: flag_or(v, "mapped", true),
        hidden: flag_or(v, "hidden", false),
        pid: number_or(v, "pid", 0),
        fullscreen: fullscreen_flag(json::field(v, "fullscreen")),
    };
    assert(r@ =~= client_in(json_of(*v)));
    r
}

/// The windows that a value tells of.
pub fn clients_from(v: &Value) -> (r: Vec<Client>)
    ensures
        client_rows(r@) == clients_in(json_of(*v)),
{
    let mut out: Vec<Client> = Vec::new();
    if let Some(arr) = v.as_array() {
        let ghost all = jsons(arr@);
        let ghost want = clients_in(json_of(*v));
        let mut i: usize = 0;
        assert(client_rows(out@) =~= want.take(0));
        while i < arr.len()
            invariant
                i <= arr@.len(),
                all == jsons(arr@),
                want == all.map_values(|c: Json| client_in(c)),
                client_rows(out@) == want.take(i as int),
            decreases arr@.len() - i,
        {
            let ghost was = client_rows(out@);
            let c = parse_client(&arr[i]);
            assert(all[i as int] == json_of(arr@[i as int]));
            let ghost row = c@;
            out.push(c);
            assert(client_rows(out@) =~= was.push(row));
            i += 1;
            assert(client_rows(out@) =~= want.take(i as int));
        }
        assert(want.take(i as int) =~= want);
    }
    assert(client_rows(out@) =~= clients_in(json_of(*v)));
    out
}

/// The windows that a text tells of, or why it tells of none.
pub fn parse_clients(raw: &str) -> (r: Result<Vec<Client>, String>)
    ensures
        match parsed(raw@) {
            Ok(j) => r matches Ok(v) && client_rows(v@) == clients_in(j),
            Err(m) => r matches Err(e) && e@ == m,
        },
{
    match json::parse_value(raw) {
        Ok(v) => Ok(clients_from(&v)),
        Err(m) => Err(m),
    }
}

/// The focused window that a value tells of.
pub fn active_from(v: &Value) -> (r: ActiveWindow)
    ensures
        r@ == active_in(json_of(*v)),
{
    if v.is_null() || json::field(v, "class").is_none() {
        return ActiveWindow::default();
    }
    let c = parse_client(v);
    ActiveWindow {
        class: c.class,
        title: c.title,
        workspace: c.workspace,
        at: c.at,
        size: c.size,
        monitor: c.monitor,
        address: c.address,
    }
}

/// The focused window that a text tells of, or why it tells of none.
pub fn parse_active(raw: &str) -> (r: Result<ActiveWindow, String>)
    ensures
        match parsed(raw@) {
            Ok(j) => r matches Ok(a) && a@ == active_in(j),
            Err(m) => r matches Err(e) && e@ == m,
        },
{
    match json::parse_value(raw) {
        Ok(v) => Ok(active_from(&v)),
        Err(m) => Err(m),
    }
}

/// The monitors that a value tells of.
pub fn monitors_from(v: &Value) -> (r: Vec<Monitor>)
    ensures
        monitor_rows(r@) == monitors_in(json_of(*v)),
{
    let mut out: Vec<Monitor> = Vec::new();
    if let Some(arr) = v.as_array() {
        let ghost all = jsons(arr@);
        let ghost want = monitors_in(json_of(*v));
        let mut i: usize = 0;
        assert(monitor_rows(out@) =~= want.take(0));
        while i < arr.len()
            invariant
                i <= arr@.len(),
                all == jsons(arr@),
                want == all.map_values(|m: Json| monitor_in(m)),
                monitor_rows(out@) == want.take(i as int),
            decreases arr@.len() - i,
        {
            let ghost was = monitor_rows(out@);
            let m = Monitor {
                name: json::text_or(&arr[i], "name", ""),
                width: number_or(&arr[i], "width", 0),
                height: number_or(&arr[i], "height", 0),
                x: number_or(&arr[i], "x", 0),
                y: number_or(&arr[i], "y", 0),
                focused: flag_or(&arr[i], "focused", false),
            };
            assert(all[i as int] == json_of(arr@[i as int]));
            assert(m@ =~= want[i as int]);
            let ghost row = m@;
            out.push(m);
            assert(monitor_rows(out@) =~= was.push(row));
            i += 1;
            assert(monitor_rows(out@) =~= want.take(i as int));
        }
        assert(want.take(i as int) =~= want);
    }
    assert(monitor_rows(out@) =~= monitors_in(json_of(*v)));
    out
}

/// The monitors that a text tells of, or why it tells of none.
pub fn parse_monitors(raw: &str) -> (r: Result<Vec<Monitor>, String>)
    ensures
        match parsed(raw@) {
            Ok(j) => r matches Ok(v) && monitor_rows(v@) == monitors_in(j),
            Err(m) => r matches Err(e) && e@ == m,
        },
{
    match json::parse_value(raw) {
        Ok(v) => Ok(monitors_from(&v)),
        Err(m) => Err(m),
    }
}

/// The first focused monitor of a list; without one, a monitor without a name.
pub open spec fn focused_in(monitors: Seq<MonitorRow>) -> MonitorRow
    decreases monitors.len(),
{
    if monitors.len() == 0 {
        no_monitor()
    } else if monitors[0].focused {
        monitors[0]
    } else {
        focused_in(monitors.skip(1))
    }
}

/// The first focused monitor of a list; without one, a monitor without a name.
pub fn focused_monitor(monitors: &Vec<Monitor>) -> (r: Monitor)
    ensures
        r@ == focused_in(monitor_rows(monitors@)),
{
    let ghost all = monitor_rows(monitors@);
    let mut i: usize = 0;
    assert(all.skip(0) =~= all);
    while i < monitors.len()
        invariant
            i <= monitors@.len(),
            all == monitor_rows(monitors@),
            focused_in(all) == focused_in(all.skip(i as int)),
        decreases monitors@.len() - i,
    {
        assert(all.skip(i as int).skip(1) =~= all.skip(i + 1));
        assert(all.skip(i as int)[0] == monitors@[i as int]@);
        if monitors[i].focused {
            return monitors[i].clone();
        }
        i += 1;
    }
    Monitor::default()
}

/// The session is locked: the locker runs, or the session says so.
pub open spec fn is_locked(locker_runs: bool, hint: Option<Seq<char>>) -> bool {
    locker_runs || (hint matches Some(s) && trim(s) == "yes"@)
}

/// The session is locked: the locker runs, or the session says so.
pub fn locked(locker_runs: bool, hint: &Option<String>) -> (r: bool)
    ensures
        r == is_locked(
            locker_runs,
            match *hint {
                Some(s) => Some(s@),
                None => None,
            },
        ),
        r == (locker_runs || (*hint matches Some(s) && trim(s@) == "yes"@)),
{
    if locker_runs {
        return true;
    }
    match hint {
        Some(s) => {
            let t = text::trimmed(s.as_str());
            text::same(t.as_str(), "yes")
        },
        None => false,
    }
}

/// How long the session says it has been idle, in milliseconds. `raw` is the
/// time since when, in microseconds; so is `now_us`.
pub open spec fn idle_since(raw: Seq<char>, now_us: u64) -> Option<u64> {
    let s = trim(raw);
    if s.len() == 0 || s == "0"@ {
        Some(0)
    } else {
        match text::count_in(s) {
            Some(since) => if since == 0 || since > now_us {
                Some(0)
            } else {
                Some(((now_us - since) / 1000) as u64)
            },
            None => None,
        }
    }
}

/// How long the session says it has been idle, in milliseconds.
pub fn session_idle_ms(raw: &str, now_us: u64) -> (r: Option<u64>)
    ensures
        r == idle_since(raw@, now_us),
{
    let v = text::chars_of(raw);
    let t = text::trim_chars(&v);
    let zero = text::chars_of("0");
    if t.len() == 0 || text::same_chars(&t, &zero) {
        return Some(0);
    }
    match text::parse_u64(&t) {
        Some(since) => if since == 0 || since > now_us {
            Some(0)
        } else {
            Some((now_us - since) / 1000)
        },
        None => None,
    }
}

/// The milliseconds without input: as the session says, or else since the pointer
/// last moved.
pub open spec fn idle_for(session: Option<u64>, last_input: i64, now: i64) -> int {
    match session {
        Some(ms) => ms as int,
        None => if last_input <= 0 || now <= last_input {
            0
        } else {
            now - last_input
        },
    }
}

/// When there was last input, once the pointer was read.
pub open spec fn input_at(previous: u64, key: u64, last_input: i64, now: i64) -> i64 {
    if previous != key {
        now
    } else {
        last_input
    }
}

/// How long there has been no input, in milliseconds: as the session says, or
/// else since the pointer last moved.
pub fn idle_ms(session: Option<u64>, last_input: i64, now: i64) -> (r: u64)
    ensures
        r == idle_for(session, last_input, now),
        r == (match session {
            Some(ms) => ms as int,
            None => if last_input <= 0 || now <= last_input {
                0
            } else {
                now - last_input
            },
        }),
{
    match session {
        Some(ms) => ms,
        None => if last_input <= 0 || now <= last_input {
            0
        } else {
            (now - last_input) as u64
        },
    }
}

/// A number by which two readings of the pointer are told apart.
pub open spec fn fingerprint(b: Seq<u8>) -> u64
    decreases b.len(),
{
    if b.len() == 0 {
        0xcbf29ce484222325
    } else {
        vstd::wrapping::u64_specs::wrapping_mul(fingerprint(b.drop_last()) ^ (b.last() as u64), 0x100000001b3)
    }
}

/// A number by which two readings of the pointer are told apart.
pub fn hash_bytes(b: &[u8]) -> (r: u64)
    ensures
        r == fingerprint(b@),
{
    let mut h: u64 = 0xcbf29ce484222325;
    let mut i: usize = 0;
    assert(b@.take(0) =~= Seq::<u8>::empty());
    while i < b.len()
        invariant
            i <= b@.len(),
            h == fingerprint(b@.take(i as int)),
        decreases b@.len() - i,
    {
        assert(b@.take(i + 1).drop_last() =~= b@.take(i as int));
        h = (h ^ (b[i] as u64)).wrapping_mul(0x100000001b3);
        i += 1;
    }
    assert(b@.take(i as int) =~= b@);
    h
}

/// When there was last input, once the pointer was read: now, where the reading
/// is not the one before.
pub fn note_cursor(previous: u64, key: u64, last_input: i64, now: i64) -> (r: i64)
    ensures
        r == input_at(previous, key, last_input, now),
        r == (if previous != key { now } else { last_input }),
{
    if previous != key {
        now
    } else {
        last_input
    }
}

/// A screen-sharing portal is named.
pub open spec fn names_portal(dump: Seq<char>) -> bool {
    occurs(dump, "xdg-desktop-portal"@) || occurs(dump, "gnome-shell"@)
}

/// A program that shares or records the screen is named.
pub open spec fn names_recorder(dump: Seq<char>) -> bool {
    ||| names_portal(dump)
    ||| occurs(dump, "screencast"@)
    ||| occurs(dump, "\"obs"@)
    ||| occurs(dump, "wf-recorder"@)
    ||| occurs(dump, "gpu-screen-recorder"@)
    ||| occurs(dump, "kooha"@)
}

/// A stream of video is named.
pub open spec fn names_stream(dump: Seq<char>) -> bool {
    ||| occurs(dump, "stream/input/video"@)
    ||| occurs(dump, "stream/output/video"@)
    ||| occurs(dump, "media.class\":\"video/source"@)
}

/// A dump of the media graph shows that the screen is shared: a portal with a
/// screencast, or one that shares or records together with a stream of video.
/// A stream alone is not enough, as any player has one.
pub open spec fn shows_sharing(dump: Seq<char>) -> bool {
    let d = lower(dump);
    ||| names_portal(d) && occurs(d, "screencast"@)
    ||| names_recorder(d) && names_stream(d)
}

/// A dump of the media graph shows that the screen is shared.
pub fn parse_portal_dump(dump: &str) -> (r: bool)
    ensures
        r == shows_sharing(dump@),
{
    let low = text::to_lower(dump);
    let d = low.as_str();
    let portal = text::has(d, "xdg-desktop-portal") || text::has(d, "gnome-shell");
    let cast = text::has(d, "screencast");
    if portal && cast {
        return true;
    }
    let recorder = portal || cast || text::has(d, "\"obs") || text::has(d, "wf-recorder") || text::has(
        d,
        "gpu-screen-recorder",
    ) || text::has(d, "kooha");
    let stream = text::has(d, "stream/input/video") || text::has(d, "stream/output/video") || text::has(
        d,
        "media.class\":\"video/source",
    );
    recorder && stream
}

/// What came of asking for a dump of the media graph.
#[derive(Debug)]
pub enum Dump {
    /// There is nothing to ask.
    Absent,
    /// It did not answer.
    Failed,
    Text(String),
}

/// The screen is taken to be shared.
pub open spec fn taken_as_shared(dump: Dump) -> bool {
    match dump {
        Dump::Absent => false,
        Dump::Failed => true,
        Dump::Text(s) => shows_sharing(s@),
    }
}

/// The screen is taken to be shared where it cannot be told that it is not.
pub fn portal_screencast_active(dump: &Dump) -> (r: bool)
    ensures
        r == taken_as_shared(*dump),
        r == (match *dump {
            Dump::Absent => false,
            Dump::Failed => true,
            Dump::Text(s) => shows_sharing(s@),
        }),
{
    match dump {
        Dump::Absent => false,
        Dump::Failed => true,
        Dump::Text(s) => parse_portal_dump(s.as_str()),
    }
}

/// Playing video alone does not count as sharing the screen.
pub proof fn law_playback_is_not_sharing(dump: Seq<char>)
    requires
        !names_recorder(lower(dump)),
    ensures
        !shows_sharing(dump),
{
}

/// A window is what the compositor tells of it: each of its texts, numbers and
/// flags stands under its own key. A window is mapped and not hidden unless it is
/// told otherwise.
pub proof fn law_windows_are_read(j: Json)
    ensures
        ({
            let c = client_in(j);
            &&& field_of(j, "address"@) matches Some(Json::Text(s)) ==> c.address == s
            &&& field_of(j, "class"@) matches Some(Json::Text(s)) ==> c.class == s
            &&& field_of(j, "title"@) matches Some(Json::Text(s)) ==> c.title == s
            &&& field_of(j, "class"@) is None ==> c.class == ""@
            &&& field_of(j, "title"@) is None ==> c.title == ""@
            &&& c.floating <==> field_of(j, "floating"@) == Some(Json::Bool(true))
            &&& c.mapped <==> field_of(j, "mapped"@) != Some(Json::Bool(false))
            &&& c.hidden <==> field_of(j, "hidden"@) == Some(Json::Bool(true))
            &&& field_of(j, "pid"@) matches Some(Json::Int(n)) ==> (i64::MIN <= n <= i64::MAX ==> c.pid == n)
            &&& field_of(j, "monitor"@) matches Some(Json::Int(n)) ==> (i64::MIN <= n <= i64::MAX ==> c.monitor == n)
            &&& field_of(j, "fullscreen"@) matches Some(Json::Bool(b)) ==> c.fullscreen == b
            &&& field_of(j, "fullscreen"@) matches Some(Json::Int(n)) ==> (i64::MIN <= n <= i64::MAX ==> (c.fullscreen
                <==> n != 0))
            &&& field_of(j, "fullscreen"@) is None ==> !c.fullscreen
        }),
{
}

/// A window stands at the two numbers that are told as its place, and is as large
/// as the two that are told as its size.
pub proof fn law_places_are_read(j: Json, s: Seq<Json>, x: i64, y: i64)
    requires
        s.len() >= 2,
        s[0] == Json::Int(x as int),
        s[1] == Json::Int(y as int),
    ensures
        field_of(j, "at"@) == Some(Json::List(s)) ==> client_in(j).at == (x, y),
        field_of(j, "size"@) == Some(Json::List(s)) ==> client_in(j).size == (x, y),
        field_of(j, "at"@) is None ==> client_in(j).at == (0i64, 0i64),
        field_of(j, "size"@) is None ==> client_in(j).size == (0i64, 0i64),
{
}

/// The workspace of a window is its number, as it is written; without one its
/// name; and without both the first one.
pub proof fn law_workspaces_are_read(j: Json, w: Json)
    requires
        field_of(j, "workspace"@) == Some(w),
    ensures
        field_of(w, "id"@) matches Some(Json::Int(n)) ==> (i64::MIN <= n <= i64::MAX ==> client_in(j).workspace
            == text::decimal(n)),
        field_of(w, "id"@) is None ==> (field_of(w, "name"@) matches Some(Json::Text(s)) ==> client_in(j).workspace == s),
        field_of(w, "id"@) is None && field_of(w, "name"@) is None ==> client_in(j).workspace == "1"@,
{
}

/// All windows and all monitors that are told of are read, in their order.
pub proof fn law_lists_are_read(s: Seq<Json>, i: int)
    requires
        0 <= i < s.len(),
    ensures
        clients_in(Json::List(s)).len() == s.len(),
        clients_in(Json::List(s))[i] == client_in(s[i]),
        monitors_in(Json::List(s)).len() == s.len(),
        monitors_in(Json::List(s))[i] == monitor_in(s[i]),
{
}

/// A monitor is what the compositor tells of it.
pub proof fn law_monitors_are_read(j: Json)
    ensures
        ({
            let m = monitor_in(j);
            &&& field_of(j, "name"@) matches Some(Json::Text(s)) ==> m.name == s
            &&& field_of(j, "name"@) is None ==> m.name == ""@
            &&& field_of(j, "width"@) matches Some(Json::Int(n)) ==> (i64::MIN <= n <= i64::MAX ==> m.width == n)
            &&& field_of(j, "height"@) matches Some(Json::Int(n)) ==> (i64::MIN <= n <= i64::MAX ==> m.height == n)
            &&& field_of(j, "x"@) matches Some(Json::Int(n)) ==> (i64::MIN <= n <= i64::MAX ==> m.x == n)
            &&& field_of(j, "y"@) matches Some(Json::Int(n)) ==> (i64::MIN <= n <= i64::MAX ==> m.y == n)
            &&& m.focused <==> field_of(j, "focused"@) == Some(Json::Bool(true))
        }),
{
}

/// The focused window is read like any other one; without a class there is none.
pub proof fn law_the_focused_window_is_read(j: Json)
    ensures
        field_of(j, "class"@) is None || j is Null ==> active_in(j).class.len() == 0 && active_in(j).title.len() == 0
            && active_in(j).size == (0i64, 0i64),
        field_of(j, "class"@) is Some ==> {
            let a = active_in(j);
            let c = client_in(j);
            &&& a.class == c.class && a.title == c.title && a.workspace == c.workspace && a.address == c.address
            &&& a.at == c.at && a.size == c.size && a.monitor == c.monitor
        },
{
}

/// The first monitor that has the focus is the one, wherever it stands; without
/// any there is no name.
pub proof fn law_the_focused_monitor(monitors: Seq<MonitorRow>)
    ensures
        forall|i: int|
            0 <= i < monitors.len() && (#[trigger] monitors[i]).focused && (forall|j: int|
                0 <= j < i ==> !(#[trigger] monitors[j]).focused) ==> focused_in(monitors) == monitors[i],
        (forall|i: int| 0 <= i < monitors.len() ==> !(#[trigger] monitors[i]).focused) ==> focused_in(
            monitors,
        ).name.len() == 0,
    decreases monitors.len(),
{
    if monitors.len() > 0 {
        let rest = monitors.skip(1);
        law_the_focused_monitor(rest);
        assert(forall|i: int| 0 < i < monitors.len() ==> monitors[i] == rest[i - 1]);
        assert forall|i: int|
            0 <= i < monitors.len() && (#[trigger] monitors[i]).focused && (forall|j: int|
                0 <= j < i ==> !(#[trigger] monitors[j]).focused) implies focused_in(monitors) == monitors[i] by {
            if i > 0 {
                assert(!monitors[0].focused);
                assert(rest[i - 1].focused);
                assert forall|j: int| 0 <= j < i - 1 implies !(#[trigger] rest[j]).focused by {
                    assert(!monitors[j + 1].focused);
                }
            }
        }
        if forall|i: int| 0 <= i < monitors.len() ==> !(#[trigger] monitors[i]).focused {
            assert forall|i: int| 0 <= i < rest.len() implies !(#[trigger] rest[i]).focused by {
                assert(!monitors[i + 1].focused);
            }
        }
    }
}

/// The screen is shared where a portal casts it, and where a portal, a screencast
/// or a recorder is named together with a stream of video, whatever the case of
/// the letters; and nowhere else.
pub proof fn law_what_counts_as_sharing(dump: Seq<char>)
    ensures
        ({
            let d = lower(dump);
            let portal = occurs(d, "xdg-desktop-portal"@) || occurs(d, "gnome-shell"@);
            let cast = occurs(d, "screencast"@);
            let recorder = occurs(d, "\"obs"@) || occurs(d, "wf-recorder"@) || occurs(d, "gpu-screen-recorder"@) || occurs(
                d,
                "kooha"@,
            );
            let video = occurs(d, "stream/input/video"@) || occurs(d, "stream/output/video"@) || occurs(
                d,
                "media.class\":\"video/source"@,
            );
            shows_sharing(dump) <==> portal && cast || (portal || cast || recorder) && video
        }),
{
}

/// A session is idle for as long as the time that it tells lies back, in
/// milliseconds; a time that is missing, zero or still to come does not count.
pub proof fn law_idle_time(raw: Seq<char>, now_us: u64, since: u64)
    requires
        text::count_in(trim(raw)) == Some(since),
    ensures
        0 < since <= now_us && trim(raw).len() > 0 && trim(raw) != "0"@ ==> idle_since(raw, now_us) == Some(
            ((now_us - since) / 1000) as u64,
        ),
        since > now_us || since == 0 ==> idle_since(raw, now_us) == Some(0u64),
{
}

/// Time without input runs from the last time that the pointer was seen to have
/// moved: a new reading sets it back to nothing, and while the reading stays the
/// same it grows with the clock. What the session says counts before that.
pub proof fn law_time_without_input(a: u64, b: u64, last_input: i64, seen: i64, now: i64, ms: u64)
    requires
        0 < seen <= now,
        0 < last_input <= seen,
    ensures
        idle_for(Some(ms), last_input, now) == ms,
        a != b ==> idle_for(None, input_at(a, b, last_input, seen), now) == now - seen,
        idle_for(None, input_at(a, a, last_input, seen), now) == now - last_input,
        idle_for(None, 0, now) == 0,
        idle_for(None, now, seen) == 0,
{
}

/// Two readings of the pointer that differ in their last byte are told apart.
pub proof fn law_readings_are_told_apart(b: Seq<u8>, x: u8, y: u8)
    requires
        x != y,
    ensures
        fingerprint(b.push(x)) != fingerprint(b.push(y)),
{
    let h = fingerprint(b);
    assert(b.push(x).drop_last() =~= b && b.push(y).drop_last() =~= b);
    let p = h ^ (x as u64);
    let q = h ^ (y as u64);
    assert(p != q) by {
        assert((h ^ (x as u64)) == (h ^ (y as u64)) ==> x == y) by (bit_vector);
    }
    let m: int = 0x1_0000_0000_0000_0000;
    let u = p * 0x100000001b3;
    let v = q * 0x100000001b3;
    assert(u == m * (u / m) + u % m) by {
        lemma_fundamental_div_mod(u, m);
    }
    assert(v == m * (v / m) + v % m) by {
        lemma_fundamental_div_mod(v, m);
    }
    if fingerprint(b.push(x)) == fingerprint(b.push(y)) {
        let c = u / m - v / m;
        assert((p - q) * 0x100000001b3 == 0x1_0000_0000_0000_0000 * c);
        // The factor has an inverse among the numbers of sixty-four binary digits.
        assert((p - q) * 0x100000001b3 * 0xce965057aff6957b == 0x1_0000_0000_0000_0000 * c * 0xce965057aff6957b);
        assert(p - q == 0x1_0000_0000_0000_0000 * (c * 0xce965057aff6957b - (p - q) * 0xce9650590f));
    }
}

/// A session is locked where the locker runs, whatever the session says, and where
/// the session says yes, with white space around it or not; and else it is not.
pub proof fn law_when_a_session_is_locked(runs: bool, hint: Option<Seq<char>>)
    ensures
        is_locked(true, hint),
        is_locked(runs, Some("yes"@)),
        hint is None ==> (is_locked(runs, hint) <==> runs),
        (hint matches Some(s) && trim(s) != "yes"@) ==> (is_locked(runs, hint) <==> runs),
        (hint matches Some(s) && trim(s) == "yes"@) ==> is_locked(runs, hint),
{
    reveal_strlit("yes");
    assert(trim("yes"@) =~= "yes"@) by {
        assert(!text::is_space('y') && !text::is_space('s'));
    }
}

/// Where the media graph should have answered and did not, the screen counts as
/// shared; where there is none to ask, it does not.
pub proof fn law_silence_counts_as_sharing(dump: Dump)
    ensures
        dump is Failed ==> taken_as_shared(dump),
        dump is Absent ==> !taken_as_shared(dump),
        dump matches Dump::Text(s) ==> (taken_as_shared(dump) <==> shows_sharing(s@)),
{
}

} // verus!
