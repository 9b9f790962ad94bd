//! The commands that the daemon takes and the events that it emits, one JSON
//! value to a line.
use crate::json::{
    self, bool_in, field_of, i64_in, json_of, no_entries, or, parsed, text_in, u64_in, Fields, Json,
};
use crate::rows::{FrameInsert, FrameRow};
use crate::text;
use serde_json::Value;
use vstd::prelude::*;

verus! {

/// A request to the daemon.
#[derive(Debug)]
pub enum Command {
    Hello { id: u64 },
    Arm { id: u64, settings: Value },
    Disarm { id: u64 },
    Consent { id: u64, arm_now: bool, arm_on_login: bool },
    SetPause { id: u64, reason: String, paused: bool },
    Configure { id: u64, settings: Value },
    Query { id: u64, q: String, limit: usize, from: i64, to: i64 },
    Timeline { id: u64, from: i64, to: i64, limit: usize },
    Moment { id: u64, ts: i64 },
    Clips { id: u64, limit: usize },
    ReopenPlan { id: u64, ts: i64 },
    ReopenWindow { id: u64, ts: i64, target: Value },
    ReopenExec { id: u64, plan: Value },
    Wipe { id: u64, scope: String, from: i64, to: i64 },
    CopyClip { id: u64, ts: i64 },
    Stats { id: u64 },
    Shutdown { id: u64 },
}

/// What a request says.
pub enum Request {
    Hello { id: u64 },
    Arm { id: u64, settings: Json },
    Disarm { id: u64 },
    Consent { id: u64, arm_now: bool, arm_on_login: bool },
    SetPause { id: u64, reason: Seq<char>, paused: bool },
    Configure { id: u64, settings: Json },
    Query { id: u64, q: Seq<char>, limit: usize, from: i64, to: i64 },
    Timeline { id: u64, from: i64, to: i64, limit: usize },
    Moment { id: u64, ts: i64 },
    Clips { id: u64, limit: usize },
    ReopenPlan { id: u64, ts: i64 },
    ReopenWindow { id: u64, ts: i64, target: Json },
    ReopenExec { id: u64, plan: Json },
    Wipe { id: u64, scope: Seq<char>, from: i64, to: i64 },
    CopyClip { id: u64, ts: i64 },
    Stats { id: u64 },
    Shutdown { id: u64 },
}

impl View for Command {
    type V = Request;

    open spec fn view(&self) -> Request {
        match *self {
            Command::Hello { id } => Request::Hello { id },
            Command::Arm { id, settings } => Request::Arm { id, settings: json_of(settings) },
            Command::Disarm { id } => Request::Disarm { id },
            Command::Consent { id, arm_now, arm_on_login } => Request::Consent { id, arm_now, arm_on_login },
            Command::SetPause { id, reason, paused } => Request::SetPause { id, reason: reason@, paused },
            Command::Configure { id, settings } => Request::Configure { id, settings: json_of(settings) },
            Command::Query { id, q, limit, from, to } => Request::Query { id, q: q@, limit, from, to },
            Command::Timeline { id, from, to, limit } => Request::Timeline { id, from, to, limit },
            Command::Moment { id, ts } => Request::Moment { id, ts },
            Command::Clips { id, limit } => Request::Clips { id, limit },
            Command::ReopenPlan { id, ts } => Request::ReopenPlan { id, ts },
            Command::ReopenWindow { id, ts, target } => Request::ReopenWindow { id, ts, target: json_of(target) },
            Command::ReopenExec { id, plan } => Request::ReopenExec { id, plan: json_of(plan) },
            Command::Wipe { id, scope, from, to } => Request::Wipe { id, scope: scope@, from, to },
            Command::CopyClip { id, ts } => Request::CopyClip { id, ts },
            Command::Stats { id } => Request::Stats { id },
            Command::Shutdown { id } => Request::Shutdown { id },
        }
    }
}

impl Clone for Command {
    fn clone(&self) -> (r: Self)
        ensures
            r@ == self@,
    {
        match self {
            Command::Hello { id } => Command::Hello { id: *id },
            Command::Arm { id, settings } => Command::Arm { id: *id, settings: settings.clone() },
            Command::Disarm { id } => Command::Disarm { id: *id },
            Command::Consent { id, arm_now, arm_on_login } => Command::Consent {
                id: *id,
                arm_now: *arm_now,
                arm_on_login: *arm_on_login,
            },
            Command::SetPause { id, reason, paused } => Command::SetPause {
                id: *id,
                reason: reason.clone(),
                paused: *paused,
            },
            Command::Configure { id, settings } => Command::Configure { id: *id, settings: settings.clone() },
            Command::Query { id, q, limit, from, to } => Command::Query {
                id: *id,
                q: q.clone(),
                limit: *limit,
                from: *from,
                to: *to,
            },
            Command::Timeline { id, from, to, limit } => Command::Timeline {
                id: *id,
                from: *from,
                to: *to,
                limit: *limit,
            },
            Command::Moment { id, ts } => Command::Moment { id: *id, ts: *ts },
            Command::Clips { id, limit } => Command::Clips { id: *id, limit: *limit },
            Command::ReopenPlan { id, ts } => Command::ReopenPlan { id: *id, ts: *ts },
            Command::ReopenWindow { id, ts, target } => Command::ReopenWindow {
                id: *id,
                ts: *ts,
                target: target.clone(),
            },
            Command::ReopenExec { id, plan } => Command::ReopenExec { id: *id, plan: plan.clone() },
            Command::Wipe { id, scope, from, to } => Command::Wipe {
                id: *id,
                scope: scope.clone(),
                from: *from,
                to: *to,
            },
            Command::CopyClip { id, ts } => Command::CopyClip { id: *id, ts: *ts },
            Command::Stats { id } => Command::Stats { id: *id },
            Command::Shutdown { id } => Command::Shutdown { id: *id },
        }
    }
}

/// The name of the command that a value asks for.
pub open spec fn command_name(j: Json) -> Option<Seq<char>> {
    match field_of(j, "cmd"@) {
        Some(v) => text_in(Some(v)),
        None => text_in(field_of(j, "type"@)),
    }
}

/// A number that a value gives, or else another one.
pub open spec fn number_or(j: Json, key: Seq<char>, other: i64) -> i64 {
    or(i64_in(field_of(j, key)), other)
}

/// A count that a value gives, or else another one.
pub open spec fn count_or(j: Json, key: Seq<char>, other: u64) -> usize {
    or(u64_in(field_of(j, key)), other) as usize
}

/// A truth value that a value gives, or else another one.
pub open spec fn flag_or(j: Json, key: Seq<char>, other: bool) -> bool {
    or(bool_in(field_of(j, key)), other)
}

/// A text that a value gives, or else another one.
pub open spec fn word_or(j: Json, key: Seq<char>, other: Seq<char>) -> Seq<char> {
    or(text_in(field_of(j, key)), other)
}

/// A member of a value, or else an object without members.
pub open spec fn part_or_empty(j: Json, key: Seq<char>) -> Json {
    or(field_of(j, key), Json::Object(no_entries()))
}

/// The text that a query asks for.
pub open spec fn query_text(j: Json) -> Seq<char> {
    or(
        match field_of(j, "q"@) {
            Some(v) => text_in(Some(v)),
            None => text_in(field_of(j, "query"@)),
        },
        ""@,
    )
}

/// The request that a value makes, or why it makes none.
pub open spec fn request_in(j: Json) -> Result<Request, Seq<char>> {
    let id = or(u64_in(field_of(j, "id"@)), 0);
    match command_name(j) {
        None => Err("missing cmd"@),
        Some(cmd) => if cmd == "hello"@ {
            Ok(Request::Hello { id })
        } else if cmd == "arm"@ {
            Ok(Request::Arm { id, settings: j })
        } else if cmd == "disarm"@ {
            Ok(Request::Disarm { id })
        } else if cmd == "consent"@ {
            Ok(
                Request::Consent {
                    id,
                    arm_now: flag_or(j, "armNow"@, false),
                    arm_on_login: flag_or(j, "armOnLogin"@, false),
                },
            )
        } else if cmd == "set-pause"@ || cmd == "setPause"@ {
            Ok(
                Request::SetPause {
                    id,
                    reason: word_or(j, "reason"@, ""@),
                    paused: flag_or(j, "paused"@, true),
                },
            )
        } else if cmd == "configure"@ {
            Ok(Request::Configure { id, settings: j })
        } else if cmd == "query"@ {
            Ok(
                Request::Query {
                    id,
                    q: query_text(j),
                    limit: count_or(j, "limit"@, 50),
                    from: number_or(j, "from"@, 0),
                    to: number_or(j, "to"@, 0),
                },
            )
        } else if cmd == "timeline"@ {
            Ok(
                Request::Timeline {
                    id,
                    from: number_or(j, "from"@, 0),
                    to: number_or(j, "to"@, 0),
                    limit: count_or(j, "limit"@, 400),
                },
            )
        } else if cmd == "moment"@ {
            Ok(Request::Moment { id, ts: number_or(j, "ts"@, 0) })
        } else if cmd == "clips"@ {
            Ok(Request::Clips { id, limit: count_or(j, "limit"@, 100) })
        } else if cmd == "reopen-plan"@ || cmd == "reopenPlan"@ {
            Ok(Request::ReopenPlan { id, ts: number_or(j, "ts"@, 0) })
        } else if cmd == "reopen-window"@ || cmd == "reopenWindow"@ {
            Ok(
                Request::ReopenWindow {
                    id,
                    ts: number_or(j, "ts"@, 0),
                    target: part_or_empty(j, "target"@),
                },
            )
        } else if cmd == "reopen-exec"@ || cmd == "reopenExec"@ {
            Ok(Request::ReopenExec { id, plan: part_or_empty(j, "plan"@) })
        } else if cmd == "wipe"@ {
            Ok(
                Request::Wipe {
                    id,
                    scope: word_or(j, "scope"@, "today"@),
                    from: number_or(j, "from"@, 0),
                    to: number_or(j, "to"@, 0),
                },
            )
        } else if cmd == "copy-clip"@ || cmd == "copyClip"@ {
            Ok(Request::CopyClip { id, ts: number_or(j, "ts"@, 0) })
        } else if cmd == "stats"@ || cmd == "status"@ {
            Ok(Request::Stats { id })
        } else if cmd == "shutdown"@ {
            Ok(Request::Shutdown { id })
        } else {
            Err("unknown cmd: "@ + cmd)
        },
    }
}

/// The request that a line makes, or why it makes none.
pub open spec fn request_on(line: Seq<char>) -> Result<Request, Seq<char>> {
    match parsed(line) {
        Ok(j) => request_in(j),
        Err(m) => Err(m),
    }
}

/// What the outcome of reading a command says.
pub open spec fn outcome(r: Result<Command, String>) -> Result<Request, Seq<char>> {
    match r {
        Ok(c) => Ok(c@),
        Err(m) => Err(m@),
    }
}

fn number(v: &Value, key: &str, other: i64) -> (r: i64)
    ensures
        r == number_or(json_of(*v), key@, other),
{
    match json::i64_field(v, key) {
        Some(n) => n,
        None => other,
    }
}

fn count(v: &Value, key: &str, other: u64) -> (r: usize)
    ensures
        r == count_or(json_of(*v), key@, other),
{
    match json::u64_field(v, key) {
        Some(n) => n as usize,
        None => other as usize,
    }
}

fn flag(v: &Value, key: &str, other: bool) -> (r: bool)
    ensures
        r == flag_or(json_of(*v), key@, other),
{
    match json::bool_field(v, key) {
        Some(b) => b,
        None => other,
    }
}

fn part(v: &Value, key: &str) -> (r: Value)
    ensures
        json_of(r) == part_or_empty(json_of(*v), key@),
{
    match json::field(v, key) {
        Some(x) => x.clone(),
        None => Fields::new().object(),
    }
}

impl Command {
    /// The command on a line.
    pub fn parse(line: &str) -> (r: Result<Self, String>)
        ensures
            outcome(r) == request_on(line@),
    {
        match json::parse_value(line) {
            Ok(v) => Command::from_value(&v),
            Err(m) => Err(m),
        }
    }

    /// The command that a value asks for.
    pub fn from_value(v: &Value) -> (r: Result<Self, String>)
        ensures
            outcome(r) == request_in(json_of(*v)),
    {
        let named = match json::field(v, "cmd") {
            Some(c) => c.as_str(),
            None => json::text_field(v, "type"),
        };
        let cmd = match named {
            Some(s) => s,
            None => {
                return Err("missing cmd".to_string());
            },
        };
        let id = match json::u64_field(v, "id") {
            Some(n) => n,
            None => 0,
        };
        if text::same(cmd, "hello") {
            Ok(Command::Hello { id })
        } else if text::same(cmd, "arm") {
            Ok(Command::Arm { id, settings: v.clone() })
        } else if text::same(cmd, "disarm") {
            Ok(Command::Disarm { id })
        } else if text::same(cmd, "consent") {
            Ok(
                Command::Consent {
                    id,
                    arm_now: flag(v, "armNow", false),
                    arm_on_login: flag(v, "armOnLogin", false),
                },
            )
        } else if text::same(cmd, "set-pause") || text::same(cmd, "setPause") {
            Ok(
                Command::SetPause {
                    id,
                    reason: json::text_or(v, "reason", ""),
                    paused: flag(v, "paused", true),
                },
            )
        } else if text::same(cmd, "configure") {
            Ok(Command::Configure { id, settings: v.clone() })
        } else if text::same(cmd, "query") {
            let asked = match json::field(v, "q") {
                Some(x) => x.as_str(),
                None => json::text_field(v, "query"),
            };
            let q = match asked {
                Some(s) => s.to_string(),
                None => "".to_string(),
            };
            Ok(
                Command::Query {
                    id,
                    q,
                    limit: count(v, "limit", 50),
                    from: number(v, "from", 0),
                    to: number(v, "to", 0),
                },
            )
        } else if text::same(cmd, "timeline") {
            Ok(
                Command::Timeline {
                    id,
                    from: number(v, "from", 0),
                    to: number(v, "to", 0),
                    limit: count(v, "limit", 400),
                },
            )
        } else if text::same(cmd, "moment") {
            Ok(Command::Moment { id, ts: number(v, "ts", 0) })
        } else if text::same(cmd, "clips") {
            Ok(Command::Clips { id, limit: count(v, "limit", 100) })
        } else if text::same(cmd, "reopen-plan") || text::same(cmd, "reopenPlan") {
            Ok(Command::ReopenPlan { id, ts: number(v, "ts", 0) })
        } else if text::same(cmd, "reopen-window") || text::same(cmd, "reopenWindow") {
            Ok(Command::ReopenWindow { id, ts: number(v, "ts", 0), target: part(v, "target") })
        } else if text::same(cmd, "reopen-exec") || text::same(cmd, "reopenExec") {
            Ok(Command::ReopenExec { id, plan: part(v, "plan") })
        } else if text::same(cmd, "wipe") {
            Ok(
                Command::Wipe {
                    id,
                    scope: json::text_or(v, "scope", "today"),
                    from: number(v, "from", 0),
                    to: number(v, "to", 0),
                },
            )
        } else if text::same(cmd, "copy-clip") || text::same(cmd, "copyClip") {
            Ok(Command::CopyClip { id, ts: number(v, "ts", 0) })
        } else if text::same(cmd, "stats") || text::same(cmd, "status") {
            Ok(Command::Stats { id })
        } else if text::same(cmd, "shutdown") {
            Ok(Command::Shutdown { id })
        } else {
            let mut m = "unknown cmd: ".to_string();
            m.append(cmd);
            Err(m)
        }
    }
}

/// Something that the daemon tells.
#[derive(Debug)]
pub struct Event {
    pub value: Value,
}

impl View for Event {
    type V = Json;

    open spec fn view(&self) -> Json {
        json_of(self.value)
    }
}

/// What is told of a captured frame.
pub open spec fn frame_event(f: FrameRow) -> Json {
    Json::Object(
        no_entries().insert("event"@, Json::Text("frame-written"@)).insert("ts"@, Json::Int(f.ts as int)).insert(
            "path"@,
            Json::Text(f.path),
        ).insert("app"@, Json::Text(f.app)).insert("title"@, Json::Text(f.title)).insert(
            "workspace"@,
            Json::Text(f.workspace),
        ).insert("bytes"@, Json::Int(f.bytes as int)).insert("encoder"@, Json::Text(f.encoder)),
    )
}

/// What is told of text recognition.
pub open spec fn progress_event(done: i64, queued: i64) -> Json {
    Json::Object(
        no_entries().insert("event"@, Json::Text("ocr-progress"@)).insert("done"@, Json::Int(done as int)).insert(
            "queued"@,
            Json::Int(queued as int),
        ),
    )
}

/// The answer to a command.
pub open spec fn reply_json(id: u64, data: Json) -> Json {
    Json::Object(
        no_entries().insert("event"@, Json::Text("reply"@)).insert("id"@, Json::Int(id as int)).insert(
            "ok"@,
            Json::Bool(true),
        ).insert("data"@, data),
    )
}

/// What is told of something that went wrong.
pub open spec fn error_json(id: Option<u64>, error: Seq<char>) -> Json {
    Json::Object(
        no_entries().insert("event"@, Json::Text("error"@)).insert(
            "id"@,
            match id {
                Some(n) => Json::Int(n as int),
                None => Json::Null,
            },
        ).insert("ok"@, Json::Bool(false)).insert("error"@, Json::Text(error)),
    )
}

/// What is told of the state of the daemon.
pub open spec fn state_json(data: Json) -> Json {
    match data {
        Json::Object(m) => Json::Object(m.insert("event"@, Json::Text("stats"@))),
        other => other,
    }
}

impl Event {
    /// The event as one line.
    pub fn to_json(&self) -> (r: String)
        ensures
            r@ == json::compact_text(self@),
            !r@.contains('\n'),
    {
        json::print_value(&self.value)
    }

    /// The daemon is up.
    pub fn ready(armed: bool, consent: bool, encoder: &str) -> (r: Self)
        ensures
            r@ == ready_json(armed, consent, encoder@),
            r@ == Json::Object(
                no_entries().insert("event"@, Json::Text("ready"@)).insert("armed"@, Json::Bool(armed)).insert(
                    "consentShown"@,
                    Json::Bool(consent),
                ).insert("helper"@, Json::Text("rewindd"@)).insert("encoder"@, Json::Text(encoder@)),
            ),
    {
        Event {
            value: Fields::new().text("event", "ready").flag("armed", armed).flag("consentShown", consent).text(
                "helper",
                "rewindd",
            ).text("encoder", encoder).object(),
        }
    }

    /// The answer to a command.
    pub fn reply(id: u64, data: Value) -> (r: Self)
        ensures
            r@ == reply_json(id, json_of(data)),
    {
        Event {
            value: Fields::new().text("event", "reply").put("id", json::unsigned(id)).flag("ok", true).put(
                "data",
                data,
            ).object(),
        }
    }

    /// A command, or anything else, that went wrong.
    pub fn error(id: Option<u64>, error: String) -> (r: Self)
        ensures
            r@ == error_json(id, error@),
    {
        let who = match id {
            Some(n) => json::unsigned(n),
            None => json::null(),
        };
        Event {
            value: Fields::new().text("event", "error").put("id", who).flag("ok", false).text(
                "error",
                error.as_str(),
            ).object(),
        }
    }

    /// The state of the daemon.
    pub fn from_stats(data: Value) -> (r: Self)
        ensures
            r@ == state_json(json_of(data)),
    {
        let mut v = data;
        if let Some(members) = v.as_object_mut() {
            members.insert("event".to_string(), json::string("stats"));
        }
        Event { value: v }
    }

    /// A frame was captured.
    pub fn frame_written(f: &FrameInsert) -> (r: Self)
        ensures
            r@ == frame_event(f@),
    {
        Event {
            value: Fields::new().text("event", "frame-written").number("ts", f.ts).text("path", f.path.as_str()).text(
                "app",
                f.app.as_str(),
            ).text("title", f.title.as_str()).text("workspace", f.workspace.as_str()).number("bytes", f.bytes).text(
                "encoder",
                f.encoder.as_str(),
            ).object(),
        }
    }

    /// Text recognition went on.
    pub fn ocr_progress(done: i64, queued: i64) -> (r: Self)
        ensures
            r@ == progress_event(done, queued),
    {
        Event { value: Fields::new().text("event", "ocr-progress").number("done", done).number("queued", queued).object() }
    }
}

/// The whole number that a value has under a key.
pub open spec fn whole(j: Json, key: Seq<char>) -> Option<int> {
    match field_of(j, key) {
        Some(Json::Int(n)) => Some(n),
        _ => None,
    }
}

/// The stamp that a value has under a key, or zero.
pub open spec fn stamp(j: Json, key: Seq<char>) -> int {
    match whole(j, key) {
        Some(n) => if -0x8000_0000_0000_0000 <= n < 0x8000_0000_0000_0000 {
            n
        } else {
            0
        },
        None => 0,
    }
}

/// The number of rows that a value asks for, or another one.
pub open spec fn asked_rows(j: Json, other: int) -> int {
    match whole(j, "limit"@) {
        Some(n) => if 0 <= n < 0x1_0000_0000_0000_0000 {
            n
        } else {
            other
        },
        None => other,
    }
}

/// The number of a request, by which it is answered.
pub open spec fn request_id(r: Request) -> u64 {
    match r {
        Request::Hello { id } => id,
        Request::Arm { id, .. } => id,
        Request::Disarm { id } => id,
        Request::Consent { id, .. } => id,
        Request::SetPause { id, .. } => id,
        Request::Configure { id, .. } => id,
        Request::Query { id, .. } => id,
        Request::Timeline { id, .. } => id,
        Request::Moment { id, .. } => id,
        Request::Clips { id, .. } => id,
        Request::ReopenPlan { id, .. } => id,
        Request::ReopenWindow { id, .. } => id,
        Request::ReopenExec { id, .. } => id,
        Request::Wipe { id, .. } => id,
        Request::CopyClip { id, .. } => id,
        Request::Stats { id } => id,
        Request::Shutdown { id } => id,
    }
}

/// The names of the commands.
pub open spec fn is_command(name: Seq<char>) -> bool {
    ||| name == "hello"@
    ||| name == "arm"@
    ||| name == "disarm"@
    ||| name == "consent"@
    ||| name == "set-pause"@
    ||| name == "setPause"@
    ||| name == "configure"@
    ||| name == "query"@
    ||| name == "timeline"@
    ||| name == "moment"@
    ||| name == "clips"@
    ||| name == "reopen-plan"@
    ||| name == "reopenPlan"@
    ||| name == "reopen-window"@
    ||| name == "reopenWindow"@
    ||| name == "reopen-exec"@
    ||| name == "reopenExec"@
    ||| name == "wipe"@
    ||| name == "copy-clip"@
    ||| name == "copyClip"@
    ||| name == "stats"@
    ||| name == "status"@
    ||| name == "shutdown"@
}

proof fn lemma_command_names()
    ensures
        "hello"@ != "arm"@ && "hello"@ != "disarm"@ && "hello"@ != "consent"@ && "hello"@ != "set-pause"@ && "hello"@ != "setPause"@ && "hello"@ != "configure"@ && "hello"@ != "query"@ && "hello"@ != "timeline"@ && "hello"@ != "moment"@ && "hello"@ != "clips"@ && "hello"@ != "reopen-plan"@ && "hello"@ != "reopenPlan"@ && "hello"@ != "reopen-window"@ && "hello"@ != "reopenWindow"@ && "hello"@ != "reopen-exec"@ && "hello"@ != "reopenExec"@ && "hello"@ != "wipe"@ && "hello"@ != "copy-clip"@ && "hello"@ != "copyClip"@ && "hello"@ != "stats"@ && "hello"@ != "status"@ && "hello"@ != "shutdown"@,
        "arm"@ != "disarm"@ && "arm"@ != "consent"@ && "arm"@ != "set-pause"@ && "arm"@ != "setPause"@ && "arm"@ != "configure"@ && "arm"@ != "query"@ && "arm"@ != "timeline"@ && "arm"@ != "moment"@ && "arm"@ != "clips"@ && "arm"@ != "reopen-plan"@ && "arm"@ != "reopenPlan"@ && "arm"@ != "reopen-window"@ && "arm"@ != "reopenWindow"@ && "arm"@ != "reopen-exec"@ && "arm"@ != "reopenExec"@ && "arm"@ != "wipe"@ && "arm"@ != "copy-clip"@ && "arm"@ != "copyClip"@ && "arm"@ != "stats"@ && "arm"@ != "status"@ && "arm"@ != "shutdown"@,
        "disarm"@ != "consent"@ && "disarm"@ != "set-pause"@ && "disarm"@ != "setPause"@ && "disarm"@ != "configure"@ && "disarm"@ != "query"@ && "disarm"@ != "timeline"@ && "disarm"@ != "moment"@ && "disarm"@ != "clips"@ && "disarm"@ != "reopen-plan"@ && "disarm"@ != "reopenPlan"@ && "disarm"@ != "reopen-window"@ && "disarm"@ != "reopenWindow"@ && "disarm"@ != "reopen-exec"@ && "disarm"@ != "reopenExec"@ && "disarm"@ != "wipe"@ && "disarm"@ != "copy-clip"@ && "disarm"@ != "copyClip"@ && "disarm"@ != "stats"@ && "disarm"@ != "status"@ && "disarm"@ != "shutdown"@,
        "consent"@ != "set-pause"@ && "consent"@ != "setPause"@ && "consent"@ != "configure"@ && "consent"@ != "query"@ && "consent"@ != "timeline"@ && "consent"@ != "moment"@ && "consent"@ != "clips"@ && "consent"@ != "reopen-plan"@ && "consent"@ != "reopenPlan"@ && "consent"@ != "reopen-window"@ && "consent"@ != "reopenWindow"@ && "consent"@ != "reopen-exec"@ && "consent"@ != "reopenExec"@ && "consent"@ != "wipe"@ && "consent"@ != "copy-clip"@ && "consent"@ != "copyClip"@ && "consent"@ != "stats"@ && "consent"@ != "status"@ && "consent"@ != "shutdown"@,
        "set-pause"@ != "setPause"@ && "set-pause"@ != "configure"@ && "set-pause"@ != "query"@ && "set-pause"@ != "timeline"@ && "set-pause"@ != "moment"@ && "set-pause"@ != "clips"@ && "set-pause"@ != "reopen-plan"@ && "set-pause"@ != "reopenPlan"@ && "set-pause"@ != "reopen-window"@ && "set-pause"@ != "reopenWindow"@ && "set-pause"@ != "reopen-exec"@ && "set-pause"@ != "reopenExec"@ && "set-pause"@ != "wipe"@ && "set-pause"@ != "copy-clip"@ && "set-pause"@ != "copyClip"@ && "set-pause"@ != "stats"@ && "set-pause"@ != "status"@ && "set-pause"@ != "shutdown"@,
        "setPause"@ != "configure"@ && "setPause"@ != "query"@ && "setPause"@ != "timeline"@ && "setPause"@ != "moment"@ && "setPause"@ != "clips"@ && "setPause"@ != "reopen-plan"@ && "setPause"@ != "reopenPlan"@ && "setPause"@ != "reopen-window"@ && "setPause"@ != "reopenWindow"@ && "setPause"@ != "reopen-exec"@ && "setPause"@ != "reopenExec"@ && "setPause"@ != "wipe"@ && "setPause"@ != "copy-clip"@ && "setPause"@ != "copyClip"@ && "setPause"@ != "stats"@ && "setPause"@ != "status"@ && "setPause"@ != "shutdown"@,
        "configure"@ != "query"@ && "configure"@ != "timeline"@ && "configure"@ != "moment"@ && "configure"@ != "clips"@ && "configure"@ != "reopen-plan"@ && "configure"@ != "reopenPlan"@ && "configure"@ != "reopen-window"@ && "configure"@ != "reopenWindow"@ && "configure"@ != "reopen-exec"@ && "configure"@ != "reopenExec"@ && "configure"@ != "wipe"@ && "configure"@ != "copy-clip"@ && "configure"@ != "copyClip"@ && "configure"@ != "stats"@ && "configure"@ != "status"@ && "configure"@ != "shutdown"@,
        "query"@ != "timeline"@ && "query"@ != "moment"@ && "query"@ != "clips"@ && "query"@ != "reopen-plan"@ && "query"@ != "reopenPlan"@ && "query"@ != "reopen-window"@ && "query"@ != "reopenWindow"@ && "query"@ != "reopen-exec"@ && "query"@ != "reopenExec"@ && "query"@ != "wipe"@ && "query"@ != "copy-clip"@ && "query"@ != "copyClip"@ && "query"@ != "stats"@ && "query"@ != "status"@ && "query"@ != "shutdown"@,
        "timeline"@ != "moment"@ && "timeline"@ != "clips"@ && "timeline"@ != "reopen-plan"@ && "timeline"@ != "reopenPlan"@ && "timeline"@ != "reopen-window"@ && "timeline"@ != "reopenWindow"@ && "timeline"@ != "reopen-exec"@ && "timeline"@ != "reopenExec"@ && "timeline"@ != "wipe"@ && "timeline"@ != "copy-clip"@ && "timeline"@ != "copyClip"@ && "timeline"@ != "stats"@ && "timeline"@ != "status"@ && "timeline"@ != "shutdown"@,
        "moment"@ != "clips"@ && "moment"@ != "reopen-plan"@ && "moment"@ != "reopenPlan"@ && "moment"@ != "reopen-window"@ && "moment"@ != "reopenWindow"@ && "moment"@ != "reopen-exec"@ && "moment"@ != "reopenExec"@ && "moment"@ != "wipe"@ && "moment"@ != "copy-clip"@ && "moment"@ != "copyClip"@ && "moment"@ != "stats"@ && "moment"@ != "status"@ && "moment"@ != "shutdown"@,
        "clips"@ != "reopen-plan"@ && "clips"@ != "reopenPlan"@ && "clips"@ != "reopen-window"@ && "clips"@ != "reopenWindow"@ && "clips"@ != "reopen-exec"@ && "clips"@ != "reopenExec"@ && "clips"@ != "wipe"@ && "clips"@ != "copy-clip"@ && "clips"@ != "copyClip"@ && "clips"@ != "stats"@ && "clips"@ != "status"@ && "clips"@ != "shutdown"@,
        "reopen-plan"@ != "reopenPlan"@ && "reopen-plan"@ != "reopen-window"@ && "reopen-plan"@ != "reopenWindow"@ && "reopen-plan"@ != "reopen-exec"@ && "reopen-plan"@ != "reopenExec"@ && "reopen-plan"@ != "wipe"@ && "reopen-plan"@ != "copy-clip"@ && "reopen-plan"@ != "copyClip"@ && "reopen-plan"@ != "stats"@ && "reopen-plan"@ != "status"@ && "reopen-plan"@ != "shutdown"@,
        "reopenPlan"@ != "reopen-window"@ && "reopenPlan"@ != "reopenWindow"@ && "reopenPlan"@ != "reopen-exec"@ && "reopenPlan"@ != "reopenExec"@ && "reopenPlan"@ != "wipe"@ && "reopenPlan"@ != "copy-clip"@ && "reopenPlan"@ != "copyClip"@ && "reopenPlan"@ != "stats"@ && "reopenPlan"@ != "status"@ && "reopenPlan"@ != "shutdown"@,
        "reopen-window"@ != "reopenWindow"@ && "reopen-window"@ != "reopen-exec"@ && "reopen-window"@ != "reopenExec"@ && "reopen-window"@ != "wipe"@ && "reopen-window"@ != "copy-clip"@ && "reopen-window"@ != "copyClip"@ && "reopen-window"@ != "stats"@ && "reopen-window"@ != "status"@ && "reopen-window"@ != "shutdown"@,
        "reopenWindow"@ != "reopen-exec"@ && "reopenWindow"@ != "reopenExec"@ && "reopenWindow"@ != "wipe"@ && "reopenWindow"@ != "copy-clip"@ && "reopenWindow"@ != "copyClip"@ && "reopenWindow"@ != "stats"@ && "reopenWindow"@ != "status"@ && "reopenWindow"@ != "shutdown"@,
        "reopen-exec"@ != "reopenExec"@ && "reopen-exec"@ != "wipe"@ && "reopen-exec"@ != "copy-clip"@ && "reopen-exec"@ != "copyClip"@ && "reopen-exec"@ != "stats"@ && "reopen-exec"@ != "status"@ && "reopen-exec"@ != "shutdown"@,
        "reopenExec"@ != "wipe"@ && "reopenExec"@ != "copy-clip"@ && "reopenExec"@ != "copyClip"@ && "reopenExec"@ != "stats"@ && "reopenExec"@ != "status"@ && "reopenExec"@ != "shutdown"@,
        "wipe"@ != "copy-clip"@ && "wipe"@ != "copyClip"@ && "wipe"@ != "stats"@ && "wipe"@ != "status"@ && "wipe"@ != "shutdown"@,
        "copy-clip"@ != "copyClip"@ && "copy-clip"@ != "stats"@ && "copy-clip"@ != "status"@ && "copy-clip"@ != "shutdown"@,
        "copyClip"@ != "stats"@ && "copyClip"@ != "status"@ && "copyClip"@ != "shutdown"@,
        "stats"@ != "status"@ && "stats"@ != "shutdown"@,
        "status"@ != "shutdown"@,
{
    reveal_strlit("hello");
    reveal_strlit("arm");
    reveal_strlit("disarm");
    reveal_strlit("consent");
    reveal_strlit("set-pause");
    reveal_strlit("setPause");
    reveal_strlit("configure");
    reveal_strlit("query");
    reveal_strlit("timeline");
    reveal_strlit("moment");
    reveal_strlit("clips");
    reveal_strlit("reopen-plan");
    reveal_strlit("reopenPlan");
    reveal_strlit("reopen-window");
    reveal_strlit("reopenWindow");
    reveal_strlit("reopen-exec");
    reveal_strlit("reopenExec");
    reveal_strlit("wipe");
    reveal_strlit("copy-clip");
    reveal_strlit("copyClip");
    reveal_strlit("stats");
    reveal_strlit("status");
    reveal_strlit("shutdown");
    assert("hello"@.len() != "arm"@.len());
    assert("hello"@.len() != "disarm"@.len());
    assert("hello"@.len() != "consent"@.len());
    assert("hello"@.len() != "set-pause"@.len());
    assert("hello"@.len() != "setPause"@.len());
    assert("hello"@.len() != "configure"@.len());
    assert("hello"@[0] != "query"@[0]);
    assert("hello"@.len() != "timeline"@.len());
    assert("hello"@.len() != "moment"@.len());
    assert("hello"@[0] != "clips"@[0]);
    assert("hello"@.len() != "reopen-plan"@.len());
    assert("hello"@.len() != "reopenPlan"@.len());
    assert("hello"@.len() != "reopen-window"@.len());
    assert("hello"@.len() != "reopenWindow"@.len());
    assert("hello"@.len() != "reopen-exec"@.len());
    assert("hello"@.len() != "reopenExec"@.len());
    assert("hello"@.len() != "wipe"@.len());
    assert("hello"@.len() != "copy-clip"@.len());
    assert("hello"@.len() != "copyClip"@.len());
    assert("hello"@[0] != "stats"@[0]);
    assert("hello"@.len() != "status"@.len());
    assert("hello"@.len() != "shutdown"@.len());
    assert("arm"@.len() != "disarm"@.len());
    assert("arm"@.len() != "consent"@.len());
    assert("arm"@.len() != "set-pause"@.len());
    assert("arm"@.len() != "setPause"@.len());
    assert("arm"@.len() != "configure"@.len());
    assert("arm"@.len() != "query"@.len());
    assert("arm"@.len() != "timeline"@.len());
    assert("arm"@.len() != "moment"@.len());
    assert("arm"@.len() != "clips"@.len());
    assert("arm"@.len() != "reopen-plan"@.len());
    assert("arm"@.len() != "reopenPlan"@.len());
    assert("arm"@.len() != "reopen-window"@.len());
    assert("arm"@.len() != "reopenWindow"@.len());
    assert("arm"@.len() != "reopen-exec"@.len());
    assert("arm"@.len() != "reopenExec"@.len());
    assert("arm"@.len() != "wipe"@.len());
    assert("arm"@.len() != "copy-clip"@.len());
    assert("arm"@.len() != "copyClip"@.len());
    assert("arm"@.len() != "stats"@.len());
    assert("arm"@.len() != "status"@.len());
    assert("arm"@.len() != "shutdown"@.len());
    assert("disarm"@.len() != "consent"@.len());
    assert("disarm"@.len() != "set-pause"@.len());
    assert("disarm"@.len() != "setPause"@.len());
    assert("disarm"@.len() != "configure"@.len());
    assert("disarm"@.len() != "query"@.len());
    assert("disarm"@.len() != "timeline"@.len());
    assert("disarm"@[0] != "moment"@[0]);
    assert("disarm"@.len() != "clips"@.len());
    assert("disarm"@.len() != "reopen-plan"@.len());
    assert("disarm"@.len() != "reopenPlan"@.len());
    assert("disarm"@.len() != "reopen-window"@.len());
    assert("disarm"@.len() != "reopenWindow"@.len());
    assert("disarm"@.len() != "reopen-exec"@.len());
    assert("disarm"@.len() != "reopenExec"@.len());
    assert("disarm"@.len() != "wipe"@.len());
    assert("disarm"@.len() != "copy-clip"@.len());
    assert("disarm"@.len() != "copyClip"@.len());
    assert("disarm"@.len() != "stats"@.len());
    assert("disarm"@[0] != "status"@[0]);
    assert("disarm"@.len() != "shutdown"@.len());
    assert("consent"@.len() != "set-pause"@.len());
    assert("consent"@.len() != "setPause"@.len());
    assert("consent"@.len() != "configure"@.len());
    assert("consent"@.len() != "query"@.len());
    assert("consent"@.len() != "timeline"@.len());
    assert("consent"@.len() != "moment"@.len());
    assert("consent"@.len() != "clips"@.len());
    assert("consent"@.len() != "reopen-plan"@.len());
    assert("consent"@.len() != "reopenPlan"@.len());
    assert("consent"@.len() != "reopen-window"@.len());
    assert("consent"@.len() != "reopenWindow"@.len());
    assert("consent"@.len() != "reopen-exec"@.len());
    assert("consent"@.len() != "reopenExec"@.len());
    assert("consent"@.len() != "wipe"@.len());
    assert("consent"@.len() != "copy-clip"@.len());
    assert("consent"@.len() != "copyClip"@.len());
    assert("consent"@.len() != "stats"@.len());
    assert("consent"@.len() != "status"@.len());
    assert("consent"@.len() != "shutdown"@.len());
    assert("set-pause"@.len() != "setPause"@.len());
    assert("set-pause"@[0] != "configure"@[0]);
    assert("set-pause"@.len() != "query"@.len());
    assert("set-pause"@.len() != "timeline"@.len());
    assert("set-pause"@.len() != "moment"@.len());
    assert("set-pause"@.len() != "clips"@.len());
    assert("set-pause"@.len() != "reopen-plan"@.len());
    assert("set-pause"@.len() != "reopenPlan"@.len());
    assert("set-pause"@.len() != "reopen-window"@.len());
    assert("set-pause"@.len() != "reopenWindow"@.len());
    assert("set-pause"@.len() != "reopen-exec"@.len());
    assert("set-pause"@.len() != "reopenExec"@.len());
    assert("set-pause"@.len() != "wipe"@.len());
    assert("set-pause"@[0] != "copy-clip"@[0]);
    assert("set-pause"@.len() != "copyClip"@.len());
    assert("set-pause"@.len() != "stats"@.len());
    assert("set-pause"@.len() != "status"@.len());
    assert("set-pause"@.len() != "shutdown"@.len());
    assert("setPause"@.len() != "configure"@.len());
    assert("setPause"@.len() != "query"@.len());
    assert("setPause"@[0] != "timeline"@[0]);
    assert("setPause"@.len() != "moment"@.len());
    assert("setPause"@.len() != "clips"@.len());
    assert("setPause"@.len() != "reopen-plan"@.len());
    assert("setPause"@.len() != "reopenPlan"@.len());
    assert("setPause"@.len() != "reopen-window"@.len());
    assert("setPause"@.len() != "reopenWindow"@.len());
    assert("setPause"@.len() != "reopen-exec"@.len());
    assert("setPause"@.len() != "reopenExec"@.len());
    assert("setPause"@.len() != "wipe"@.len());
    assert("setPause"@.len() != "copy-clip"@.len());
    assert("setPause"@[0] != "copyClip"@[0]);
    assert("setPause"@.len() != "stats"@.len());
    assert("setPause"@.len() != "status"@.len());
    assert("setPause"@[1] != "shutdown"@[1]);
    assert("configure"@.len() != "query"@.len());
    assert("configure"@.len() != "timeline"@.len());
    assert("configure"@.len() != "moment"@.len());
    assert("configure"@.len() != "clips"@.len());
    assert("configure"@.len() != "reopen-plan"@.len());
    assert("configure"@.len() != "reopenPlan"@.len());
    assert("configure"@.len() != "reopen-window"@.len());
    assert("configure"@.len() != "reopenWindow"@.len());
    assert("configure"@.len() != "reopen-exec"@.len());
    assert("configure"@.len() != "reopenExec"@.len());
    assert("configure"@.len() != "wipe"@.len());
    assert("configure"@[2] != "copy-clip"@[2]);
    assert("configure"@.len() != "copyClip"@.len());
    assert("configure"@.len() != "stats"@.len());
    assert("configure"@.len() != "status"@.len());
    assert("configure"@.len() != "shutdown"@.len());
    assert("query"@.len() != "timeline"@.len());
    assert("query"@.len() != "moment"@.len());
    assert("query"@[0] != "clips"@[0]);
    assert("query"@.len() != "reopen-plan"@.len());
    assert("query"@.len() != "reopenPlan"@.len());
    assert("query"@.len() != "reopen-window"@.len());
    assert("query"@.len() != "reopenWindow"@.len());
    assert("query"@.len() != "reopen-exec"@.len());
    assert("query"@.len() != "reopenExec"@.len());
    assert("query"@.len() != "wipe"@.len());
    assert("query"@.len() != "copy-clip"@.len());
    assert("query"@.len() != "copyClip"@.len());
    assert("query"@[0] != "stats"@[0]);
    assert("query"@.len() != "status"@.len());
    assert("query"@.len() != "shutdown"@.len());
    assert("timeline"@.len() != "moment"@.len());
    assert("timeline"@.len() != "clips"@.len());
    assert("timeline"@.len() != "reopen-plan"@.len());
    assert("timeline"@.len() != "reopenPlan"@.len());
    assert("timeline"@.len() != "reopen-window"@.len());
    assert("timeline"@.len() != "reopenWindow"@.len());
    assert("timeline"@.len() != "reopen-exec"@.len());
    assert("timeline"@.len() != "reopenExec"@.len());
    assert("timeline"@.len() != "wipe"@.len());
    assert("timeline"@.len() != "copy-clip"@.len());
    assert("timeline"@[0] != "copyClip"@[0]);
    assert("timeline"@.len() != "stats"@.len());
    assert("timeline"@.len() != "status"@.len());
    assert("timeline"@[0] != "shutdown"@[0]);
    assert("moment"@.len() != "clips"@.len());
    assert("moment"@.len() != "reopen-plan"@.len());
    assert("moment"@.len() != "reopenPlan"@.len());
    assert("moment"@.len() != "reopen-window"@.len());
    assert("moment"@.len() != "reopenWindow"@.len());
    assert("moment"@.len() != "reopen-exec"@.len());
    assert("moment"@.len() != "reopenExec"@.len());
    assert("moment"@.len() != "wipe"@.len());
    assert("moment"@.len() != "copy-clip"@.len());
    assert("moment"@.len() != "copyClip"@.len());
    assert("moment"@.len() != "stats"@.len());
    assert("moment"@[0] != "status"@[0]);
    assert("moment"@.len() != "shutdown"@.len());
    assert("clips"@.len() != "reopen-plan"@.len());
    assert("clips"@.len() != "reopenPlan"@.len());
    assert("clips"@.len() != "reopen-window"@.len());
    assert("clips"@.len() != "reopenWindow"@.len());
    assert("clips"@.len() != "reopen-exec"@.len());
    assert("clips"@.len() != "reopenExec"@.len());
    assert("clips"@.len() != "wipe"@.len());
    assert("clips"@.len() != "copy-clip"@.len());
    assert("clips"@.len() != "copyClip"@.len());
    assert("clips"@[0] != "stats"@[0]);
    assert("clips"@.len() != "status"@.len());
    assert("clips"@.len() != "shutdown"@.len());
    assert("reopen-plan"@.len() != "reopenPlan"@.len());
    assert("reopen-plan"@.len() != "reopen-window"@.len());
    assert("reopen-plan"@.len() != "reopenWindow"@.len());
    assert("reopen-plan"@[7] != "reopen-exec"@[7]);
    assert("reopen-plan"@.len() != "reopenExec"@.len());
    assert("reopen-plan"@.len() != "wipe"@.len());
    assert("reopen-plan"@.len() != "copy-clip"@.len());
    assert("reopen-plan"@.len() != "copyClip"@.len());
    assert("reopen-plan"@.len() != "stats"@.len());
    assert("reopen-plan"@.len() != "status"@.len());
    assert("reopen-plan"@.len() != "shutdown"@.len());
    assert("reopenPlan"@.len() != "reopen-window"@.len());
    assert("reopenPlan"@.len() != "reopenWindow"@.len());
    assert("reopenPlan"@.len() != "reopen-exec"@.len());
    assert("reopenPlan"@[6] != "reopenExec"@[6]);
    assert("reopenPlan"@.len() != "wipe"@.len());
    assert("reopenPlan"@.len() != "copy-clip"@.len());
    assert("reopenPlan"@.len() != "copyClip"@.len());
    assert("reopenPlan"@.len() != "stats"@.len());
    assert("reopenPlan"@.len() != "status"@.len());
    assert("reopenPlan"@.len() != "shutdown"@.len());
    assert("reopen-window"@.len() != "reopenWindow"@.len());
    assert("reopen-window"@.len() != "reopen-exec"@.len());
    assert("reopen-window"@.len() != "reopenExec"@.len());
    assert("reopen-window"@.len() != "wipe"@.len());
    assert("reopen-window"@.len() != "copy-clip"@.len());
    assert("reopen-window"@.len() != "copyClip"@.len());
    assert("reopen-window"@.len() != "stats"@.len());
    assert("reopen-window"@.len() != "status"@.len());
    assert("reopen-window"@.len() != "shutdown"@.len());
    assert("reopenWindow"@.len() != "reopen-exec"@.len());
    assert("reopenWindow"@.len() != "reopenExec"@.len());
    assert("reopenWindow"@.len() != "wipe"@.len());
    assert("reopenWindow"@.len() != "copy-clip"@.len());
    assert("reopenWindow"@.len() != "copyClip"@.len());
    assert("reopenWindow"@.len() != "stats"@.len());
    assert("reopenWindow"@.len() != "status"@.len());
    assert("reopenWindow"@.len() != "shutdown"@.len());
    assert("reopen-exec"@.len() != "reopenExec"@.len());
    assert("reopen-exec"@.len() != "wipe"@.len());
    assert("reopen-exec"@.len() != "copy-clip"@.len());
    assert("reopen-exec"@.len() != "copyClip"@.len());
    assert("reopen-exec"@.len() != "stats"@.len());
    assert("reopen-exec"@.len() != "status"@.len());
    assert("reopen-exec"@.len() != "shutdown"@.len());
    assert("reopenExec"@.len() != "wipe"@.len());
    assert("reopenExec"@.len() != "copy-clip"@.len());
    assert("reopenExec"@.len() != "copyClip"@.len());
    assert("reopenExec"@.len() != "stats"@.len());
    assert("reopenExec"@.len() != "status"@.len());
    assert("reopenExec"@.len() != "shutdown"@.len());
    assert("wipe"@.len() != "copy-clip"@.len());
    assert("wipe"@.len() != "copyClip"@.len());
    assert("wipe"@.len() != "stats"@.len());
    assert("wipe"@.len() != "status"@.len());
    assert("wipe"@.len() != "shutdown"@.len());
    assert("copy-clip"@.len() != "copyClip"@.len());
    assert("copy-clip"@.len() != "stats"@.len());
    assert("copy-clip"@.len() != "status"@.len());
    assert("copy-clip"@.len() != "shutdown"@.len());
    assert("copyClip"@.len() != "stats"@.len());
    assert("copyClip"@.len() != "status"@.len());
    assert("copyClip"@[0] != "shutdown"@[0]);
    assert("stats"@.len() != "status"@.len());
    assert("stats"@.len() != "shutdown"@.len());
    assert("status"@.len() != "shutdown"@.len());
}

/// Every command is known by its name, under `cmd` or else under `type`, and
/// nothing else is; a request has the number that the value has under `id`, or
/// zero.
pub proof fn law_commands_are_known_by_name(j: Json, name: Seq<char>)
    requires
        field_of(j, "cmd"@) == Some(Json::Text(name)) || (field_of(j, "cmd"@) is None && field_of(j, "type"@) == Some(
            Json::Text(name),
        )),
    ensures
        request_in(j) is Ok <==> is_command(name),
        !is_command(name) ==> request_in(j) == Err::<Request, Seq<char>>("unknown cmd: "@ + name),
        request_in(j) matches Ok(r) ==> {
            &&& whole(j, "id"@) matches Some(n) ==> (0 <= n < 0x1_0000_0000_0000_0000 ==> request_id(r) == n)
            &&& whole(j, "id"@) is None ==> request_id(r) == 0
            &&& r is Hello <==> name == "hello"@
            &&& r is Arm <==> name == "arm"@
            &&& r is Disarm <==> name == "disarm"@
            &&& r is Consent <==> name == "consent"@
            &&& r is SetPause <==> name == "set-pause"@ || name == "setPause"@
            &&& r is Configure <==> name == "configure"@
            &&& r is Query <==> name == "query"@
            &&& r is Timeline <==> name == "timeline"@
            &&& r is Moment <==> name == "moment"@
            &&& r is Clips <==> name == "clips"@
            &&& r is ReopenPlan <==> name == "reopen-plan"@ || name == "reopenPlan"@
            &&& r is ReopenWindow <==> name == "reopen-window"@ || name == "reopenWindow"@
            &&& r is ReopenExec <==> name == "reopen-exec"@ || name == "reopenExec"@
            &&& r is Wipe <==> name == "wipe"@
            &&& r is CopyClip <==> name == "copy-clip"@ || name == "copyClip"@
            &&& r is Stats <==> name == "stats"@ || name == "status"@
            &&& r is Shutdown <==> name == "shutdown"@
        },
{
    lemma_command_names();
}

/// A value without a name that is a text makes no request.
pub proof fn law_a_command_needs_a_name(j: Json)
    requires
        field_of(j, "cmd"@) is None && !(field_of(j, "type"@) matches Some(Json::Text(_))) || (field_of(j, "cmd"@) is Some
            && !(field_of(j, "cmd"@) matches Some(Json::Text(_)))),
    ensures
        request_in(j) == Err::<Request, Seq<char>>("missing cmd"@),
{
}

/// A request takes over what the value has under its own keys; what is missing
/// has its usual value.
pub proof fn law_requests_take_over_their_members(j: Json)
    ensures
        request_in(j) matches Ok(Request::Arm { id, settings }) ==> settings == j,
        request_in(j) matches Ok(Request::Configure { id, settings }) ==> settings == j,
        request_in(j) matches Ok(Request::Consent { id, arm_now, arm_on_login }) ==> {
            &&& arm_now <==> field_of(j, "armNow"@) == Some(Json::Bool(true))
            &&& arm_on_login <==> field_of(j, "armOnLogin"@) == Some(Json::Bool(true))
        },
        request_in(j) matches Ok(Request::SetPause { id, reason, paused }) ==> {
            &&& paused <==> field_of(j, "paused"@) != Some(Json::Bool(false))
            &&& field_of(j, "reason"@) matches Some(Json::Text(s)) ==> reason == s
            &&& field_of(j, "reason"@) is None ==> reason == ""@
        },
        request_in(j) matches Ok(Request::Query { id, q, limit, from, to }) ==> {
            &&& field_of(j, "q"@) matches Some(Json::Text(s)) ==> q == s
            &&& field_of(j, "q"@) is None ==> (field_of(j, "query"@) matches Some(Json::Text(s)) ==> q == s)
            &&& field_of(j, "q"@) is None && field_of(j, "query"@) is None ==> q == ""@
            &&& asked_rows(j, 50) <= usize::MAX ==> limit == asked_rows(j, 50)
            &&& from == stamp(j, "from"@) && to == stamp(j, "to"@)
        },
        request_in(j) matches Ok(Request::Timeline { id, from, to, limit }) ==> {
            &&& asked_rows(j, 400) <= usize::MAX ==> limit == asked_rows(j, 400)
            &&& from == stamp(j, "from"@) && to == stamp(j, "to"@)
        },
        request_in(j) matches Ok(Request::Clips { id, limit }) ==> (asked_rows(j, 100) <= usize::MAX ==> limit
            == asked_rows(j, 100)),
        request_in(j) matches Ok(Request::Moment { id, ts }) ==> ts == stamp(j, "ts"@),
        request_in(j) matches Ok(Request::ReopenPlan { id, ts }) ==> ts == stamp(j, "ts"@),
        request_in(j) matches Ok(Request::CopyClip { id, ts }) ==> ts == stamp(j, "ts"@),
        request_in(j) matches Ok(Request::ReopenWindow { id, ts, target }) ==> {
            &&& ts == stamp(j, "ts"@)
            &&& field_of(j, "target"@) matches Some(x) ==> target == x
        },
        request_in(j) matches Ok(Request::ReopenExec { id, plan }) ==> (field_of(j, "plan"@) matches Some(x) ==> plan == x),
        request_in(j) matches Ok(Request::Wipe { id, scope, from, to }) ==> {
            &&& field_of(j, "scope"@) matches Some(Json::Text(s)) ==> scope == s
            &&& field_of(j, "scope"@) is None ==> scope == "today"@
            &&& from == stamp(j, "from"@) && to == stamp(j, "to"@)
        },
{
}

/// An answer carries the number of its command and what is answered; an error
/// carries the number, if there is one, and what went wrong.
pub proof fn law_answers_are_told(id: u64, data: Json, error: Seq<char>)
    ensures
        field_of(reply_json(id, data), "event"@) == Some(Json::Text("reply"@)),
        field_of(reply_json(id, data), "id"@) == Some(Json::Int(id as int)),
        field_of(reply_json(id, data), "ok"@) == Some(Json::Bool(true)),
        field_of(reply_json(id, data), "data"@) == Some(data),
        field_of(error_json(Some(id), error), "event"@) == Some(Json::Text("error"@)),
        field_of(error_json(Some(id), error), "id"@) == Some(Json::Int(id as int)),
        field_of(error_json(None, error), "id"@) == Some(Json::Null),
        field_of(error_json(Some(id), error), "ok"@) == Some(Json::Bool(false)),
        field_of(error_json(Some(id), error), "error"@) == Some(Json::Text(error)),
        data is Object ==> field_of(state_json(data), "event"@) == Some(Json::Text("stats"@)),
        forall|key: Seq<char>| data is Object && key != "event"@ ==> #[trigger] field_of(state_json(data), key) == field_of(
            data,
            key,
        ),
{
    reveal_strlit("event");
    reveal_strlit("id");
    reveal_strlit("ok");
    reveal_strlit("data");
    reveal_strlit("error");
    assert("event"@.len() != "id"@.len());
    assert("event"@.len() != "ok"@.len());
    assert("event"@.len() != "data"@.len());
    assert("event"@[1] != "error"@[1]);
    assert("id"@[0] != "ok"@[0]);
    assert("id"@.len() != "data"@.len());
    assert("id"@.len() != "error"@.len());
    assert("ok"@.len() != "data"@.len());
    assert("ok"@.len() != "error"@.len());
    assert("data"@.len() != "error"@.len());
}

/// What is told of a frame, and of the reading of crops.
pub proof fn law_news_are_told(f: FrameRow, done: i64, queued: i64)
    ensures
        ({
            let e = frame_event(f);
            &&& field_of(e, "event"@) == Some(Json::Text("frame-written"@))
            &&& field_of(e, "ts"@) == Some(Json::Int(f.ts as int))
            &&& field_of(e, "path"@) == Some(Json::Text(f.path))
            &&& field_of(e, "app"@) == Some(Json::Text(f.app))
            &&& field_of(e, "title"@) == Some(Json::Text(f.title))
            &&& field_of(e, "workspace"@) == Some(Json::Text(f.workspace))
            &&& field_of(e, "bytes"@) == Some(Json::Int(f.bytes as int))
            &&& field_of(e, "encoder"@) == Some(Json::Text(f.encoder))
        }),
        ({
            let e = progress_event(done, queued);
            &&& field_of(e, "event"@) == Some(Json::Text("ocr-progress"@))
            &&& field_of(e, "done"@) == Some(Json::Int(done as int))
            &&& field_of(e, "queued"@) == Some(Json::Int(queued as int))
        }),
{
    reveal_strlit("event");
    reveal_strlit("ts");
    reveal_strlit("path");
    reveal_strlit("app");
    reveal_strlit("title");
    reveal_strlit("workspace");
    reveal_strlit("bytes");
    reveal_strlit("encoder");
    assert("event"@.len() != "ts"@.len());
    assert("event"@.len() != "path"@.len());
    assert("event"@.len() != "app"@.len());
    assert("event"@[0] != "title"@[0]);
    assert("event"@.len() != "workspace"@.len());
    assert("event"@[0] != "bytes"@[0]);
    assert("event"@.len() != "encoder"@.len());
    assert("ts"@.len() != "path"@.len());
    assert("ts"@.len() != "app"@.len());
    assert("ts"@.len() != "title"@.len());
    assert("ts"@.len() != "workspace"@.len());
    assert("ts"@.len() != "bytes"@.len());
    assert("ts"@.len() != "encoder"@.len());
    assert("path"@.len() != "app"@.len());
    assert("path"@.len() != "title"@.len());
    assert("path"@.len() != "workspace"@.len());
    assert("path"@.len() != "bytes"@.len());
    assert("path"@.len() != "encoder"@.len());
    assert("app"@.len() != "title"@.len());
    assert("app"@.len() != "workspace"@.len());
    assert("app"@.len() != "bytes"@.len());
    assert("app"@.len() != "encoder"@.len());
    assert("title"@.len() != "workspace"@.len());
    assert("title"@[0] != "bytes"@[0]);
    assert("title"@.len() != "encoder"@.len());
    assert("workspace"@.len() != "bytes"@.len());
    assert("workspace"@.len() != "encoder"@.len());
    assert("bytes"@.len() != "encoder"@.len());
    reveal_strlit("event");
    reveal_strlit("done");
    reveal_strlit("queued");
    assert("event"@.len() != "done"@.len());
    assert("event"@.len() != "queued"@.len());
    assert("done"@.len() != "queued"@.len());
}

/// The daemon is up.
pub open spec fn ready_json(armed: bool, consent: bool, encoder: Seq<char>) -> Json {
    Json::Object(
        no_entries().insert("event"@, Json::Text("ready"@)).insert("armed"@, Json::Bool(armed)).insert(
            "consentShown"@,
            Json::Bool(consent),
        ).insert("helper"@, Json::Text("rewindd"@)).insert("encoder"@, Json::Text(encoder)),
    )
}

/// Once it is up the daemon tells whether it records, whether it was consented to,
/// who it is and how it encodes.
pub proof fn law_the_daemon_is_up(armed: bool, consent: bool, encoder: Seq<char>)
    ensures
        ({
            let j = ready_json(armed, consent, encoder);
            &&& field_of(j, "event"@) == Some(Json::Text("ready"@))
            &&& field_of(j, "armed"@) == Some(Json::Bool(armed))
            &&& field_of(j, "consentShown"@) == Some(Json::Bool(consent))
            &&& field_of(j, "helper"@) == Some(Json::Text("rewindd"@))
            &&& field_of(j, "encoder"@) == Some(Json::Text(encoder))
        }),
{
    reveal_strlit("event");
    reveal_strlit("armed");
    reveal_strlit("consentShown");
    reveal_strlit("helper");
    reveal_strlit("encoder");
    assert("event"@[0] != "armed"@[0]);
    assert("event"@.len() != "consentShown"@.len());
    assert("event"@.len() != "helper"@.len());
    assert("event"@.len() != "encoder"@.len());
    assert("armed"@.len() != "consentShown"@.len());
    assert("armed"@.len() != "helper"@.len());
    assert("armed"@.len() != "encoder"@.len());
    assert("consentShown"@.len() != "helper"@.len());
    assert("consentShown"@.len() != "encoder"@.len());
    assert("helper"@.len() != "encoder"@.len());
}

} // verus!
