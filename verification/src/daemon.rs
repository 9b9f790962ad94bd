//! What the daemon does: how it obeys a command, and how it goes about a frame
//! and a crop.
use crate::gate::{reason_name, Daemon, Sight, SightRow, State};
use crate::archive::Tables;
use crate::clipboard::Stretch;
use crate::config::{merged, Numbers, SettingsRow};
use crate::dhash;
use crate::exclude;
use crate::hypr::{ActiveRow, ActiveWindow, Monitor};
use crate::ipc::{error_json, outcome, reply_json, request_on, Command, Event, Request};
use crate::json::{self, json_of, no_entries, Fields, Json};
use crate::lookup::{clip_in, StatsSnap};
use crate::pause::{self, PauseReason};
use crate::plan::{self, listed_steps, ran_json, requests};
use crate::query;
use crate::rows::{FrameInsert, FrameRow};
use crate::store::Store;
use crate::table::row_at;
use crate::text::{self, bytes_in, decimal, texts, trim};
use crate::tx::{stepped, Step, Tx};
use crate::views::{clips_json, timeline_json};
use serde_json::Value;
use vstd::prelude::*;

verus! {

/// The version of the daemon.
pub const VERSION: &'static str = "0.1.0";

/// What goes with a command: when it came, the numbers among its settings, and
/// what was to be seen then.
#[derive(Debug)]
pub struct Asked {
    pub now: i64,
    pub numbers: Numbers,
    pub sight: Sight,
}

/// What is to be done for a command.
#[derive(Debug)]
pub enum Action {
    /// Tell this.
    Tell(Event),
    /// Answer with the state of the daemon, and tell it to everybody; where `save`
    /// says so, write the settings down first.
    State { id: u64, save: bool },
    /// Answer with the state of the daemon.
    Stats { id: u64 },
    Search { id: u64, q: String, limit: usize, from: i64, to: i64 },
    Moment { id: u64, ts: i64 },
    Plan { id: u64, ts: i64 },
    PlanWindow { id: u64, target: Value },
    /// Ask the compositor for these, and answer.
    Dispatch { id: u64, asked: Vec<String>, answer: Value },
    Wipe { id: u64, scope: String, from: i64, to: i64 },
    /// Make this the clipboard text.
    Copy { id: u64, content: String },
    /// Tell this, and stop.
    Stop(Event),
}

/// What is to be done, as it is told.
pub enum Doing {
    Tell(Json),
    State { id: u64, save: bool },
    Stats { id: u64 },
    Search { id: u64, q: Seq<char>, limit: usize, from: i64, to: i64 },
    Moment { id: u64, ts: i64 },
    Plan { id: u64, ts: i64 },
    PlanWindow { id: u64, target: Json },
    Dispatch { id: u64, asked: Seq<Seq<char>>, answer: Json },
    Wipe { id: u64, scope: Seq<char>, from: i64, to: i64 },
    Copy { id: u64, content: Seq<char> },
    Stop(Json),
}

impl View for Action {
    type V = Doing;

    open spec fn view(&self) -> Doing {
        match *self {
            Action::Tell(e) => Doing::Tell(e@),
            Action::State { id, save } => Doing::State { id, save },
            Action::Stats { id } => Doing::Stats { id },
            Action::Search { id, q, limit, from, to } => Doing::Search { id, q: q@, limit, from, to },
            Action::Moment { id, ts } => Doing::Moment { id, ts },
            Action::Plan { id, ts } => Doing::Plan { id, ts },
            Action::PlanWindow { id, target } => Doing::PlanWindow { id, target: json_of(target) },
            Action::Dispatch { id, asked, answer } => Doing::Dispatch {
                id,
                asked: texts(asked@),
                answer: json_of(answer),
            },
            Action::Wipe { id, scope, from, to } => Doing::Wipe { id, scope: scope@, from, to },
            Action::Copy { id, content } => Doing::Copy { id, content: content@ },
            Action::Stop(e) => Doing::Stop(e@),
        }
    }
}

/// The daemon after a command.
pub open spec fn obeyed(s: State, r: Request, numbers: Numbers, sight: SightRow, now: i64) -> State {
    match r {
        Request::Arm { id, settings } => if s.consented() {
            s.asked_to_arm(settings, numbers).refreshed(sight, now).saved()
        } else {
            s
        },
        Request::Disarm { id } => s.switched(false).refreshed(sight, now),
        Request::Consent { id, arm_now, arm_on_login } => s.given_consent(now, arm_on_login, arm_now).refreshed(
            sight,
            now,
        ),
        Request::SetPause { id, reason, paused } => if reason == "overlay"@ {
            State { overlay_open: paused, ..s }.refreshed(sight, now)
        } else {
            s.refreshed(sight, now)
        },
        Request::Configure { id, settings } => s.configured(settings, numbers).refreshed(sight, now).saved(),
        _ => s,
    }
}

/// What is to be done for a command.
pub open spec fn doing_for(
    s: State,
    r: Request,
    t: Tables,
    root: Seq<char>,
    numbers: Numbers,
    sight: SightRow,
    now: i64,
) -> Doing {
    match r {
        Request::Hello { id } => Doing::Tell(
            reply_json(id, Json::Object(no_entries().insert("version"@, Json::Text(VERSION@)))),
        ),
        Request::Arm { id, settings } => if s.consented() {
            Doing::State { id, save: s.asked_to_arm(settings, numbers).refreshed(sight, now).records() }
        } else {
            Doing::Tell(error_json(Some(id), "consent required"@))
        },
        Request::Disarm { id } => Doing::State { id, save: false },
        Request::Consent { id, arm_now, arm_on_login } => Doing::State { id, save: true },
        Request::SetPause { id, reason, paused } => Doing::State { id, save: false },
        Request::Configure { id, settings } => Doing::State {
            id,
            save: s.configured(settings, numbers).refreshed(sight, now).records(),
        },
        Request::Query { id, q, limit, from, to } => Doing::Search { id, q, limit, from, to },
        Request::Timeline { id, from, to, limit } => Doing::Tell(
            reply_json(id, timeline_json(t, root, from, to, limit as int)),
        ),
        Request::Moment { id, ts } => Doing::Moment { id, ts },
        Request::Clips { id, limit } => Doing::Tell(reply_json(id, clips_json(t, limit as int))),
        Request::ReopenPlan { id, ts } => Doing::Plan { id, ts },
        Request::ReopenWindow { id, ts, target } => Doing::PlanWindow { id, target },
        Request::ReopenExec { id, plan } => Doing::Dispatch {
            id,
            asked: requests(listed_steps(plan)),
            answer: ran_json(listed_steps(plan)),
        },
        Request::Wipe { id, scope, from, to } => Doing::Wipe { id, scope, from, to },
        Request::CopyClip { id, ts } => if clip_in(t, ts).len() == 0 {
            Doing::Tell(error_json(Some(id), "no clip at that moment"@))
        } else {
            Doing::Copy { id, content: clip_in(t, ts) }
        },
        Request::Stats { id } => Doing::Stats { id },
        Request::Shutdown { id } => Doing::Stop(
            reply_json(id, Json::Object(no_entries().insert("bye"@, Json::Bool(true)))),
        ),
    }
}

impl Daemon {
    /// Obey a command as far as that needs nothing but the archive, and say what
    /// else is to be done.
    pub fn handle_command(&mut self, store: &Store, cmd: Command, asked: &Asked) -> (r: Action)
        ensures
            final(self)@ == obeyed(old(self)@, cmd@, asked.numbers, asked.sight@, asked.now),
            r@ == doing_for(
                old(self)@,
                cmd@,
                store@,
                store.home(),
                asked.numbers,
                asked.sight@,
                asked.now,
            ),
    {
        match cmd {
            Command::Hello { id } => {
                let data = Fields::new().text("version", VERSION).object();
                Action::Tell(Event::reply(id, data))
            },
            Command::Arm { id, settings } => {
                if !self.arm(&settings, &asked.numbers) {
                    return Action::Tell(Event::error(Some(id), "consent required".to_string()));
                }
                self.refresh_pause(&asked.sight, asked.now);
                let save = self.save_now();
                Action::State { id, save }
            },
            Command::Disarm { id } => {
                self.disarm();
                self.refresh_pause(&asked.sight, asked.now);
                Action::State { id, save: false }
            },
            Command::Consent { id, arm_now, arm_on_login } => {
                self.consent(asked.now, arm_on_login, arm_now);
                self.refresh_pause(&asked.sight, asked.now);
                Action::State { id, save: true }
            },
            Command::SetPause { id, reason, paused } => {
                if text::same(reason.as_str(), "overlay") {
                    self.set_overlay(paused);
                }
                self.refresh_pause(&asked.sight, asked.now);
                Action::State { id, save: false }
            },
            Command::Configure { id, settings } => {
                self.configure(&settings, &asked.numbers);
                self.refresh_pause(&asked.sight, asked.now);
                let save = self.save_now();
                Action::State { id, save }
            },
            Command::Query { id, q, limit, from, to } => Action::Search { id, q, limit, from, to },
            Command::Timeline { id, from, to, limit } => Action::Tell(
                Event::reply(id, store.timeline(from, to, limit)),
            ),
            Command::Moment { id, ts } => Action::Moment { id, ts },
            Command::Clips { id, limit } => Action::Tell(Event::reply(id, store.clips(limit))),
            Command::ReopenPlan { id, ts } => Action::Plan { id, ts },
            Command::ReopenWindow { id, ts: _, target } => Action::PlanWindow { id, target },
            Command::ReopenExec { id, plan } => {
                let (asked, answer) = plan::execute_plan(&plan);
                Action::Dispatch { id, asked, answer }
            },
            Command::Wipe { id, scope, from, to } => Action::Wipe { id, scope, from, to },
            Command::CopyClip { id, ts } => {
                let content = store.clip_at(ts);
                proof {
                    crate::lookup::lemma_bytes_in(content@);
                }
                if text::byte_len(content.as_str()) == 0 {
                    return Action::Tell(Event::error(Some(id), "no clip at that moment".to_string()));
                }
                Action::Copy { id, content }
            },
            Command::Stats { id } => Action::Stats { id },
            Command::Shutdown { id } => {
                let data = Fields::new().flag("bye", true).object();
                Action::Stop(Event::reply(id, data))
            },
        }
    }
}

/// The command on a line of input, or why there is none; an empty line is passed
/// over.
pub fn next_command(line: &str) -> (r: Option<Result<Command, String>>)
    ensures
        r is None <==> trim(line@).len() == 0,
        r matches Some(c) ==> outcome(c) == request_on(trim(line@)),
{
    let bare = text::trimmed(line);
    proof {
        crate::lookup::lemma_bytes_in(bare@);
    }
    if text::byte_len(bare.as_str()) == 0 {
        return None;
    }
    Some(Command::parse(bare.as_str()))
}

/// Recording that is switched off, and an overlay that is opened, take effect
/// at once: no job may write any more, neither one that is under way nor a new
/// one. Asking for recording without consent changes nothing, and neither does
/// a command that only asks.
pub proof fn law_commands_take_effect_at_once(
    s: State,
    r: Request,
    numbers: Numbers,
    sight: SightRow,
    now: i64,
    ticket: Stretch,
)
    ensures
        r is Disarm ==> !obeyed(s, r, numbers, sight, now).lets_write(ticket) && !obeyed(
            s,
            r,
            numbers,
            sight,
            now,
        ).lets_annotate(ticket),
        (r matches Request::SetPause { id, reason, paused } && reason == "overlay"@ && paused) ==> !obeyed(
            s,
            r,
            numbers,
            sight,
            now,
        ).lets_write(ticket) && !obeyed(s, r, numbers, sight, now).lets_annotate(ticket),
        r is Arm && !s.consented() ==> obeyed(s, r, numbers, sight, now) == s,
        !(r is Arm || r is Disarm || r is Consent || r is SetPause || r is Configure) ==> obeyed(
            s,
            r,
            numbers,
            sight,
            now,
        ) == s,
{
}

/// Settings are written down at a command only where recording goes on, or where
/// the command gives consent.
pub proof fn law_commands_save_while_recording(
    s: State,
    r: Request,
    t: Tables,
    root: Seq<char>,
    numbers: Numbers,
    sight: SightRow,
    now: i64,
)
    ensures
        (doing_for(s, r, t, root, numbers, sight, now) matches Doing::State { id, save } && save) ==> r is Consent
            || obeyed(s, r, numbers, sight, now).records(),
{
}

/// What the daemon says of itself.
pub open spec fn stats_told(
    s: State,
    snap: StatsSnap,
    reason: Option<PauseReason>,
    days: Json,
    ocr_available: bool,
    capture: Seq<char>,
) -> Json {
    Json::Object(
        no_entries().insert("armed"@, Json::Bool(s.armed)).insert("consent"@, Json::Bool(s.consented())).insert(
            "paused"@,
            Json::Bool(reason is Some),
        ).insert("reason"@, Json::Text(reason_name(reason))).insert("frames"@, Json::Int(snap.frames as int)).insert(
            "framesToday"@,
            Json::Int(snap.frames_today as int),
        ).insert("bytes"@, Json::Int(snap.bytes as int)).insert(
            "byteCap"@,
            Json::Int(s.settings.byte_cap as int),
        ).insert("daysEstimate"@, days).insert("encoder"@, Json::Text(s.encoder)).insert(
            "ocrAvailable"@,
            Json::Bool(ocr_available),
        ).insert("capture"@, Json::Text(capture)).insert("version"@, Json::Text(VERSION@)),
    )
}

/// What the archive and the machine say where no daemon runs.
pub open spec fn archive_told(snap: StatsSnap, encoder: Seq<char>, ocr_available: bool, capture: Seq<char>) -> Json {
    Json::Object(
        no_entries().insert("frames"@, Json::Int(snap.frames as int)).insert(
            "framesToday"@,
            Json::Int(snap.frames_today as int),
        ).insert("bytes"@, Json::Int(snap.bytes as int)).insert("encoder"@, Json::Text(encoder)).insert(
            "ocrAvailable"@,
            Json::Bool(ocr_available),
        ).insert("capture"@, Json::Text(capture)).insert("version"@, Json::Text(VERSION@)),
    )
}

/// What the archive and the machine say where no daemon runs.
pub fn tell_archive(snap: &StatsSnap, encoder: &str, ocr_available: bool, capture: &str) -> (r: Value)
    ensures
        json_of(r) == archive_told(*snap, encoder@, ocr_available, capture@),
{
    Fields::new().number("frames", snap.frames).number("framesToday", snap.frames_today).number(
        "bytes",
        snap.bytes,
    ).text("encoder", encoder).flag("ocrAvailable", ocr_available).text("capture", capture).text(
        "version",
        VERSION,
    ).object()
}

/// The answer to a command that went well or wrong.
pub fn answer(id: u64, outcome: Result<Value, String>) -> (r: Event)
    ensures
        r@ == (match outcome {
            Ok(data) => reply_json(id, json_of(data)),
            Err(e) => error_json(Some(id), e@),
        }),
{
    match outcome {
        Ok(data) => Event::reply(id, data),
        Err(e) => Event::error(Some(id), e),
    }
}

/// The answer to a clipboard text that was to be copied, where that may have
/// failed.
pub open spec fn copy_answer(id: u64, content: Seq<char>, failure: Option<Seq<char>>) -> Json {
    match failure {
        None => reply_json(
            id,
            Json::Object(
                no_entries().insert("ok"@, Json::Bool(true)).insert("bytes"@, Json::Int(bytes_in(content) as int)),
            ),
        ),
        Some(e) => error_json(Some(id), e),
    }
}

/// The answer to a clipboard text that was to be copied.
pub fn copied(id: u64, content: &str, outcome: Result<(), String>) -> (r: Event)
    ensures
        r@ == copy_answer(
            id,
            content@,
            match outcome {
                Ok(_) => None,
                Err(e) => Some(e@),
            },
        ),
        r@ == (match outcome {
            Ok(_) => reply_json(
                id,
                Json::Object(
                    no_entries().insert("ok"@, Json::Bool(true)).insert(
                        "bytes"@,
                        Json::Int(bytes_in(content@) as int),
                    ),
                ),
            ),
            Err(e) => error_json(Some(id), e@),
        }),
{
    match outcome {
        Ok(_) => {
            let n: u64 = text::byte_len(content) as u64;
            Event::reply(id, Fields::new().flag("ok", true).put("bytes", json::unsigned(n)).object())
        },
        Err(e) => Event::error(Some(id), e),
    }
}

impl Daemon {
    /// What the daemon says of itself. `days` is how long the cap lasts at the
    /// pace so far.
    pub fn stats_json(
        &self,
        snap: &StatsSnap,
        reason: Option<PauseReason>,
        days: Value,
        ocr_available: bool,
        capture: &str,
    ) -> (r: Value)
        ensures
            json_of(r) == stats_told(self@, *snap, reason, json_of(days), ocr_available, capture@),
    {
        let why = match reason {
            Some(x) => x.as_str(),
            None => "",
        };
        Fields::new().flag("armed", self.armed).flag("consent", self.settings.consent_at > 0).flag(
            "paused",
            reason.is_some(),
        ).text("reason", why).number("frames", snap.frames).number("framesToday", snap.frames_today).number(
            "bytes",
            snap.bytes,
        ).number("byteCap", self.settings.byte_cap).put("daysEstimate", days).text(
            "encoder",
            self.encoder.as_str(),
        ).flag("ocrAvailable", ocr_available).text("capture", capture).text("version", VERSION).object()
    }
}

/// What became of a picture of the screen.
#[derive(Debug, Clone, Copy, PartialEq, Eq, Structural)]
pub enum Grabbed {
    /// Recording stood still since: forget the picture, and every file made of it.
    Rejected,
    /// It shows what the last frame shows.
    Unchanged,
    /// It is to become a frame.
    Fresh,
}

impl State {
    /// A picture shows what the last frame shows, and is not wanted again.
    pub open spec fn skips(self, dhash: u64) -> bool {
        self.last_dhash != 0 && self.last_dhash == dhash && self.settings.skip_unchanged
    }
}

/// The directory of a day's frames, by number.
pub open spec fn day_number(ts: i64) -> int {
    toward_zero(toward_zero(ts as int, 1000), 86400)
}

/// A quotient without its fraction.
pub open spec fn toward_zero(n: int, d: int) -> int {
    if n >= 0 {
        n / d
    } else {
        -((-n) / d)
    }
}

/// Where a frame's picture is kept. A picture like the one before is marked.
pub open spec fn frame_path(ts: i64, again: bool, ext: Seq<char>) -> Seq<char> {
    "frames/"@ + decimal(day_number(ts)) + "/"@ + decimal(ts as int) + (if again {
        "-d"@
    } else {
        ""@
    }) + "."@ + ext
}

/// Where a frame's crop is kept.
pub open spec fn crop_name(ts: i64) -> Seq<char> {
    "crops/"@ + decimal(ts as int) + ".png"@
}

fn day_stamp(ts: i64) -> (r: String)
    ensures
        r@ == decimal(day_number(ts)),
{
    let days: i64 = ts / 1000 / 86400;
    assert(days == day_number(ts));
    text::i64_text(days)
}

/// Where a frame's crop is kept.
pub fn crop_file(ts: i64) -> (r: String)
    ensures
        r@ == crop_name(ts),
{
    let mut s = "crops/".to_string();
    s.append(text::i64_text(ts).as_str());
    s.append(".png");
    s
}

/// A picture that was written to disk, and the crop beside it.
#[derive(Debug)]
pub struct Written {
    pub path: String,
    pub width: u32,
    pub height: u32,
    pub out_w: u32,
    pub out_h: u32,
    pub bytes: i64,
    pub encoder: String,
    pub crop: Option<String>,
    pub crop_bytes: i64,
}

/// What a picture that was written to disk says.
#[verifier::ext_equal]
pub struct WrittenRow {
    pub path: Seq<char>,
    pub width: u32,
    pub height: u32,
    pub out_w: u32,
    pub out_h: u32,
    pub bytes: i64,
    pub encoder: Seq<char>,
    pub crop: Option<Seq<char>>,
    pub crop_bytes: i64,
}

impl View for Written {
    type V = WrittenRow;

    open spec fn view(&self) -> WrittenRow {
        WrittenRow {
            path: self.path@,
            width: self.width,
            height: self.height,
            out_w: self.out_w,
            out_h: self.out_h,
            bytes: self.bytes,
            encoder: self.encoder@,
            crop: crate::rows::option_view(self.crop),
            crop_bytes: self.crop_bytes,
        }
    }
}

/// The frame of a picture that was written to disk.
pub open spec fn frame_row(ts: i64, w: WrittenRow, dhash: u64, active: ActiveRow, output: Seq<char>) -> FrameRow {
    FrameRow {
        ts,
        path: w.path,
        app: active.class,
        title: active.title,
        workspace: active.workspace,
        output,
        width: w.width as i64,
        height: w.height as i64,
        out_w: w.out_w as i64,
        out_h: w.out_h as i64,
        crop_x: active.at.0,
        crop_y: active.at.1,
        crop_w: active.size.0,
        crop_h: active.size.1,
        bytes: w.bytes,
        dhash: dhash as i64,
        encoder: w.encoder,
        crop_path: w.crop,
        crop_bytes: w.crop_bytes,
    }
}

/// The frame of a picture that was written to disk.
pub fn frame_of(ts: i64, w: Written, dhash: u64, active: &ActiveWindow, monitor: &Monitor) -> (r: FrameInsert)
    ensures
        r@ == frame_row(ts, w@, dhash, active@, monitor.name@),
{
    let r = FrameInsert {
        ts,
        path: w.path,
        app: active.class.clone(),
        title: active.title.clone(),
        workspace: active.workspace.clone(),
        output: monitor.name.clone(),
        width: w.width as i64,
        height: w.height as i64,
        out_w: w.out_w as i64,
        out_h: w.out_h as i64,
        crop_x: active.at.0,
        crop_y: active.at.1,
        crop_w: active.size.0,
        crop_h: active.size.1,
        bytes: w.bytes,
        dhash: #[verifier::truncate] (dhash as i64),
        encoder: w.encoder,
        crop_path: w.crop,
        crop_bytes: w.crop_bytes,
    };
    assert(r@ =~= frame_row(ts, w@, dhash, active@, monitor.name@));
    r
}

impl Daemon {
    /// Begin a frame of the focused output: the stretch that it belongs to.
    /// Where it is not known which output has the focus, none is captured.
    pub fn begin_capture(&self, monitor: &Monitor) -> (r: Option<Stretch>)
        ensures
            r == (if self@.records() && monitor.name@.len() > 0 {
                Some(self@.now)
            } else {
                None
            }),
    {
        proof {
            crate::lookup::lemma_bytes_in(monitor.name@);
        }
        if !self.is_recording() || text::byte_len(monitor.name.as_str()) == 0 {
            return None;
        }
        Some(self.now)
    }

    /// What becomes of a picture that was taken in a stretch of recording.
    pub fn after_grab(&mut self, ticket: Stretch, dhash: u64, sight: &Sight, ts: i64) -> (r: Grabbed)
        ensures
            final(self)@ == old(self)@.refreshed(sight@, ts),
            r == (if !final(self)@.lets_write(ticket) {
                Grabbed::Rejected
            } else if final(self)@.skips(dhash) {
                Grabbed::Unchanged
            } else {
                Grabbed::Fresh
            }),
    {
        if !self.write_allowed(ticket, sight, ts) {
            return Grabbed::Rejected;
        }
        if self.last_dhash != 0 && self.last_dhash == dhash && self.settings.skip_unchanged {
            return Grabbed::Unchanged;
        }
        Grabbed::Fresh
    }

    /// Where the picture of a frame is to be kept.
    pub fn frame_file(&self, ts: i64, dhash: u64, ext: &str) -> (r: String)
        ensures
            r@ == frame_path(ts, dhash == self@.last_dhash, ext@),
    {
        let mut s = "frames/".to_string();
        s.append(day_stamp(ts).as_str());
        s.append("/");
        s.append(text::i64_text(ts).as_str());
        s.append(if dhash == self.last_dhash { "-d" } else { "" });
        s.append(".");
        s.append(ext);
        s
    }

    /// Go on with the transaction of a job that began in a stretch of recording,
    /// where that stretch goes on.
    pub fn write_step(&mut self, tx: &mut Tx, ticket: Stretch, sight: &Sight, ts: i64) -> (r: Step)
        requires
            old(tx).wf(),
        ensures
            final(self)@ == old(self)@.refreshed(sight@, ts),
            final(tx).wf(),
            final(tx).plan() == old(tx).plan(),
            forall|s: &Store| old(tx).on(s) ==> #[trigger] final(tx).on(s),
            stepped(*old(tx), *final(tx), final(self)@.lets_write(ticket), r),
    {
        let still = self.write_allowed(ticket, sight, ts);
        tx.step(still)
    }

    /// Go on with a transaction that annotates a frame, where nothing but a lack
    /// of input makes recording stand still.
    pub fn ocr_step(&mut self, tx: &mut Tx, ticket: Stretch, sight: &Sight, ts: i64) -> (r: Step)
        requires
            old(tx).wf(),
        ensures
            final(self)@ == old(self)@.refreshed(sight@, ts),
            final(tx).wf(),
            final(tx).plan() == old(tx).plan(),
            forall|s: &Store| old(tx).on(s) ==> #[trigger] final(tx).on(s),
            stepped(*old(tx), *final(tx), final(self)@.lets_annotate(ticket), r),
    {
        let still = self.ocr_may_write(ticket, sight, ts);
        tx.step(still)
    }
}

/// A step of a transaction writes or commits only for a job of the current
/// stretch, while recording is on and does not stand still.
pub proof fn law_only_a_live_job_writes(before: Tx, after: Tx, s: State, ticket: Stretch, r: Step)
    requires
        stepped(before, after, s.lets_write(ticket), r),
    ensures
        r is Write || r is Commit ==> s.armed && s.pause is None && ticket == s.now,
        r is Abandon ==> after.state() == before.state(),
{
}

/// What is to be done about a crop.
#[derive(Debug, Clone, Copy, PartialEq, Eq, Structural)]
pub enum CropTurn {
    /// Leave this one and all the others alone.
    Stop,
    /// Leave this one alone.
    Leave,
    /// Read the text in it.
    Read,
    /// Remove it; nothing can be read in it.
    Forget,
}

/// The reason that recording stands still is that somebody is away.
pub open spec fn away(reason: Option<PauseReason>) -> bool {
    reason == Some(PauseReason::Idle) || reason == Some(PauseReason::Locked)
}

impl Daemon {
    /// Whether the text in crops may be read: recording is switched on, and
    /// somebody is away.
    pub fn is_idle(&self) -> (r: bool)
        ensures
            r == (self@.armed && away(self@.pause)),
    {
        if !self.armed {
            return false;
        }
        match self.pause {
            Some(PauseReason::Idle) => true,
            Some(PauseReason::Locked) => true,
            _ => false,
        }
    }

    /// What is to be done about a crop whose file is there or is not.
    pub fn crop_turn(&mut self, there: bool, sight: &Sight, ts: i64) -> (r: CropTurn)
        ensures
            final(self)@ == old(self)@.refreshed(sight@, ts),
            r == (if !away(final(self)@.pause) {
                CropTurn::Stop
            } else if there {
                CropTurn::Read
            } else if final(self)@.lets_annotate(final(self)@.now) {
                CropTurn::Forget
            } else {
                CropTurn::Leave
            }),
    {
        self.refresh_pause(sight, ts);
        if !self.is_idle() {
            return CropTurn::Stop;
        }
        if there {
            return CropTurn::Read;
        }
        let now = self.now;
        if self.ocr_may_write(now, sight, ts) {
            CropTurn::Forget
        } else {
            CropTurn::Leave
        }
    }
}

impl Store {
    /// The application and the title on the frame at `ts`; empty without one.
    pub fn labels_at(&self, ts: i64) -> (r: (String, String))
        ensures
            match row_at(self@.frames, ts) {
                Some(f) => r.0@ == f.app && r.1@ == f.title,
                None => r.0@.len() == 0 && r.1@.len() == 0,
            },
    {
        match self.frames().get(ts) {
            Some(f) => (f.app.clone(), f.title.clone()),
            None => (String::new(), String::new()),
        }
    }
}

/// Try the parts of the library on values whose outcome is known.
pub fn self_test() -> (r: Result<(), String>)
    ensures
        r is Ok,
{
    if let Err(e) = dhash::self_test() {
        return Err(e);
    }
    if let Err(e) = exclude::self_test() {
        return Err(e);
    }
    if let Err(e) = pause::self_test() {
        return Err(e);
    }
    if let Err(e) = plan::self_test() {
        return Err(e);
    }
    if let Err(e) = query::self_test() {
        return Err(e);
    }
    let mut store = Store::new("", true, true);
    store.self_test()
}

proof fn lemma_stats_keys()
    ensures
        "armed"@ != "consent"@ && "armed"@ != "paused"@ && "armed"@ != "reason"@ && "armed"@ != "frames"@ && "armed"@ != "framesToday"@ && "armed"@ != "bytes"@ && "armed"@ != "byteCap"@ && "armed"@ != "daysEstimate"@ && "armed"@ != "encoder"@ && "armed"@ != "ocrAvailable"@ && "armed"@ != "capture"@ && "armed"@ != "version"@,
        "consent"@ != "paused"@ && "consent"@ != "reason"@ && "consent"@ != "frames"@ && "consent"@ != "framesToday"@ && "consent"@ != "bytes"@ && "consent"@ != "byteCap"@ && "consent"@ != "daysEstimate"@ && "consent"@ != "encoder"@ && "consent"@ != "ocrAvailable"@ && "consent"@ != "capture"@ && "consent"@ != "version"@,
        "paused"@ != "reason"@ && "paused"@ != "frames"@ && "paused"@ != "framesToday"@ && "paused"@ != "bytes"@ && "paused"@ != "byteCap"@ && "paused"@ != "daysEstimate"@ && "paused"@ != "encoder"@ && "paused"@ != "ocrAvailable"@ && "paused"@ != "capture"@ && "paused"@ != "version"@,
        "reason"@ != "frames"@ && "reason"@ != "framesToday"@ && "reason"@ != "bytes"@ && "reason"@ != "byteCap"@ && "reason"@ != "daysEstimate"@ && "reason"@ != "encoder"@ && "reason"@ != "ocrAvailable"@ && "reason"@ != "capture"@ && "reason"@ != "version"@,
        "frames"@ != "framesToday"@ && "frames"@ != "bytes"@ && "frames"@ != "byteCap"@ && "frames"@ != "daysEstimate"@ && "frames"@ != "encoder"@ && "frames"@ != "ocrAvailable"@ && "frames"@ != "capture"@ && "frames"@ != "version"@,
        "framesToday"@ != "bytes"@ && "framesToday"@ != "byteCap"@ && "framesToday"@ != "daysEstimate"@ && "framesToday"@ != "encoder"@ && "framesToday"@ != "ocrAvailable"@ && "framesToday"@ != "capture"@ && "framesToday"@ != "version"@,
        "bytes"@ != "byteCap"@ && "bytes"@ != "daysEstimate"@ && "bytes"@ != "encoder"@ && "bytes"@ != "ocrAvailable"@ && "bytes"@ != "capture"@ && "bytes"@ != "version"@,
        "byteCap"@ != "daysEstimate"@ && "byteCap"@ != "encoder"@ && "byteCap"@ != "ocrAvailable"@ && "byteCap"@ != "capture"@ && "byteCap"@ != "version"@,
        "daysEstimate"@ != "encoder"@ && "daysEstimate"@ != "ocrAvailable"@ && "daysEstimate"@ != "capture"@ && "daysEstimate"@ != "version"@,
        "encoder"@ != "ocrAvailable"@ && "encoder"@ != "capture"@ && "encoder"@ != "version"@,
        "ocrAvailable"@ != "capture"@ && "ocrAvailable"@ != "version"@,
        "capture"@ != "version"@,
{
    reveal_strlit("armed");
    reveal_strlit("consent");
    reveal_strlit("paused");
    reveal_strlit("reason");
    reveal_strlit("frames");
    reveal_strlit("framesToday");
    reveal_strlit("bytes");
    reveal_strlit("byteCap");
    reveal_strlit("daysEstimate");
    reveal_strlit("encoder");
    reveal_strlit("ocrAvailable");
    reveal_strlit("capture");
    reveal_strlit("version");
    assert("armed"@.len() != "consent"@.len());
    assert("armed"@.len() != "paused"@.len());
    assert("armed"@.len() != "reason"@.len());
    assert("armed"@.len() != "frames"@.len());
    assert("armed"@.len() != "framesToday"@.len());
    assert("armed"@[0] != "bytes"@[0]);
    assert("armed"@.len() != "byteCap"@.len());
    assert("armed"@.len() != "daysEstimate"@.len());
    assert("armed"@.len() != "encoder"@.len());
    assert("armed"@.len() != "ocrAvailable"@.len());
    assert("armed"@.len() != "capture"@.len());
    assert("armed"@.len() != "version"@.len());
    assert("consent"@.len() != "paused"@.len());
    assert("consent"@.len() != "reason"@.len());
    assert("consent"@.len() != "frames"@.len());
    assert("consent"@.len() != "framesToday"@.len());
    assert("consent"@.len() != "bytes"@.len());
    assert("consent"@[0] != "byteCap"@[0]);
    assert("consent"@.len() != "daysEstimate"@.len());
    assert("consent"@[0] != "encoder"@[0]);
    assert("consent"@.len() != "ocrAvailable"@.len());
    assert("consent"@[1] != "capture"@[1]);
    assert("consent"@[0] != "version"@[0]);
    assert("paused"@[0] != "reason"@[0]);
    assert("paused"@[0] != "frames"@[0]);
    assert("paused"@.len() != "framesToday"@.len());
    assert("paused"@.len() != "bytes"@.len());
    assert("paused"@.len() != "byteCap"@.len());
    assert("paused"@.len() != "daysEstimate"@.len());
    assert("paused"@.len() != "encoder"@.len());
    assert("paused"@.len() != "ocrAvailable"@.len());
    assert("paused"@.len() != "capture"@.len());
    assert("paused"@.len() != "version"@.len());
    assert("reason"@[0] != "frames"@[0]);
    assert("reason"@.len() != "framesToday"@.len());
    assert("reason"@.len() != "bytes"@.len());
    assert("reason"@.len() != "byteCap"@.len());
    assert("reason"@.len() != "daysEstimate"@.len());
    assert("reason"@.len() != "encoder"@.len());
    assert("reason"@.len() != "ocrAvailable"@.len());
    assert("reason"@.len() != "capture"@.len());
    assert("reason"@.len() != "version"@.len());
    assert("frames"@.len() != "framesToday"@.len());
    assert("frames"@.len() != "bytes"@.len());
    assert("frames"@.len() != "byteCap"@.len());
    assert("frames"@.len() != "daysEstimate"@.len());
    assert("frames"@.len() != "encoder"@.len());
    assert("frames"@.len() != "ocrAvailable"@.len());
    assert("frames"@.len() != "capture"@.len());
    assert("frames"@.len() != "version"@.len());
    assert("framesToday"@.len() != "bytes"@.len());
    assert("framesToday"@.len() != "byteCap"@.len());
    assert("framesToday"@.len() != "daysEstimate"@.len());
    assert("framesToday"@.len() != "encoder"@.len());
    assert("framesToday"@.len() != "ocrAvailable"@.len());
    assert("framesToday"@.len() != "capture"@.len());
    assert("framesToday"@.len() != "version"@.len());
    assert("bytes"@.len() != "byteCap"@.len());
    assert("bytes"@.len() != "daysEstimate"@.len());
    assert("bytes"@.len() != "encoder"@.len());
    assert("bytes"@.len() != "ocrAvailable"@.len());
    assert("bytes"@.len() != "capture"@.len());
    assert("bytes"@.len() != "version"@.len());
    assert("byteCap"@.len() != "daysEstimate"@.len());
    assert("byteCap"@[0] != "encoder"@[0]);
    assert("byteCap"@.len() != "ocrAvailable"@.len());
    assert("byteCap"@[0] != "capture"@[0]);
    assert("byteCap"@[0] != "version"@[0]);
    assert("daysEstimate"@.len() != "encoder"@.len());
    assert("daysEstimate"@[0] != "ocrAvailable"@[0]);
    assert("daysEstimate"@.len() != "capture"@.len());
    assert("daysEstimate"@.len() != "version"@.len());
    assert("encoder"@.len() != "ocrAvailable"@.len());
    assert("encoder"@[0] != "capture"@[0]);
    assert("encoder"@[0] != "version"@[0]);
    assert("ocrAvailable"@.len() != "capture"@.len());
    assert("ocrAvailable"@.len() != "version"@.len());
    assert("capture"@[0] != "version"@[0]);
}

/// What the daemon says of itself is what it is: whether it is armed, consented
/// to and standing still, and why; what the archive holds; and what it works with.
pub proof fn law_the_state_is_told(
    s: State,
    snap: StatsSnap,
    reason: Option<PauseReason>,
    days: Json,
    ocr_available: bool,
    capture: Seq<char>,
)
    ensures
        ({
            let j = stats_told(s, snap, reason, days, ocr_available, capture);
            &&& json::field_of(j, "armed"@) == Some(Json::Bool(s.armed))
            &&& json::field_of(j, "consent"@) == Some(Json::Bool(s.settings.consent_at > 0))
            &&& json::field_of(j, "paused"@) == Some(Json::Bool(reason is Some))
            &&& json::field_of(j, "reason"@) == Some(Json::Text(reason_name(reason)))
            &&& json::field_of(j, "frames"@) == Some(Json::Int(snap.frames as int))
            &&& json::field_of(j, "framesToday"@) == Some(Json::Int(snap.frames_today as int))
            &&& json::field_of(j, "bytes"@) == Some(Json::Int(snap.bytes as int))
            &&& json::field_of(j, "byteCap"@) == Some(Json::Int(s.settings.byte_cap as int))
            &&& json::field_of(j, "daysEstimate"@) == Some(days)
            &&& json::field_of(j, "encoder"@) == Some(Json::Text(s.encoder))
            &&& json::field_of(j, "ocrAvailable"@) == Some(Json::Bool(ocr_available))
            &&& json::field_of(j, "capture"@) == Some(Json::Text(capture))
            &&& json::field_of(j, "version"@) == Some(Json::Text(VERSION@))
        }),
{
    lemma_stats_keys();
}

/// Without a daemon the same is told of the archive and the machine.
pub proof fn law_the_archive_is_told(snap: StatsSnap, encoder: Seq<char>, ocr_available: bool, capture: Seq<char>)
    ensures
        ({
            let j = archive_told(snap, encoder, ocr_available, capture);
            &&& json::field_of(j, "frames"@) == Some(Json::Int(snap.frames as int))
            &&& json::field_of(j, "framesToday"@) == Some(Json::Int(snap.frames_today as int))
            &&& json::field_of(j, "bytes"@) == Some(Json::Int(snap.bytes as int))
            &&& json::field_of(j, "encoder"@) == Some(Json::Text(encoder))
            &&& json::field_of(j, "ocrAvailable"@) == Some(Json::Bool(ocr_available))
            &&& json::field_of(j, "capture"@) == Some(Json::Text(capture))
            &&& json::field_of(j, "version"@) == Some(Json::Text(VERSION@))
            &&& json::field_of(j, "armed"@) is None
        }),
{
    lemma_stats_keys();
}

/// A command is answered under its own number, and what it asks for is asked of
/// the archive unchanged.
pub proof fn law_commands_are_answered(
    s: State,
    r: Request,
    t: Tables,
    root: Seq<char>,
    numbers: Numbers,
    sight: SightRow,
    now: i64,
)
    ensures
        ({
            let d = doing_for(s, r, t, root, numbers, sight, now);
            &&& r matches Request::Hello { id } ==> (d matches Doing::Tell(e) && json::field_of(e, "id"@) == Some(
                Json::Int(id as int),
            ) && (json::field_of(e, "data"@) matches Some(data) && json::field_of(data, "version"@) == Some(
                Json::Text(VERSION@),
            )))
            &&& r matches Request::Query { id, q, limit, from, to } ==> (d matches Doing::Search {
                id: i,
                q: p,
                limit: l,
                from: a,
                to: b,
            } && i == id && p == q && l == limit && a == from && b == to)
            &&& r matches Request::Timeline { id, from, to, limit } ==> (d matches Doing::Tell(e) && json::field_of(
                e,
                "id"@,
            ) == Some(Json::Int(id as int)) && json::field_of(e, "data"@) == Some(
                timeline_json(t, root, from, to, limit as int),
            ))
            &&& r matches Request::Clips { id, limit } ==> (d matches Doing::Tell(e) && json::field_of(e, "id"@) == Some(
                Json::Int(id as int),
            ) && json::field_of(e, "data"@) == Some(clips_json(t, limit as int)))
            &&& r matches Request::Moment { id, ts } ==> (d matches Doing::Moment { id: i, ts: k } && i == id && k == ts)
            &&& r matches Request::ReopenPlan { id, ts } ==> (d matches Doing::Plan { id: i, ts: k } && i == id && k == ts)
            &&& r matches Request::ReopenWindow { id, ts, target } ==> (d matches Doing::PlanWindow { id: i, target: w }
                && i == id && w == target)
            &&& r matches Request::ReopenExec { id, plan } ==> (d matches Doing::Dispatch { id: i, asked, answer }
                && i == id && asked == requests(listed_steps(plan)) && json::field_of(answer, "ran"@) == Some(
                Json::Int(asked.len() as int),
            ))
            &&& r matches Request::Wipe { id, scope, from, to } ==> (d matches Doing::Wipe {
                id: i,
                scope: w,
                from: a,
                to: b,
            } && i == id && w == scope && a == from && b == to)
            &&& r matches Request::Stats { id } ==> (d matches Doing::Stats { id: i } && i == id)
            &&& r matches Request::Shutdown { id } ==> (d matches Doing::Stop(e) && json::field_of(e, "id"@) == Some(
                Json::Int(id as int),
            ))
            &&& r matches Request::Disarm { id } ==> (d matches Doing::State { id: i, save } && i == id && !save)
            &&& r matches Request::SetPause { id, reason, paused } ==> (d matches Doing::State { id: i, save } && i == id
                && !save)
            &&& r matches Request::Consent { id, arm_now, arm_on_login } ==> (d matches Doing::State { id: i, save }
                && i == id && save)
            &&& r matches Request::Configure { id, settings } ==> (d matches Doing::State { id: i, save } && i == id)
            &&& r matches Request::Arm { id, settings } ==> (s.settings.consent_at > 0 ==> (d matches Doing::State {
                id: i,
                save,
            } && i == id))
            &&& r matches Request::Arm { id, settings } ==> (s.settings.consent_at <= 0 ==> (d matches Doing::Tell(e)
                && json::field_of(e, "id"@) == Some(Json::Int(id as int)) && json::field_of(e, "ok"@) == Some(
                Json::Bool(false),
            ) && json::field_of(e, "error"@) == Some(Json::Text("consent required"@))))
        }),
{
    let id = match r {
        Request::Hello { id } => id,
        Request::Timeline { id, .. } => id,
        Request::Clips { id, .. } => id,
        Request::Shutdown { id } => id,
        Request::Arm { id, .. } => id,
        _ => 0,
    };
    let version = Json::Object(no_entries().insert("version"@, Json::Text(VERSION@)));
    let bye = Json::Object(no_entries().insert("bye"@, Json::Bool(true)));
    crate::ipc::law_answers_are_told(id, version, "consent required"@);
    crate::ipc::law_answers_are_told(id, bye, "consent required"@);
    if let Request::Timeline { id: i, from, to, limit } = r {
        crate::ipc::law_answers_are_told(id, timeline_json(t, root, from, to, limit as int), "consent required"@);
    }
    if let Request::Clips { id: i, limit } = r {
        crate::ipc::law_answers_are_told(id, clips_json(t, limit as int), "consent required"@);
    }
    if let Request::ReopenExec { id: i, plan } = r {
        let steps = listed_steps(plan);
        crate::plan::law_every_step_is_carried_out(steps, steps, plan);
    }
}

/// What was copied last by a moment can be made the clipboard text again; where
/// nothing was copied by then, that is said.
pub proof fn law_a_copy_can_be_had_again(
    s: State,
    id: u64,
    ts: i64,
    t: Tables,
    root: Seq<char>,
    numbers: Numbers,
    sight: SightRow,
    now: i64,
    j: int,
)
    requires
        t.wf(),
    ensures
        ({
            let d = doing_for(s, Request::CopyClip { id, ts }, t, root, numbers, sight, now);
            &&& 0 <= j < t.clips.len() && t.clips[j].0 <= ts && (j + 1 < t.clips.len() ==> t.clips[j + 1].0 > ts)
                && t.clips[j].1.content.len() > 0 ==> (d matches Doing::Copy { id: i, content } && i == id && content
                == t.clips[j].1.content)
            &&& (forall|i: int| 0 <= i < t.clips.len() ==> (#[trigger] t.clips[i]).0 > ts) ==> (d matches Doing::Tell(e)
                && json::field_of(e, "id"@) == Some(Json::Int(id as int)) && json::field_of(e, "ok"@) == Some(
                Json::Bool(false),
            ))
        }),
{
    crate::lookup::law_the_clipboard_of_a_moment(t, ts, j);
    crate::ipc::law_answers_are_told(id, Json::Null, "no clip at that moment"@);
}

/// What a command makes of the daemon: arming needs consent and arms, disarming
/// disarms, consent is put down with its time, the overlay is open or shut as it
/// is said, and settings that are asked for leave both as they are.
pub proof fn law_what_commands_do(s: State, r: Request, numbers: Numbers, sight: SightRow, now: i64)
    ensures
        ({
            let n = obeyed(s, r, numbers, sight, now);
            &&& r is Arm && s.settings.consent_at > 0 ==> n.armed && n.settings.armed && n.settings.consent_at
                == s.settings.consent_at
            &&& r is Disarm ==> !n.armed && !n.settings.armed && n.settings == (SettingsRow {
                armed: false,
                ..s.settings
            })
            &&& r matches Request::Consent { id, arm_now, arm_on_login } ==> n.armed == arm_now && n.settings.armed
                == arm_now && n.settings.consent_at == now && n.settings.arm_on_login == arm_on_login
            &&& r matches Request::SetPause { id, reason, paused } ==> n.settings == s.settings && n.armed == s.armed
                && n.overlay_open == (if reason == "overlay"@ { paused } else { s.overlay_open })
            &&& r matches Request::Configure { id, settings } ==> n.armed == s.armed && n.settings.armed
                == s.settings.armed && n.settings.consent_at == s.settings.consent_at && n.settings == merged(
                s.settings,
                settings,
                numbers,
            )
            &&& !(r is SetPause) ==> n.overlay_open == s.overlay_open
            &&& n.last_dhash == s.last_dhash && n.encoder == s.encoder
        }),
{
}

/// A picture is passed over exactly where it is like the last one, there is a last
/// one, and the settings say so.
pub proof fn law_pictures_that_are_passed_over(s: State, dhash: u64)
    ensures
        s.skips(dhash) <==> s.settings.skip_unchanged && dhash != 0 && dhash == s.last_dhash,
{
}

/// Pictures lie in a directory for their day, counted from the epoch, and no two
/// moments share a picture or a crop.
pub proof fn law_every_moment_has_its_files(a: i64, b: i64, again_a: bool, again_b: bool, ext: Seq<char>)
    requires
        a >= 0,
        b >= 0,
    ensures
        day_number(a) * 86_400_000 <= a < (day_number(a) + 1) * 86_400_000,
        "frames/"@.is_prefix_of(frame_path(a, again_a, ext)),
        text::occurs(frame_path(a, again_a, ext), "/"@ + decimal(day_number(a)) + "/"@ + decimal(a as int)),
        ext.is_suffix_of(frame_path(a, again_a, ext)),
        frame_path(a, again_a, ext) == frame_path(b, again_b, ext) ==> a == b && again_a == again_b,
        crop_name(a) == crop_name(b) ==> a == b,
        "crops/"@.is_prefix_of(crop_name(a)) && ".png"@.is_suffix_of(crop_name(a)),
{
    text::lemma_digits(day_number(a) as nat);
    text::lemma_digits(day_number(b) as nat);
    text::lemma_digits(a as nat);
    text::lemma_digits(b as nat);
    text::law_numbers_are_read_back(a as int, b as int);
    lemma_frame_path(a, again_a, ext);
    lemma_crop_name(a);
    lemma_crop_name(b);
    if frame_path(a, again_a, ext) == frame_path(b, again_b, ext) {
        reveal_strlit("-d");
        reveal_strlit("");
        let ma = if again_a { "-d"@ } else { ""@ };
        let mb = if again_b { "-d"@ } else { ""@ };
        let da = decimal(day_number(a));
        let db = decimal(day_number(b));
        lemma_path_parts(da, decimal(a as int), ma, db, decimal(b as int), mb, ext);
    }
    if crop_name(a) == crop_name(b) {
        let n = crop_name(a).len();
        assert(crop_name(a).subrange(6, n - 4) == crop_name(b).subrange(6, n - 4));
    }
}

pub proof fn lemma_frame_path(a: i64, again: bool, ext: Seq<char>)
    ensures
        "frames/"@.is_prefix_of(frame_path(a, again, ext)),
        text::occurs(frame_path(a, again, ext), "/"@ + decimal(day_number(a)) + "/"@ + decimal(a as int)),
        ext.is_suffix_of(frame_path(a, again, ext)),
{
    reveal_strlit("frames/");
    reveal_strlit("/");
    let p = frame_path(a, again, ext);
    let inner = "/"@ + decimal(day_number(a)) + "/"@ + decimal(a as int);
    assert("frames/"@ =~= p.take(7));
    assert(text::occurs_at(p, inner, 6)) by {
        assert(p.subrange(6, 6 + inner.len() as int) =~= inner);
    }
    assert(ext =~= p.skip(p.len() - ext.len()));
}

pub proof fn lemma_crop_name(a: i64)
    ensures
        "crops/"@.is_prefix_of(crop_name(a)),
        ".png"@.is_suffix_of(crop_name(a)),
        crop_name(a).len() == 10 + decimal(a as int).len(),
        crop_name(a).subrange(6, crop_name(a).len() - 4) == decimal(a as int),
{
    reveal_strlit("crops/");
    reveal_strlit(".png");
    let c = crop_name(a);
    assert("crops/"@ =~= c.take(6));
    assert(".png"@ =~= c.skip(c.len() - 4));
    assert(c.subrange(6, c.len() - 4) =~= decimal(a as int));
}

proof fn lemma_path_parts(
    da: Seq<char>,
    ta: Seq<char>,
    ma: Seq<char>,
    db: Seq<char>,
    tb: Seq<char>,
    mb: Seq<char>,
    ext: Seq<char>,
)
    requires
        text::all_digits(da) && text::all_digits(ta),
        text::all_digits(db) && text::all_digits(tb),
        ma.len() == 0 || ma[0] == '-',
        mb.len() == 0 || mb[0] == '-',
        "frames/"@ + da + "/"@ + ta + ma + "."@ + ext == "frames/"@ + db + "/"@ + tb + mb + "."@ + ext,
    ensures
        ta == tb,
        ma.len() == 0 <==> mb.len() == 0,
{
    reveal_strlit("frames/");
    reveal_strlit("/");
    reveal_strlit(".");
    let pa = "frames/"@ + da + "/"@ + ta + ma + "."@ + ext;
    let pb = "frames/"@ + db + "/"@ + tb + mb + "."@ + ext;
    let ea = ma + "."@ + ext;
    let eb = mb + "."@ + ext;
    let ra = "/"@ + (ta + ea);
    let rb = "/"@ + (tb + eb);
    assert(pa.skip(7) =~= da + ra);
    assert(pb.skip(7) =~= db + rb);
    lemma_digits_first(da, ra, db, rb, da + ra, db + rb);
    assert(ra.skip(1) =~= ta + ea);
    assert(rb.skip(1) =~= tb + eb);
    lemma_digits_first(ta, ea, tb, eb, ta + ea, tb + eb);
    assert(ea[0] == (if ma.len() == 0 { '.' } else { '-' }));
    assert(eb[0] == (if mb.len() == 0 { '.' } else { '-' }));
}

proof fn lemma_digits_first(
    a: Seq<char>,
    rest_a: Seq<char>,
    b: Seq<char>,
    rest_b: Seq<char>,
    whole_a: Seq<char>,
    whole_b: Seq<char>,
)
    requires
        text::all_digits(a),
        text::all_digits(b),
        rest_a.len() > 0 && !text::is_digit(rest_a[0]),
        rest_b.len() > 0 && !text::is_digit(rest_b[0]),
        whole_a =~= a + rest_a,
        whole_b =~= b + rest_b,
        whole_a == whole_b,
    ensures
        a == b,
        rest_a == rest_b,
{
    if a.len() < b.len() {
        assert(whole_a[a.len() as int] == rest_a[0]);
        assert(whole_b[a.len() as int] == b[a.len() as int]);
    }
    if b.len() < a.len() {
        assert(whole_b[b.len() as int] == rest_b[0]);
        assert(whole_a[b.len() as int] == a[b.len() as int]);
    }
    assert(a =~= whole_a.take(a.len() as int));
    assert(b =~= whole_b.take(b.len() as int));
    assert(rest_a =~= whole_a.skip(a.len() as int));
    assert(rest_b =~= whole_b.skip(b.len() as int));
}

/// The frame of a picture tells when it was taken, what was in front and where,
/// and what was written.
pub proof fn law_a_frame_tells_what_was_seen(ts: i64, w: WrittenRow, dhash: u64, active: ActiveRow, output: Seq<char>)
    ensures
        ({
            let f = frame_row(ts, w, dhash, active, output);
            &&& f.ts == ts
            &&& f.app == active.class && f.title == active.title && f.workspace == active.workspace
            &&& f.crop_x == active.at.0 && f.crop_y == active.at.1
            &&& f.crop_w == active.size.0 && f.crop_h == active.size.1
            &&& f.output == output
            &&& f.path == w.path && f.bytes == w.bytes && f.encoder == w.encoder
            &&& f.width == w.width && f.height == w.height && f.out_w == w.out_w && f.out_h == w.out_h
            &&& f.crop_path == w.crop && f.crop_bytes == w.crop_bytes
            &&& dhash < 0x8000_0000_0000_0000 ==> f.dhash == dhash
        }),
{
}

/// That a text was copied is answered under the number of the command, with its
/// length in bytes; that it was not, with the reason.
pub proof fn law_a_copy_is_answered(id: u64, content: Seq<char>, e: Seq<char>)
    ensures
        json::field_of(copy_answer(id, content, None), "id"@) == Some(Json::Int(id as int)),
        json::field_of(copy_answer(id, content, None), "ok"@) == Some(Json::Bool(true)),
        json::field_of(copy_answer(id, content, None), "data"@) matches Some(data) && json::field_of(data, "bytes"@) == Some(
            Json::Int(bytes_in(content) as int),
        ),
        json::field_of(copy_answer(id, content, Some(e)), "id"@) == Some(Json::Int(id as int)),
        json::field_of(copy_answer(id, content, Some(e)), "ok"@) == Some(Json::Bool(false)),
        json::field_of(copy_answer(id, content, Some(e)), "error"@) == Some(Json::Text(e)),
{
    reveal_strlit("ok");
    reveal_strlit("bytes");
    assert("ok"@.len() != "bytes"@.len());
    let data = Json::Object(
        no_entries().insert("ok"@, Json::Bool(true)).insert("bytes"@, Json::Int(bytes_in(content) as int)),
    );
    crate::ipc::law_answers_are_told(id, data, e);
}

} // verus!
