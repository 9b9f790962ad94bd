//! When the daemon may write: the switch, the pauses, and what is put off until
//! it may.
use crate::clipboard::{ClipCache, Ingest, Stretch};
use crate::config::{merged, Numbers, Settings, SettingsRow};
use crate::exclude::{
    self, bars, bears, excluded_in, law_any_private_window_is_noticed, law_any_title_can_pause,
    law_any_window_can_be_excluded, marked_by, markers, pattern_in, private_in,
};
use crate::hypr::{client_rows, Client, ClientRow};
use crate::json::{json_of, Json};
use crate::pause::{self, too_idle, PauseInput, PauseReason};
use crate::pixel;
use serde_json::Value;
use vstd::prelude::*;

verus! {

/// A pause that began, or one that ended, and was not written down yet.
#[derive(Debug, Clone, Copy)]
pub struct Gap {
    pub ts: i64,
    pub reason: Option<PauseReason>,
}

/// What there is to be seen of the session.
#[derive(Debug)]
pub struct Sight {
    pub locked: bool,
    pub idle_ms: u64,
    pub portal_active: bool,
    /// The open windows; nothing where the compositor does not tell.
    pub clients: Option<Vec<Client>>,
}

/// What a sight of the session says.
pub struct SightRow {
    pub locked: bool,
    pub idle_ms: u64,
    pub portal_active: bool,
    pub clients: Option<Seq<ClientRow>>,
}

impl View for Sight {
    type V = SightRow;

    open spec fn view(&self) -> SightRow {
        SightRow {
            locked: self.locked,
            idle_ms: self.idle_ms,
            portal_active: self.portal_active,
            clients: match self.clients {
                Some(c) => Some(client_rows(c@)),
                None => None,
            },
        }
    }
}

/// The daemon between two things that happen.
#[verifier::ext_equal]
pub struct State {
    pub settings: SettingsRow,
    pub armed: bool,
    pub overlay_open: bool,
    pub now: Stretch,
    pub pause: Option<PauseReason>,
    pub last_dhash: u64,
    pub encoder: Seq<char>,
    pub clip: Option<(Seq<char>, Stretch)>,
    pub gaps: Seq<Gap>,
    pub checkpoint_due: bool,
    pub save_due: bool,
}

/// The next number, as far as there is one.
pub open spec fn next_number(n: u64) -> u64 {
    if n < u64::MAX {
        (n + 1) as u64
    } else {
        n
    }
}

/// Seconds in milliseconds, or the most that can be said.
pub open spec fn in_ms(seconds: u64) -> u64 {
    if seconds * 1000 > u64::MAX {
        u64::MAX
    } else {
        (seconds * 1000) as u64
    }
}

impl State {
    /// Consent was given.
    pub open spec fn consented(self) -> bool {
        self.settings.consent_at > 0
    }

    /// Why recording stands still, by what there is to be seen. Where the
    /// windows are not known, one of them may be an excluded one.
    pub open spec fn reason_at(self, sight: SightRow) -> Option<PauseReason> {
        if !self.armed {
            Some(PauseReason::Disarmed)
        } else if self.overlay_open {
            Some(PauseReason::Overlay)
        } else if sight.locked {
            Some(PauseReason::Locked)
        } else if sight.portal_active {
            Some(PauseReason::Portal)
        } else {
            match sight.clients {
                None => Some(PauseReason::Excluded),
                Some(windows) => if excluded_in(windows, self.settings.exclude_apps) is Some {
                    Some(PauseReason::Excluded)
                } else if private_in(windows) is Some {
                    Some(PauseReason::PrivateBrowsing)
                } else if pattern_in(windows, self.settings.title_pause_patterns) is Some {
                    Some(PauseReason::TitlePattern)
                } else if too_idle(sight.idle_ms, in_ms(self.settings.idle_pause_sec)) {
                    Some(PauseReason::Idle)
                } else {
                    None
                },
            }
        }
    }

    /// Recording goes on, as far as is known.
    pub open spec fn records(self) -> bool {
        self.armed && self.pause is None
    }

    /// A job that began in a stretch of recording may write.
    pub open spec fn lets_write(self, ticket: Stretch) -> bool {
        self.records() && ticket == self.now
    }

    /// A job that began in a stretch of recording may annotate frames that are
    /// already kept. A session without input does not forbid that.
    pub open spec fn lets_annotate(self, ticket: Stretch) -> bool {
        &&& self.armed
        &&& ticket == self.now
        &&& self.pause is None || self.pause == Some(PauseReason::Idle)
    }

    /// Recording switched on or off. What was going on belongs to a stretch that
    /// is over.
    pub open spec fn switched(self, on: bool) -> State {
        State {
            settings: SettingsRow { armed: on, ..self.settings },
            armed: on,
            now: Stretch {
                gen: next_number(self.now.gen),
                epoch: if on {
                    self.now.epoch
                } else {
                    next_number(self.now.epoch)
                },
            },
            clip: if on {
                self.clip
            } else {
                None
            },
            checkpoint_due: self.checkpoint_due || (self.armed && !on),
            save_due: true,
            ..self
        }
    }

    /// A reason to stand still, or none, noticed.
    pub open spec fn noticed(self, reason: Option<PauseReason>, ts: i64) -> State {
        if reason == self.pause {
            self
        } else {
            State {
                pause: reason,
                now: Stretch { gen: self.now.gen, epoch: next_number(self.now.epoch) },
                clip: None,
                gaps: self.gaps.push(Gap { ts, reason }),
                ..self
            }
        }
    }

    /// The session looked at.
    pub open spec fn refreshed(self, sight: SightRow, ts: i64) -> State {
        self.noticed(self.reason_at(sight), ts)
    }

    /// Settings asked for.
    pub open spec fn configured(self, j: Json, n: Numbers) -> State {
        State { settings: merged(self.settings, j, n), save_due: true, ..self }
    }

    /// Recording asked for. It needs consent that was given before.
    pub open spec fn asked_to_arm(self, j: Json, n: Numbers) -> State {
        if self.consented() {
            self.configured(j, n).switched(true)
        } else {
            self
        }
    }

    /// Consent given. It is written down at once.
    pub open spec fn given_consent(self, at: i64, arm_on_login: bool, on: bool) -> State {
        State {
            save_due: false,
            ..State {
                settings: SettingsRow { consent_at: at, arm_on_login, ..self.settings },
                ..self
            }.switched(on)
        }
    }

    /// Settings that are due are written down while recording goes on.
    pub open spec fn saved(self) -> State {
        State { save_due: self.save_due && !self.records(), ..self }
    }

    /// What was put off is done while recording goes on.
    pub open spec fn flushed(self) -> State {
        if self.records() {
            State { gaps: Seq::empty(), checkpoint_due: false, save_due: false, ..self }
        } else {
            self
        }
    }

    /// A clipboard text that was kept is held for the frames of its stretch.
    pub open spec fn holding(self, text: Seq<char>, ticket: Stretch) -> State {
        if ticket == self.now {
            State { clip: Some((text, ticket)), ..self }
        } else {
            self
        }
    }

    /// The clipboard text that a frame of the current stretch may carry.
    pub open spec fn clip_now(self) -> Seq<char> {
        match self.clip {
            Some(h) => if h.1 == self.now {
                h.0
            } else {
                Seq::empty()
            },
            None => Seq::empty(),
        }
    }

    /// No clipboard text is held of a stretch that is still to come.
    pub open spec fn wf(self) -> bool {
        self.clip matches Some(h) ==> h.1.gen <= self.now.gen && h.1.epoch <= self.now.epoch
    }

    /// The daemon as it comes up.
    pub open spec fn initial(settings: SettingsRow, encoder: Seq<char>) -> State {
        State {
            settings,
            armed: settings.consent_at > 0 && settings.arm_on_login,
            overlay_open: false,
            now: Stretch { gen: 0, epoch: 0 },
            pause: None,
            last_dhash: 0,
            encoder,
            clip: None,
            gaps: Seq::empty(),
            checkpoint_due: false,
            save_due: false,
        }
    }
}

/// Something that happens to the daemon.
pub enum Happening {
    Arm { settings: Json, numbers: Numbers },
    Disarm,
    Consent { at: i64, arm_on_login: bool, on: bool },
    Overlay { open: bool },
    Configure { settings: Json, numbers: Numbers },
    Look { sight: SightRow, ts: i64 },
    Save,
    Flush,
    HoldClip { text: Seq<char>, ticket: Stretch },
    DropClip,
    Frame { dhash: u64, encoder: Seq<char> },
}

impl State {
    /// The daemon after something happened.
    pub open spec fn next(self, h: Happening) -> State {
        match h {
            Happening::Arm { settings, numbers } => self.asked_to_arm(settings, numbers),
            Happening::Disarm => self.switched(false),
            Happening::Consent { at, arm_on_login, on } => self.given_consent(at, arm_on_login, on),
            Happening::Overlay { open } => State { overlay_open: open, ..self },
            Happening::Configure { settings, numbers } => self.configured(settings, numbers),
            Happening::Look { sight, ts } => self.refreshed(sight, ts),
            Happening::Save => self.saved(),
            Happening::Flush => self.flushed(),
            Happening::HoldClip { text, ticket } => self.holding(text, ticket),
            Happening::DropClip => State { clip: None, ..self },
            Happening::Frame { dhash, encoder } => State { last_dhash: dhash, encoder, ..self },
        }
    }

    /// The daemon after several things happened.
    pub open spec fn after(self, hs: Seq<Happening>) -> State
        decreases hs.len(),
    {
        if hs.len() == 0 {
            self
        } else {
            self.after(hs.drop_last()).next(hs.last())
        }
    }
}

/// What decides when the daemon records, and what it puts off.
#[derive(Debug)]
pub struct Daemon {
    pub settings: Settings,
    pub armed: bool,
    pub overlay_open: bool,
    /// The current stretch of recording.
    pub now: Stretch,
    /// Why recording stood still when the session was last looked at.
    pub pause: Option<PauseReason>,
    /// The fingerprint of the last frame; zero where there was none.
    pub last_dhash: u64,
    pub encoder: String,
    pub clips: ClipCache,
    /// Pauses that are not written down yet.
    pub gaps: Vec<Gap>,
    pub checkpoint_due: bool,
    pub save_due: bool,
}

impl View for Daemon {
    type V = State;

    open spec fn view(&self) -> State {
        State {
            settings: self.settings@,
            armed: self.armed,
            overlay_open: self.overlay_open,
            now: self.now,
            pause: self.pause,
            last_dhash: self.last_dhash,
            encoder: self.encoder@,
            clip: self.clips@,
            gaps: self.gaps@,
            checkpoint_due: self.checkpoint_due,
            save_due: self.save_due,
        }
    }
}

/// What was put off, and is to be done now.
#[derive(Debug)]
pub struct Deferred {
    pub gaps: Vec<Gap>,
    pub checkpoint: bool,
    pub save: bool,
}

fn following(n: u64) -> (r: u64)
    ensures
        r == next_number(n),
{
    if n < u64::MAX {
        n + 1
    } else {
        n
    }
}

fn milliseconds(seconds: u64) -> (r: u64)
    ensures
        r == in_ms(seconds),
{
    if seconds > u64::MAX / 1000 {
        u64::MAX
    } else {
        seconds * 1000
    }
}

impl Gap {
    /// Whether a pause began or ended.
    pub open spec fn is_kind(self) -> Seq<char> {
        if self.reason is Some {
            "pause"@
        } else {
            "resume"@
        }
    }

    /// Whether a pause began or ended.
    pub fn kind(&self) -> (r: &'static str)
        ensures
            r@ == self.is_kind(),
            r@ == (if self.reason is Some {
                "pause"@
            } else {
                "resume"@
            }),
    {
        if self.reason.is_some() {
            "pause"
        } else {
            "resume"
        }
    }

    /// Why recording stood still; empty where it does no longer.
    pub fn why(&self) -> (r: &'static str)
        ensures
            r@ == reason_name(self.reason),
    {
        match self.reason {
            Some(x) => x.as_str(),
            None => "",
        }
    }
}

/// The name of a reason; empty where there is none.
pub open spec fn reason_name(reason: Option<PauseReason>) -> Seq<char> {
    match reason {
        Some(r) => r.name(),
        None => ""@,
    }
}

impl Daemon {
    /// The daemon as it comes up with settings that were kept. That recording was
    /// on when they were kept does not switch it on.
    pub fn start(settings: Settings, encoder: &str) -> (r: Self)
        ensures
            r@ == State::initial(settings@, encoder@),
    {
        let armed = pixel::startup_recording(settings.consent_at, settings.arm_on_login, settings.armed);
        let r = Daemon {
            settings,
            armed,
            overlay_open: false,
            now: Stretch { gen: 0, epoch: 0 },
            pause: None,
            last_dhash: 0,
            encoder: encoder.to_string(),
            clips: ClipCache::new(),
            gaps: Vec::new(),
            checkpoint_due: false,
            save_due: false,
        };
        assert(r@ =~= State::initial(settings@, encoder@));
        r
    }

    /// Why recording stands still, by what there is to be seen.
    pub fn evaluate_pause(&self, sight: &Sight) -> (r: Option<PauseReason>)
        ensures
            r == self@.reason_at(sight@),
    {
        if !self.armed {
            return Some(PauseReason::Disarmed);
        }
        if self.overlay_open {
            return Some(PauseReason::Overlay);
        }
        let idle_limit_ms: u64 = milliseconds(self.settings.idle_pause_sec);
        let input = match &sight.clients {
            Some(clients) => PauseInput {
                armed: true,
                locked: sight.locked,
                idle_ms: sight.idle_ms,
                idle_limit_ms,
                overlay_open: false,
                excluded: exclude::excluded_visible(clients, &self.settings.exclude_apps),
                portal_active: sight.portal_active,
                private_browsing: exclude::private_browsing(clients),
                title_pause: exclude::title_pause(clients, &self.settings.title_pause_patterns),
            },
            None => PauseInput {
                armed: true,
                locked: sight.locked,
                idle_ms: sight.idle_ms,
                idle_limit_ms,
                overlay_open: false,
                excluded: Some("unknown windows".to_string()),
                portal_active: sight.portal_active,
                private_browsing: None,
                title_pause: None,
            },
        };
        pause::evaluate(&input)
    }

    /// Look at the session. Where recording begins or ceases to stand still, or
    /// does so for another reason, a new stretch begins, and the clipboard text
    /// that was held is forgotten.
    pub fn refresh_pause(&mut self, sight: &Sight, ts: i64) -> (r: Option<PauseReason>)
        ensures
            final(self)@ == old(self)@.refreshed(sight@, ts),
            r == final(self)@.pause,
    {
        let reason = self.evaluate_pause(sight);
        if reason != self.pause {
            let gap = Gap { ts, reason };
            self.pause = reason;
            self.now = Stretch { gen: self.now.gen, epoch: following(self.now.epoch) };
            self.clips.clear();
            self.gaps.push(gap);
        }
        assert(self@ =~= old(self)@.refreshed(sight@, ts));
        reason
    }

    fn switch(&mut self, on: bool)
        ensures
            final(self)@ == old(self)@.switched(on),
    {
        self.checkpoint_due = self.checkpoint_due || (self.armed && !on);
        self.settings.armed = on;
        self.armed = on;
        self.save_due = true;
        let epoch: u64 = if on {
            self.now.epoch
        } else {
            following(self.now.epoch)
        };
        self.now = Stretch { gen: following(self.now.gen), epoch };
        if !on {
            self.clips.clear();
        }
        assert(self@ =~= old(self)@.switched(on));
    }

    /// Take over settings.
    pub fn configure(&mut self, settings: &Value, numbers: &Numbers)
        ensures
            final(self)@ == old(self)@.configured(json_of(*settings), *numbers),
    {
        self.settings.merge_json(settings, numbers);
        self.save_due = true;
        assert(self@ =~= old(self)@.configured(json_of(*settings), *numbers));
    }

    /// Switch recording on. It is refused where no consent was given before.
    pub fn arm(&mut self, settings: &Value, numbers: &Numbers) -> (r: bool)
        ensures
            r == old(self)@.consented(),
            final(self)@ == old(self)@.asked_to_arm(json_of(*settings), *numbers),
    {
        if self.settings.consent_at <= 0 {
            return false;
        }
        self.configure(settings, numbers);
        self.switch(true);
        true
    }

    /// Switch recording off.
    pub fn disarm(&mut self)
        ensures
            final(self)@ == old(self)@.switched(false),
    {
        self.switch(false);
    }

    /// Give consent, and switch recording on or off with it. The settings are to
    /// be written down at once.
    pub fn consent(&mut self, at: i64, arm_on_login: bool, on: bool)
        ensures
            final(self)@ == old(self)@.given_consent(at, arm_on_login, on),
    {
        self.settings.consent_at = at;
        self.settings.arm_on_login = arm_on_login;
        let ghost mid = State {
            settings: SettingsRow { consent_at: at, arm_on_login, ..old(self)@.settings },
            ..old(self)@
        };
        assert(self@ =~= mid);
        self.switch(on);
        self.save_due = false;
        assert(self@ =~= old(self)@.given_consent(at, arm_on_login, on));
    }

    /// The overlay was opened or closed.
    pub fn set_overlay(&mut self, open: bool)
        ensures
            final(self)@ == (State { overlay_open: open, ..old(self)@ }),
    {
        self.overlay_open = open;
    }

    /// Whether the settings are to be written down now; they are not, while
    /// recording stands still.
    pub fn save_now(&mut self) -> (r: bool)
        ensures
            r == (old(self)@.save_due && old(self)@.records()),
            final(self)@ == old(self)@.saved(),
    {
        let r = self.save_due && self.is_recording();
        if r {
            self.save_due = false;
        }
        r
    }

    /// Whether recording is on and did not stand still when the session was last
    /// looked at.
    pub fn is_recording(&self) -> (r: bool)
        ensures
            r == self@.records(),
    {
        self.armed && self.pause.is_none()
    }

    /// Look at the session, and let a job that began in a stretch of recording
    /// write where it goes on.
    pub fn write_allowed(&mut self, ticket: Stretch, sight: &Sight, ts: i64) -> (r: bool)
        ensures
            final(self)@ == old(self)@.refreshed(sight@, ts),
            r == final(self)@.lets_write(ticket),
    {
        self.refresh_pause(sight, ts);
        self.is_recording() && ticket == self.now
    }

    /// Look at the session, and let a job that began in this stretch annotate
    /// frames where nothing but a lack of input makes recording stand still.
    pub fn ocr_may_write(&mut self, ticket: Stretch, sight: &Sight, ts: i64) -> (r: bool)
        ensures
            final(self)@ == old(self)@.refreshed(sight@, ts),
            r == final(self)@.lets_annotate(ticket),
    {
        self.refresh_pause(sight, ts);
        let quiet = match self.pause {
            None => true,
            Some(PauseReason::Idle) => true,
            _ => false,
        };
        self.armed && ticket == self.now && quiet
    }

    /// What was put off while recording stood still, where it does no longer.
    pub fn flush_deferred(&mut self, sight: &Sight, ts: i64) -> (r: Deferred)
        ensures
            final(self)@ == old(self)@.refreshed(sight@, ts).flushed(),
            ({
                let s = old(self)@.refreshed(sight@, ts);
                if s.records() {
                    &&& r.gaps@ == s.gaps
                    &&& r.checkpoint == s.checkpoint_due
                    &&& r.save == s.save_due
                } else {
                    &&& r.gaps@.len() == 0
                    &&& !r.checkpoint
                    &&& !r.save
                }
            }),
    {
        self.refresh_pause(sight, ts);
        let ghost s = self@;
        let mut r = Deferred { gaps: Vec::new(), checkpoint: self.checkpoint_due, save: self.save_due };
        if !self.is_recording() {
            return Deferred { gaps: Vec::new(), checkpoint: false, save: false };
        }
        std::mem::swap(&mut r.gaps, &mut self.gaps);
        self.checkpoint_due = false;
        self.save_due = false;
        assert(self@ =~= s.flushed());
        r
    }

    /// What to do with a clipboard text, by what there is to be seen.
    pub fn ingest(&mut self, raw: &str, sight: &Sight, ts: i64) -> (r: Ingest)
        ensures
            ({
                let s = old(self)@.refreshed(sight@, ts);
                &&& crate::clipboard::instructed(r) == crate::clipboard::ingestion(raw@, s.records(), s.clip, s.now)
                &&& final(self)@ == (if raw@.len() > 0 && !s.records() {
                    State { clip: None, ..s }
                } else {
                    s
                })
            }),
    {
        self.refresh_pause(sight, ts);
        let recording = self.is_recording();
        let now = self.now;
        let r = self.clips.ingest(raw, recording, now);
        assert(self@ =~= (if raw@.len() > 0 && !recording {
            State { clip: None, ..old(self)@.refreshed(sight@, ts) }
        } else {
            old(self)@.refreshed(sight@, ts)
        }));
        r
    }

    /// Hold a clipboard text that was kept, for the frames of its stretch.
    pub fn hold_clip(&mut self, text: String, ticket: Stretch)
        ensures
            final(self)@ == old(self)@.holding(text@, ticket),
    {
        if ticket == self.now {
            self.clips.publish(text, ticket);
        }
        assert(self@ =~= old(self)@.holding(text@, ticket));
    }

    /// The clipboard text that a frame of the current stretch carries.
    pub fn clip_for_frame(&self) -> (r: String)
        ensures
            r@ == self@.clip_now(),
    {
        match self.clips.latest_cached(self.now) {
            Some(s) => s,
            None => {
                assert(self@.clip_now() =~= Seq::empty());
                String::new()
            },
        }
    }

    /// A frame was kept.
    pub fn frame_kept(&mut self, dhash: u64, encoder: &str)
        ensures
            final(self)@ == (State { last_dhash: dhash, encoder: encoder@, ..old(self)@ }),
    {
        self.last_dhash = dhash;
        self.encoder = encoder.to_string();
    }
}

/// While recording is off nothing is written: no job may write or annotate,
/// whatever is to be seen, and nothing that was put off is done.
pub proof fn law_disarmed_writes_nothing(s: State, sight: SightRow, ts: i64, ticket: Stretch)
    requires
        !s.armed,
    ensures
        s.reason_at(sight) == Some(PauseReason::Disarmed),
        !s.refreshed(sight, ts).lets_write(ticket),
        !s.refreshed(sight, ts).lets_annotate(ticket),
        s.refreshed(sight, ts).flushed() == s.refreshed(sight, ts),
        s.refreshed(sight, ts).saved() == s.refreshed(sight, ts),
{
    let r = s.refreshed(sight, ts);
    assert(r.saved() =~= r);
}

/// While recording stands still nothing is captured, kept or caught up on, and
/// unless it does so for a lack of input alone, nothing is annotated.
pub proof fn law_a_pause_writes_nothing(s: State, sight: SightRow, ts: i64, ticket: Stretch)
    requires
        s.reason_at(sight) is Some,
    ensures
        !s.refreshed(sight, ts).lets_write(ticket),
        s.refreshed(sight, ts).flushed() == s.refreshed(sight, ts),
        s.refreshed(sight, ts).saved() == s.refreshed(sight, ts),
        s.reason_at(sight) != Some(PauseReason::Idle) ==> !s.refreshed(sight, ts).lets_annotate(ticket),
{
    let r = s.refreshed(sight, ts);
    assert(r.saved() =~= r);
}

/// What cannot be ruled out makes recording stand still: a locked screen, an
/// open overlay, a shared screen, and windows that are not known.
pub proof fn law_doubt_is_a_pause(s: State, sight: SightRow)
    ensures
        sight.clients is None ==> s.reason_at(sight) is Some,
        sight.locked || sight.portal_active || s.overlay_open ==> s.reason_at(sight) is Some,
        sight.locked || sight.portal_active || s.overlay_open || sight.clients is None ==> s.reason_at(sight) != Some(
            PauseReason::Idle,
        ),
{
}

/// Switching recording, giving consent, and every change of the reason to stand
/// still begin a new stretch.
pub proof fn law_a_change_begins_a_stretch(s: State, h: Happening)
    requires
        s.now.gen < u64::MAX,
        s.now.epoch < u64::MAX,
    ensures
        h is Disarm || h is Consent ==> s.next(h).now != s.now,
        h is Arm ==> (s.next(h).now != s.now <==> s.consented()),
        h matches Happening::Look { sight, ts } ==> (s.next(h).now != s.now <==> s.reason_at(sight) != s.pause),
        s.next(h).now != s.now ==> h is Disarm || h is Consent || h is Arm || h is Look,
{
}

proof fn lemma_stretches_grow(s: State, hs: Seq<Happening>, i: int)
    requires
        0 <= i <= hs.len(),
    ensures
        s.after(hs.take(i)).now.gen <= s.after(hs).now.gen,
        s.after(hs.take(i)).now.epoch <= s.after(hs).now.epoch,
    decreases hs.len() - i,
{
    if i < hs.len() {
        lemma_stretches_grow(s, hs, i + 1);
        assert(hs.take(i + 1).drop_last() =~= hs.take(i));
    } else {
        assert(hs.take(i) =~= hs);
    }
}

/// A job that began before a stretch of recording ended can never write or
/// annotate after it, however often recording is switched or paused since.
pub proof fn law_a_stale_job_cannot_write(s: State, hs: Seq<Happening>, i: int)
    requires
        0 <= i <= hs.len(),
        s.after(hs.take(i)).now != s.now,
    ensures
        !s.after(hs).lets_write(s.now),
        !s.after(hs).lets_annotate(s.now),
{
    lemma_stretches_grow(s, hs, i);
    lemma_stretches_grow(s, hs.take(i), 0);
    assert(hs.take(i).take(0) =~= Seq::<Happening>::empty());
}

/// A clipboard text that was kept in one stretch of recording is carried by no
/// frame of another.
pub proof fn law_clips_stay_in_their_stretch(s: State, hs: Seq<Happening>, h: Happening)
    requires
        s.wf(),
    ensures
        s.after(hs).wf(),
        s.after(hs).next(h).now != s.after(hs).now ==> s.after(hs).next(h).clip_now().len() == 0,
    decreases hs.len(),
{
    if hs.len() > 0 {
        law_clips_stay_in_their_stretch(s, hs.drop_last(), h);
    }
}

/// Recording is on only where consent was given: it comes up on only so, and
/// asking for it without consent changes nothing.
pub proof fn law_recording_needs_consent(settings: SettingsRow, encoder: Seq<char>, hs: Seq<Happening>)
    requires
        forall|i: int| 0 <= i < hs.len() ==> (#[trigger] hs[i] matches Happening::Consent { at, .. } ==> at > 0),
    ensures
        State::initial(settings, encoder).after(hs).armed ==> State::initial(settings, encoder).after(hs).consented(),
    decreases hs.len(),
{
    if hs.len() > 0 {
        let front = hs.drop_last();
        assert forall|i: int| 0 <= i < front.len() implies (#[trigger] front[i] matches Happening::Consent {
            at,
            ..
        } ==> at > 0) by {
            assert(front[i] == hs[i]);
        }
        law_recording_needs_consent(settings, encoder, front);
        assert(hs.last() == hs[hs.len() - 1]);
    }
}

/// A pause that was noticed stays to be written down until recording goes on.
pub proof fn law_gaps_wait_for_recording(s: State, h: Happening)
    ensures
        s.next(h).gaps.len() < s.gaps.len() ==> h is Flush && s.records(),
        h !is Flush ==> s.gaps.is_prefix_of(s.next(h).gaps),
        s.save_due && !s.next(h).save_due ==> (h is Flush || h is Save) && s.records() || h is Consent,
        s.checkpoint_due && !s.next(h).checkpoint_due ==> h is Flush && s.records(),
{
}

/// Recording that is switched on goes on exactly where the overlay is shut, the
/// screen is neither locked nor shared, the windows are known, none of them that
/// can be seen is excluded, private or named by a pattern, and there was input
/// within the time that the settings allow.
pub proof fn law_every_reason_is_looked_for(s: State, sight: SightRow)
    requires
        s.armed,
    ensures
        s.reason_at(sight) is None <==> {
            &&& !s.overlay_open && !sight.locked && !sight.portal_active
            &&& sight.clients matches Some(ws) && {
                &&& forall|i: int, j: int|
                    0 <= i < ws.len() && 0 <= j < s.settings.exclude_apps.len() ==> !#[trigger] bars(
                        s.settings.exclude_apps[j],
                        ws[i],
                    )
                &&& forall|i: int, j: int|
                    0 <= i < ws.len() && 0 <= j < markers().len() ==> !#[trigger] marked_by(
                        markers()[j].0,
                        markers()[j].1,
                        ws[i],
                    )
                &&& forall|i: int, j: int|
                    0 <= i < ws.len() && 0 <= j < s.settings.title_pause_patterns.len() ==> !#[trigger] bears(
                        s.settings.title_pause_patterns[j],
                        ws[i],
                    )
            }
            &&& s.settings.idle_pause_sec == 0 || (sight.idle_ms < u64::MAX && sight.idle_ms < s.settings.idle_pause_sec
                * 1000)
        },
        s.overlay_open ==> s.reason_at(sight) == Some(PauseReason::Overlay),
        sight.locked && !s.overlay_open ==> s.reason_at(sight) == Some(PauseReason::Locked),
        sight.portal_active && !sight.locked && !s.overlay_open ==> s.reason_at(sight) == Some(PauseReason::Portal),
        s.reason_at(sight) == Some(PauseReason::Excluded) ==> sight.clients is None || exists|i: int, j: int|
            0 <= i < sight.clients.unwrap().len() && 0 <= j < s.settings.exclude_apps.len() && #[trigger] bars(
                s.settings.exclude_apps[j],
                sight.clients.unwrap()[i],
            ),
        s.reason_at(sight) == Some(PauseReason::PrivateBrowsing) ==> exists|i: int, j: int|
            0 <= i < sight.clients.unwrap().len() && 0 <= j < markers().len() && #[trigger] marked_by(
                markers()[j].0,
                markers()[j].1,
                sight.clients.unwrap()[i],
            ),
        s.reason_at(sight) == Some(PauseReason::TitlePattern) ==> exists|i: int, j: int|
            0 <= i < sight.clients.unwrap().len() && 0 <= j < s.settings.title_pause_patterns.len()
                && #[trigger] bears(s.settings.title_pause_patterns[j], sight.clients.unwrap()[i]),
        s.reason_at(sight) == Some(PauseReason::Idle) ==> s.settings.idle_pause_sec > 0,
        s.reason_at(sight) != Some(PauseReason::Disarmed),
{
    if let Some(ws) = sight.clients {
        law_any_window_can_be_excluded(ws, s.settings.exclude_apps);
        law_any_private_window_is_noticed(ws);
        law_any_title_can_pause(ws, s.settings.title_pause_patterns);
    }
}

/// Switching recording off ends the stretch, drops the clipboard text that was
/// held and puts off the rest; switching it on, with consent, begins a stretch.
/// Neither touches what was noticed, what is open or what was recorded last.
pub proof fn law_switching(s: State, h: Happening)
    requires
        s.now.gen < u64::MAX,
        s.now.epoch < u64::MAX,
    ensures
        h is Disarm ==> {
            let n = s.next(h);
            &&& !n.armed && !n.settings.armed && n.clip is None
            &&& n.now.gen == s.now.gen + 1 && n.now.epoch == s.now.epoch + 1
            &&& n.save_due && (n.checkpoint_due <==> s.checkpoint_due || s.armed)
            &&& n.settings == (SettingsRow { armed: false, ..s.settings })
            &&& n.pause == s.pause && n.gaps == s.gaps && n.overlay_open == s.overlay_open
            &&& n.last_dhash == s.last_dhash && n.encoder == s.encoder
        },
        h is Arm && s.settings.consent_at > 0 ==> {
            let n = s.next(h);
            &&& n.armed && n.settings.armed && n.now.gen == s.now.gen + 1
            &&& n.settings.consent_at == s.settings.consent_at
            &&& n.save_due && n.checkpoint_due == s.checkpoint_due
            &&& n.pause == s.pause && n.gaps == s.gaps && n.overlay_open == s.overlay_open
            &&& n.last_dhash == s.last_dhash && n.encoder == s.encoder
        },
        h is Arm && s.settings.consent_at <= 0 ==> s.next(h) == s,
        h matches Happening::Consent { at, arm_on_login, on } ==> {
            let n = s.next(h);
            &&& n.settings.consent_at == at && n.settings.arm_on_login == arm_on_login
            &&& n.armed == on && n.settings.armed == on
            &&& !n.save_due && n.now.gen == s.now.gen + 1
            &&& n.pause == s.pause && n.gaps == s.gaps && n.overlay_open == s.overlay_open
            &&& n.settings.exclude_apps == s.settings.exclude_apps && n.settings.byte_cap == s.settings.byte_cap
        },
        h matches Happening::Overlay { open } ==> s.next(h) == (State { overlay_open: open, ..s }),
        h matches Happening::Configure { settings, numbers } ==> s.next(h).armed == s.armed && s.next(h).now == s.now
            && s.next(h).save_due && s.next(h).settings.armed == s.settings.armed && s.next(h).settings.consent_at
            == s.settings.consent_at,
        h matches Happening::Frame { dhash, encoder } ==> s.next(h) == (State { last_dhash: dhash, encoder, ..s }),
{
}

/// A look at the session tells the reason to stand still from then on. Where the
/// reason changed, the time and the new reason are put down as a gap, a stretch
/// ends, and no clipboard text is held; where it did not, nothing changes.
pub proof fn law_a_look_notices(s: State, sight: SightRow, ts: i64)
    requires
        s.now.epoch < u64::MAX,
    ensures
        ({
            let n = s.refreshed(sight, ts);
            let reason = s.reason_at(sight);
            &&& n.pause == reason
            &&& reason == s.pause ==> n == s
            &&& reason != s.pause ==> {
                &&& n.gaps.len() == s.gaps.len() + 1
                &&& n.gaps.last().ts == ts && n.gaps.last().reason == reason
                &&& n.gaps.drop_last() == s.gaps
                &&& n.clip is None
                &&& n.now.epoch == s.now.epoch + 1 && n.now.gen == s.now.gen
                &&& n.armed == s.armed && n.settings == s.settings && n.overlay_open == s.overlay_open
                &&& n.save_due == s.save_due && n.checkpoint_due == s.checkpoint_due
            }
        }),
{
    let n = s.refreshed(sight, ts);
    if s.reason_at(sight) != s.pause {
        assert(n.gaps.drop_last() =~= s.gaps);
    }
}

/// What was put off is done as soon as recording goes on, and a frame of the
/// current stretch carries the text that was kept in it.
pub proof fn law_what_was_put_off_is_done(s: State, text: Seq<char>, ticket: Stretch)
    ensures
        s.armed && s.pause is None ==> s.flushed().gaps.len() == 0 && !s.flushed().checkpoint_due
            && !s.flushed().save_due && !s.saved().save_due,
        !(s.armed && s.pause is None) ==> s.flushed() == s && s.saved() == s,
        s.flushed().now == s.now && s.flushed().clip == s.clip && s.flushed().settings == s.settings,
        ticket == s.now ==> s.holding(text, ticket).clip_now() == text,
        ticket != s.now ==> s.holding(text, ticket) == s,
        s.clip is None ==> s.clip_now().len() == 0,
        s.clip matches Some(h) && h.1 != s.now ==> s.clip_now().len() == 0,
{
}

/// A job may write exactly in its own stretch while recording is on and does not
/// stand still; a frame that is kept may be annotated then, and where recording
/// stands still for a lack of input alone.
pub proof fn law_leave_to_write(s: State, ticket: Stretch)
    ensures
        s.lets_write(ticket) <==> s.armed && s.pause is None && ticket.gen == s.now.gen && ticket.epoch == s.now.epoch,
        s.lets_annotate(ticket) <==> s.armed && (s.pause is None || s.pause == Some(PauseReason::Idle)) && ticket.gen
            == s.now.gen && ticket.epoch == s.now.epoch,
        s.lets_write(ticket) ==> s.lets_annotate(ticket),
{
}

/// The daemon comes up recording exactly where consent was given and it was asked
/// to record from the start, whatever was kept of its last state.
pub proof fn law_how_the_daemon_comes_up(settings: SettingsRow, encoder: Seq<char>)
    ensures
        ({
            let s = State::initial(settings, encoder);
            &&& s.armed <==> settings.consent_at > 0 && settings.arm_on_login
            &&& s.settings == settings && s.encoder == encoder
            &&& !s.overlay_open && s.pause is None && s.clip is None && s.gaps.len() == 0
            &&& !s.save_due && !s.checkpoint_due && s.last_dhash == 0
        }),
{
}

/// A change with a reason is the start of a pause and is told with the name of the
/// reason; one without is its end, and is told with no name.
pub proof fn law_pauses_begin_and_end(g: Gap, r: PauseReason)
    ensures
        g.reason == Some(r) ==> g.is_kind() == "pause"@ && reason_name(g.reason) == r.name() && reason_name(g.reason).len()
            > 0,
        g.reason is None ==> g.is_kind() == "resume"@ && reason_name(g.reason).len() == 0,
{
    reveal_strlit("");
    crate::pause::law_reasons_have_names(r, r);
}

/// Seconds are told in milliseconds, as far as that can be.
pub proof fn law_seconds_in_milliseconds(seconds: u64)
    ensures
        seconds * 1000 <= u64::MAX ==> in_ms(seconds) == seconds * 1000,
        seconds * 1000 > u64::MAX ==> in_ms(seconds) == u64::MAX,
{
}

} // verus!
