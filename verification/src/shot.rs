//! A frame on its way from the screen into the archive.
use crate::archive::{Change, Tables};
use crate::capture::RawFrame;
use crate::clipboard::Stretch;
use crate::daemon::{crop_file, crop_name, frame_of, frame_path, frame_row, Grabbed, Written, WrittenRow};
use crate::dhash::{self, is_fingerprint};
use crate::encode::{
    self, comparable, is_crop, is_scaled, preferred_encoder, preferred_ext, region, Encoder, RgbaFrame,
};
use crate::gate::{Daemon, Sight, State};
use crate::hypr::{ActiveWindow, Monitor};
use crate::ipc::{frame_event, Event};
use crate::rows::{option_view, FrameInsert, FrameRow};
use crate::store::{no_capture, Store};
use crate::text::texts;
use crate::tx::{capture_work, captured, effects, is_capture_work, lemma_capture_work, lemma_effects_step, Step, Tx, Work};
use vstd::prelude::*;

verus! {

/// What a frame on its way asks for.
pub enum Ask {
    /// Take a picture of this output.
    Grab { output: String },
    /// Encode the picture and write it to this file.
    Encode { picture: RgbaFrame, path: String },
    /// Write the crop to this file.
    SaveCrop { picture: RgbaFrame, path: String },
    /// Look at the session.
    Look,
    /// Make these changes, and look at the session.
    Write { changes: Vec<Change> },
    /// Make the changes lasting.
    Seal,
    /// Undo the changes, remove these files at once, and tell the error.
    Discard { files: Vec<String>, error: Option<String> },
    /// The screen shows what the last frame shows.
    Unchanged,
    /// The frame is kept: tell it.
    Done { event: Event },
}

/// What came of what was asked for.
pub enum News {
    Picture { raw: RawFrame, sight: Sight, ts: i64 },
    Encoded { encoder: Encoder, bytes: i64 },
    CropSaved { bytes: i64 },
    Seen { sight: Sight, ts: i64 },
    Sealed,
    Failed { error: String },
}

/// How far a frame has come.
pub enum Stage {
    Grabbing,
    Encoding { raw: RawFrame, dhash: u64, ts: i64, width: u32, height: u32, path: String },
    Cropping { dhash: u64, ts: i64, written: Written },
    Keeping { dhash: u64, insert: FrameInsert, clip: String, cap: i64, tx: Tx },
    Sealing { dhash: u64, insert: FrameInsert, clip: String, cap: i64, tx: Tx },
}

/// A frame on its way.
pub struct Shot {
    pub ticket: Stretch,
    pub monitor: Monitor,
    pub active: ActiveWindow,
    /// The windows that stand open, as JSON.
    pub layout: String,
    pub have_cwebp: bool,
    /// The files that were asked for so far.
    pub files: Vec<String>,
    pub stage: Stage,
}

/// A picture can be dealt with.
pub open spec fn holdable(raw: RawFrame) -> bool {
    raw.width * raw.height * 4 <= u32::MAX
}

impl Stage {
    /// The stage goes with what the archive holds.
    pub open spec fn fits(self, store: Store, layout: Seq<char>) -> bool {
        match self {
            Stage::Grabbing => true,
            Stage::Encoding { raw, .. } => holdable(raw),
            Stage::Cropping { .. } => true,
            Stage::Keeping { dhash, insert, clip, cap, tx } => under_way(tx, store, insert, layout, clip, cap),
            Stage::Sealing { dhash, insert, clip, cap, tx } => {
                &&& under_way(tx, store, insert, layout, clip, cap)
                &&& tx.done() == tx.plan().len()
            },
        }
    }
}

/// A transaction keeps a frame, and has come some way.
pub open spec fn under_way(tx: Tx, store: Store, insert: FrameInsert, layout: Seq<char>, clip: String, cap: i64) -> bool {
    &&& tx.wf()
    &&& tx.on(&store)
    &&& is_capture_work(tx.plan(), insert@, layout, clip@, cap)
    &&& 0 <= tx.done() <= tx.plan().len()
    &&& effects(store@, tx.plan().take(tx.done())) == Some(tx.state())
}

impl Shot {
    /// The frame goes with what the archive holds.
    pub open spec fn fits(self, store: Store) -> bool {
        store.wf() && self.stage.fits(store, self.layout@)
    }

    /// A frame of the focused output is begun, where recording goes on and it is
    /// known which output has the focus.
    pub open spec fn begun(
        g: State,
        monitor: Monitor,
        active: ActiveWindow,
        layout: String,
        have_cwebp: bool,
        r: Option<(Ask, Shot)>,
    ) -> bool {
        if g.records() && monitor.name@.len() > 0 {
            &&& r matches Some(x)
            &&& x.0 matches Ask::Grab { output } && output@ == monitor.name@
            &&& x.1.ticket == g.now
            &&& x.1.monitor == monitor
            &&& x.1.active == active
            &&& x.1.layout == layout
            &&& x.1.have_cwebp == have_cwebp
            &&& x.1.files@.len() == 0
            &&& x.1.stage is Grabbing
        } else {
            r is None
        }
    }

    /// Begin a frame of the focused output, where recording goes on and it is
    /// known which output has the focus.
    pub fn begin(
        gate: &Daemon,
        monitor: Monitor,
        active: ActiveWindow,
        layout: String,
        have_cwebp: bool,
    ) -> (r: Option<(Ask, Shot)>)
        ensures
            Shot::begun(gate@, monitor, active, layout, have_cwebp, r),
            if gate@.records() && monitor.name@.len() > 0 {
                &&& r matches Some(x)
                &&& x.0 matches Ask::Grab { output } && output@ == monitor.name@
                &&& x.1.ticket == gate@.now
                &&& x.1.monitor == monitor
                &&& x.1.active == active
                &&& x.1.layout == layout
                &&& x.1.have_cwebp == have_cwebp
                &&& x.1.files@.len() == 0
                &&& x.1.stage is Grabbing
            } else {
                r is None
            },
    {
        match gate.begin_capture(&monitor) {
            Some(ticket) => {
                let ask = Ask::Grab { output: monitor.name.clone() };
                let shot = Shot {
                    ticket,
                    monitor,
                    active,
                    layout,
                    have_cwebp,
                    files: Vec::new(),
                    stage: Stage::Grabbing,
                };
                Some((ask, shot))
            },
            None => None,
        }
    }
}

/// The file that is asked for.
pub open spec fn asked_file(a: Ask) -> Option<Seq<char>> {
    match a {
        Ask::Encode { picture, path } => Some(path@),
        Ask::SaveCrop { picture, path } => Some(path@),
        _ => None,
    }
}

/// A frame that is given up: every file that was asked for is to be removed.
pub open spec fn given_up(s: Shot, error: Option<Seq<char>>, r: (Ask, Option<Shot>)) -> bool {
    &&& r.0 matches Ask::Discard { files, error: e } && files@ == s.files@ && option_view(e) == error
    &&& r.1 is None
}

/// Another stage of the same frame.
pub open spec fn same_frame(s: Shot, n: Shot) -> bool {
    &&& n.ticket == s.ticket
    &&& n.monitor == s.monitor
    &&& n.active == s.active
    &&& n.layout == s.layout
    &&& n.have_cwebp == s.have_cwebp
}

/// A fresh picture is to be encoded.
pub open spec fn to_encode(s: Shot, g: State, raw: RawFrame, dhash: u64, ts: i64, r: (Ask, Option<Shot>)) -> bool {
    &&& r.0 matches Ask::Encode { picture, path }
    &&& is_scaled(raw.rgba@, raw.width, raw.height, picture)
    &&& path@ == frame_path(ts, dhash == g.last_dhash, preferred_encoder(s.have_cwebp).extension())
    &&& r.1 matches Some(n)
    &&& same_frame(s, n)
    &&& texts(n.files@) == texts(s.files@).push(path@)
    &&& n.stage matches Stage::Encoding { raw: a, dhash: b, ts: c, width, height, path: p }
    &&& a == raw && b == dhash && c == ts && width == picture.width && height == picture.height && p@ == path@
}

/// What becomes of a picture.
pub open spec fn after_picture(s: Shot, g: State, raw: RawFrame, ts: i64, r: (Ask, Option<Shot>)) -> bool {
    if !holdable(raw) {
        given_up(s, Some("picture too large"@), r)
    } else {
        exists|h: u64|
            #[trigger] is_fingerprint(raw.rgba@, raw.width as nat, raw.height as nat, h) && (if !g.lets_write(s.ticket) {
                given_up(s, None, r)
            } else if g.skips(h) {
                r.0 is Unchanged && r.1 is None
            } else {
                to_encode(s, g, raw, h, ts, r)
            })
    }
}

/// What was written of an encoded picture.
pub open spec fn encoded_as(
    raw: RawFrame,
    width: u32,
    height: u32,
    path: Seq<char>,
    encoder: Encoder,
    bytes: i64,
) -> WrittenRow {
    WrittenRow {
        path,
        width,
        height,
        out_w: raw.width,
        out_h: raw.height,
        bytes,
        encoder: encoder.name(),
        crop: None,
        crop_bytes: 0,
    }
}

/// A frame is to be kept: the changes that keep it wait to be made.
pub open spec fn to_keep(s: Shot, g: State, store: Store, dhash: u64, ts: i64, w: WrittenRow, r: (Ask, Option<Shot>)) -> bool {
    if store.open_for_writing() {
        &&& r.0 is Look
        &&& r.1 matches Some(n)
        &&& same_frame(s, n)
        &&& n.files@ == s.files@
        &&& n.stage matches Stage::Keeping { dhash: d, insert, clip, cap, tx }
        &&& d == dhash
        &&& insert@ == frame_row(ts, w, dhash, s.active@, s.monitor.name@)
        &&& clip@ == g.clip_now()
        &&& cap == g.settings.byte_cap
        &&& tx.done() == 0
        &&& n.fits(store)
    } else {
        given_up(s, Some(no_capture()), r)
    }
}

/// The part of a picture that the focused window takes up, as far as that can be
/// told.
pub open spec fn focused_part(s: Shot, raw: RawFrame) -> Option<(int, int, int, int)> {
    if comparable(s.active@, s.monitor@) {
        region(raw.width, raw.height, s.active@, s.monitor@)
    } else {
        None
    }
}

/// What becomes of a frame whose picture was encoded: the part of the focused
/// window is to be kept beside it, where there is one.
pub open spec fn after_encoding(
    s: Shot,
    g: State,
    store: Store,
    raw: RawFrame,
    dhash: u64,
    ts: i64,
    w: WrittenRow,
    r: (Ask, Option<Shot>),
) -> bool {
    if focused_part(s, raw) is Some {
        &&& r.0 matches Ask::SaveCrop { picture, path }
        &&& is_crop(raw.rgba@, raw.width, raw.height, focused_part(s, raw), Some(picture))
        &&& path@ == crop_name(ts)
        &&& r.1 matches Some(n)
        &&& same_frame(s, n)
        &&& texts(n.files@) == texts(s.files@).push(path@)
        &&& n.stage matches Stage::Cropping { dhash: d, ts: t, written }
        &&& d == dhash && t == ts && written@ == (WrittenRow { crop: Some(path@), ..w })
    } else {
        to_keep(s, g, store, dhash, ts, w, r)
    }
}

/// What becomes of a frame once the session was looked at: its next change is
/// made where its stretch of recording goes on, and else it is given up.
pub open spec fn after_look(
    s: Shot,
    g: State,
    store: Store,
    dhash: u64,
    insert: FrameInsert,
    clip: String,
    cap: i64,
    tx: Tx,
    r: (Ask, Option<Shot>),
) -> bool {
    if !g.lets_write(s.ticket) {
        given_up(s, None, r)
    } else if tx.done() == tx.plan().len() {
        &&& r.0 is Seal
        &&& r.1 matches Some(n)
        &&& same_frame(s, n)
        &&& n.files@ == s.files@
        &&& n.stage matches Stage::Sealing { dhash: d, insert: i, clip: c, cap: k, tx: u }
        &&& d == dhash && i == insert && c == clip && k == cap && u.state() == tx.state()
        &&& n.fits(store)
    } else {
        &&& r.0 matches Ask::Write { changes }
        &&& r.1 matches Some(n)
        &&& same_frame(s, n)
        &&& n.files@ == s.files@
        &&& n.stage matches Stage::Keeping { dhash: d, insert: i, clip: c, cap: k, tx: u }
        &&& d == dhash && i == insert && c == clip && k == cap
        &&& u.done() == tx.done() + 1
        &&& u.state() == tx.state().after_all(changes@)
        &&& n.fits(store)
    }
}

fn can_hold(width: u32, height: u32) -> (r: bool)
    ensures
        r == (width * height * 4 <= u32::MAX),
{
    proof {
        assert(0 <= width * height <= 0xffff_ffff * 0xffff_ffff) by (nonlinear_arith)
            requires
                0 <= width <= 0xffff_ffff,
                0 <= height <= 0xffff_ffff,
        ;
    }
    let size: u128 = width as u128 * height as u128 * 4;
    size <= u32::MAX as u128
}

fn can_compare(active: &ActiveWindow, monitor: &Monitor) -> (r: bool)
    ensures
        r == comparable(active@, monitor@),
{
    if active.size.0 <= 0 || active.size.1 <= 0 {
        return true;
    }
    let x: i128 = active.at.0 as i128 - monitor.x as i128;
    let y: i128 = active.at.1 as i128 - monitor.y as i128;
    let low: i128 = i64::MIN as i128;
    let top: i128 = i64::MAX as i128;
    low <= x && x <= top && low <= y && y <= top
}

impl Shot {
    fn give_up(self, error: Option<String>) -> (r: (Ask, Option<Shot>))
        ensures
            given_up(self, option_view(error), r),
    {
        (Ask::Discard { files: self.files, error }, None)
    }

    fn taken(self, gate: &mut Daemon, raw: RawFrame, sight: &Sight, ts: i64) -> (r: (Ask, Option<Shot>))
        ensures
            final(gate)@ == old(gate)@.refreshed(sight@, ts),
            after_picture(self, final(gate)@, raw, ts, r),
    {
        if !can_hold(raw.width, raw.height) {
            gate.refresh_pause(sight, ts);
            return self.give_up(Some("picture too large".to_string()));
        }
        let dhash = dhash::compute(raw.rgba.as_slice(), raw.width, raw.height);
        match gate.after_grab(self.ticket, dhash, sight, ts) {
            Grabbed::Rejected => self.give_up(None),
            Grabbed::Unchanged => (Ask::Unchanged, None),
            Grabbed::Fresh => {
                let picture = encode::downscale_720p(raw.rgba.as_slice(), raw.width, raw.height);
                let path = gate.frame_file(ts, dhash, preferred_ext(self.have_cwebp));
                let mut files = self.files;
                let ghost was = texts(files@);
                files.push(path.clone());
                assert(texts(files@) =~= was.push(path@));
                let stage = Stage::Encoding {
                    raw,
                    dhash,
                    ts,
                    width: picture.width,
                    height: picture.height,
                    path: path.clone(),
                };
                let next = Shot {
                    ticket: self.ticket,
                    monitor: self.monitor,
                    active: self.active,
                    layout: self.layout,
                    have_cwebp: self.have_cwebp,
                    files,
                    stage,
                };
                (Ask::Encode { picture, path }, Some(next))
            },
        }
    }

    fn keep(self, gate: &Daemon, store: &Store, dhash: u64, ts: i64, written: Written) -> (r: (Ask, Option<Shot>))
        requires
            store.wf(),
        ensures
            to_keep(self, gate@, *store, dhash, ts, written@, r),
    {
        if !store.is_writable() {
            return self.give_up(Some("read-only store".to_string()));
        }
        let insert = frame_of(ts, written, dhash, &self.active, &self.monitor);
        let clip = gate.clip_for_frame();
        let cap = gate.settings.byte_cap;
        let work = capture_work(&insert, self.layout.as_str(), clip.as_str(), cap);
        proof {
            lemma_effects_step(store@, work@, 0);
        }
        let tx = Tx::begin(store, work);
        let next = Shot {
            ticket: self.ticket,
            monitor: self.monitor,
            active: self.active,
            layout: self.layout,
            have_cwebp: self.have_cwebp,
            files: self.files,
            stage: Stage::Keeping { dhash, insert, clip, cap, tx },
        };
        (Ask::Look, Some(next))
    }

    fn looked(
        self,
        gate: &mut Daemon,
        Ghost(store): Ghost<Store>,
        dhash: u64,
        insert: FrameInsert,
        clip: String,
        cap: i64,
        tx: Tx,
        sight: &Sight,
        ts: i64,
    ) -> (r: (Ask, Option<Shot>))
        requires
            store.wf(),
            under_way(tx, store, insert, self.layout@, clip, cap),
        ensures
            final(gate)@ == old(gate)@.refreshed(sight@, ts),
            after_look(self, final(gate)@, store, dhash, insert, clip, cap, tx, r),
    {
        let mut tx = tx;
        let ghost before = tx;
        proof {
            lemma_capture_work(store@, tx.plan(), insert@, self.layout@, clip@, cap);
            if tx.done() < tx.plan().len() {
                lemma_effects_step(store@, tx.plan(), tx.done());
                lemma_capture_goes_on(tx.plan(), insert@, self.layout@, clip@, cap, tx.done(), tx.state());
            }
        }
        match gate.write_step(&mut tx, self.ticket, sight, ts) {
            Step::Write(changes) => {
                let next = Shot {
                    ticket: self.ticket,
                    monitor: self.monitor,
                    active: self.active,
                    layout: self.layout,
                    have_cwebp: self.have_cwebp,
                    files: self.files,
                    stage: Stage::Keeping { dhash, insert, clip, cap, tx },
                };
                (Ask::Write { changes }, Some(next))
            },
            Step::Commit => {
                let next = Shot {
                    ticket: self.ticket,
                    monitor: self.monitor,
                    active: self.active,
                    layout: self.layout,
                    have_cwebp: self.have_cwebp,
                    files: self.files,
                    stage: Stage::Sealing { dhash, insert, clip, cap, tx },
                };
                (Ask::Seal, Some(next))
            },
            Step::Abandon => self.give_up(None),
        }
    }

    /// Go on with a frame. Every file that is asked for is on its list of files,
    /// and where the frame is given up, all of the list is to be removed at once.
    /// Nothing is written or made lasting but in the stretch of recording that
    /// the frame was begun in.
    pub fn step(self, gate: &mut Daemon, store: &mut Store, news: News) -> (r: (Ask, Option<Shot>))
        requires
            self.fits(*old(store)),
        ensures
            ({
                let g = final(gate)@;
                match (self.stage, news) {
                    (_, News::Failed { error }) => {
                        &&& *final(gate) == *old(gate)
                        &&& *final(store) == *old(store)
                        &&& given_up(self, Some(error@), r)
                    },
                    (Stage::Grabbing, News::Picture { raw, sight, ts }) => {
                        &&& g == old(gate)@.refreshed(sight@, ts)
                        &&& *final(store) == *old(store)
                        &&& after_picture(self, g, raw, ts, r)
                    },
                    (
                        Stage::Encoding { raw, dhash, ts, width, height, path },
                        News::Encoded { encoder, bytes },
                    ) => {
                        &&& *final(gate) == *old(gate)
                        &&& *final(store) == *old(store)
                        &&& after_encoding(
                            self,
                            g,
                            *final(store),
                            raw,
                            dhash,
                            ts,
                            encoded_as(raw, width, height, path@, encoder, bytes),
                            r,
                        )
                    },
                    (Stage::Cropping { dhash, ts, written }, News::CropSaved { bytes }) => {
                        &&& *final(gate) == *old(gate)
                        &&& *final(store) == *old(store)
                        &&& to_keep(
                            self,
                            g,
                            *final(store),
                            dhash,
                            ts,
                            (WrittenRow { crop_bytes: bytes, ..written@ }),
                            r,
                        )
                    },
                    (Stage::Keeping { dhash, insert, clip, cap, tx }, News::Seen { sight, ts }) => {
                        &&& g == old(gate)@.refreshed(sight@, ts)
                        &&& *final(store) == *old(store)
                        &&& after_look(self, g, *final(store), dhash, insert, clip, cap, tx, r)
                    },
                    (Stage::Sealing { dhash, insert, clip, cap, tx }, News::Sealed) => {
                        &&& g == (State { last_dhash: dhash, encoder: insert.encoder@, ..old(gate)@ })
                        &&& final(store).wf()
                        &&& final(store).like(old(store))
                        &&& final(store)@ == captured(old(store)@, insert@, self.layout@, clip@, cap as int)
                        &&& r.0 matches Ask::Done { event } && event@ == frame_event(insert@)
                        &&& r.1 is None
                    },
                    _ => {
                        &&& *final(gate) == *old(gate)
                        &&& *final(store) == *old(store)
                        &&& given_up(self, Some("out of turn"@), r)
                    },
                }
            }),
            r.1 matches Some(n) ==> n.fits(*final(store)) && texts(n.files@) == (match asked_file(r.0) {
                Some(path) => texts(self.files@).push(path),
                None => texts(self.files@),
            }),
            asked_file(r.0) is Some ==> r.1 is Some,
            r.0 matches Ask::Discard { files, error } ==> files@ == self.files@,
            r.0 is Write || r.0 is Seal ==> final(gate)@.lets_write(self.ticket),
    {
        let Shot { ticket, monitor, active, layout, have_cwebp, files, stage } = self;
        match (stage, news) {
            (_, News::Failed { error }) => (Ask::Discard { files, error: Some(error) }, None),
            (Stage::Grabbing, News::Picture { raw, sight, ts }) => {
                let s = Shot { ticket, monitor, active, layout, have_cwebp, files, stage: Stage::Grabbing };
                s.taken(gate, raw, &sight, ts)
            },
            (Stage::Encoding { raw, dhash, ts, width, height, path }, News::Encoded { encoder, bytes }) => {
                let mut written = Written {
                    path,
                    width,
                    height,
                    out_w: raw.width,
                    out_h: raw.height,
                    bytes,
                    encoder: encoder.as_str().to_string(),
                    crop: None,
                    crop_bytes: 0,
                };
                let part = if can_compare(&active, &monitor) {
                    encode::crop_roi(raw.rgba.as_slice(), raw.width, raw.height, &active, &monitor)
                } else {
                    None
                };
                match part {
                    Some(picture) => {
                        let name = crop_file(ts);
                        let mut files = files;
                        let ghost was = texts(files@);
                        files.push(name.clone());
                        assert(texts(files@) =~= was.push(name@));
                        written.crop = Some(name.clone());
                        let next = Shot {
                            ticket,
                            monitor,
                            active,
                            layout,
                            have_cwebp,
                            files,
                            stage: Stage::Cropping { dhash, ts, written },
                        };
                        (Ask::SaveCrop { picture, path: name }, Some(next))
                    },
                    None => {
                        let s = Shot { ticket, monitor, active, layout, have_cwebp, files, stage: Stage::Grabbing };
                        s.keep(gate, store, dhash, ts, written)
                    },
                }
            },
            (Stage::Cropping { dhash, ts, written }, News::CropSaved { bytes }) => {
                let mut written = written;
                written.crop_bytes = bytes;
                let s = Shot { ticket, monitor, active, layout, have_cwebp, files, stage: Stage::Grabbing };
                s.keep(gate, store, dhash, ts, written)
            },
            (Stage::Keeping { dhash, insert, clip, cap, tx }, News::Seen { sight, ts }) => {
                let s = Shot { ticket, monitor, active, layout, have_cwebp, files, stage: Stage::Grabbing };
                s.looked(gate, Ghost(*store), dhash, insert, clip, cap, tx, &sight, ts)
            },
            (Stage::Sealing { dhash, insert, clip, cap, tx }, News::Sealed) => {
                proof {
                    lemma_capture_work(store@, tx.plan(), insert@, layout@, clip@, cap);
                    assert(tx.plan().take(tx.done()) =~= tx.plan());
                }
                store.finish(tx);
                gate.frame_kept(dhash, insert.encoder.as_str());
                (Ask::Done { event: Event::frame_written(&insert) }, None)
            },
            _ => (Ask::Discard { files, error: Some("out of turn".to_string()) }, None),
        }
    }
}

/// No work that keeps a captured frame gives up.
proof fn lemma_capture_goes_on(
    work: Seq<Work>,
    f: FrameRow,
    layout: Seq<char>,
    clip: Seq<char>,
    cap: i64,
    i: int,
    t: Tables,
)
    requires
        is_capture_work(work, f, layout, clip, cap),
        0 <= i < work.len(),
    ensures
        work[i].effect(t) is Some,
{
}

/// A frame is begun exactly where recording is on, does not stand still, and the
/// focused output has a name; that output is asked for and no other, and the frame
/// belongs to the stretch of recording of that moment.
pub proof fn law_when_a_frame_is_begun(
    g: State,
    monitor: Monitor,
    active: ActiveWindow,
    layout: String,
    have_cwebp: bool,
    r: Option<(Ask, Shot)>,
)
    requires
        Shot::begun(g, monitor, active, layout, have_cwebp, r),
    ensures
        r is Some <==> g.armed && g.pause is None && monitor.name@.len() > 0,
        r matches Some(x) ==> (x.0 matches Ask::Grab { output } && output@ == monitor.name@) && x.1.ticket == g.now
            && x.1.active == active && x.1.monitor == monitor && x.1.layout == layout && x.1.files@.len() == 0,
{
}

/// A picture is encoded only while its stretch of recording goes on, and then it
/// is, unless it shows what the last frame shows and such pictures are passed
/// over. It is written below the directory of frames, in a file of the kind that
/// its encoder writes, and that file is on the list of files to remove.
pub proof fn law_what_becomes_of_a_picture(s: Shot, g: State, raw: RawFrame, ts: i64, r: (Ask, Option<Shot>))
    requires
        after_picture(s, g, raw, ts, r),
    ensures
        r.0 is Encode || r.0 is Unchanged ==> g.armed && g.pause is None && s.ticket == g.now,
        r.0 is Unchanged ==> g.settings.skip_unchanged && g.last_dhash != 0 && is_fingerprint(
            raw.rgba@,
            raw.width as nat,
            raw.height as nat,
            g.last_dhash,
        ),
        raw.width * raw.height * 4 <= u32::MAX && g.armed && g.pause is None && s.ticket == g.now
            && !g.settings.skip_unchanged ==> r.0 is Encode,
        !(r.0 is Encode) && !(r.0 is Unchanged) ==> (r.0 matches Ask::Discard { files, error } && files@ == s.files@),
        r.0 matches Ask::Encode { picture, path } ==> {
            &&& "frames/"@.is_prefix_of(path@)
            &&& s.have_cwebp ==> "webp"@.is_suffix_of(path@)
            &&& !s.have_cwebp ==> "png"@.is_suffix_of(path@)
            &&& ts >= 0 ==> crate::text::occurs(path@, crate::text::decimal(ts as int))
            &&& r.1 matches Some(n) && texts(n.files@).last() == path@ && texts(n.files@).len() == texts(s.files@).len()
                + 1
            &&& raw.width <= 1280 && raw.height <= 1280 ==> picture.bytes@ == raw.rgba@
        },
{
    if let Ask::Encode { picture, path } = r.0 {
        let h = choose|h: u64|
            #[trigger] is_fingerprint(raw.rgba@, raw.width as nat, raw.height as nat, h) && to_encode(s, g, raw, h, ts, r);
        assert(to_encode(s, g, raw, h, ts, r));
        let ext = preferred_encoder(s.have_cwebp).extension();
        crate::daemon::lemma_frame_path(ts, h == g.last_dhash, ext);
        crate::encode::law_small_pictures_stay(raw.rgba@, raw.width, raw.height, picture);
        if ts >= 0 {
            let inner = "/"@ + crate::text::decimal(crate::daemon::day_number(ts)) + "/"@ + crate::text::decimal(
                ts as int,
            );
            let d = crate::text::decimal(ts as int);
            let i = choose|i: int| crate::text::occurs_at(path@, inner, i);
            let at = i + inner.len() - d.len();
            assert(path@.subrange(at, at + d.len()) =~= path@.subrange(i, i + inner.len()).skip(inner.len() - d.len()));
            assert(inner.skip(inner.len() - d.len()) =~= d);
            assert(crate::text::occurs_at(path@, d, at));
        }
    }
}

/// The frame that is kept tells the window in front, its place, the output and the
/// files that were written; it is kept with the text that was copied last in the
/// stretch, within the cap of the settings, and only in an archive that may be
/// written.
pub proof fn law_what_is_kept_of_a_frame(
    s: Shot,
    g: State,
    store: Store,
    dhash: u64,
    ts: i64,
    w: WrittenRow,
    r: (Ask, Option<Shot>),
)
    requires
        to_keep(s, g, store, dhash, ts, w, r),
    ensures
        store.open_for_writing() <==> r.0 is Look,
        !store.open_for_writing() ==> (r.0 matches Ask::Discard { files, error } && files@ == s.files@ && error is Some)
            && r.1 is None,
        store.open_for_writing() ==> (r.1 matches Some(n) && (n.stage matches Stage::Keeping {
            dhash: d,
            insert,
            clip,
            cap,
            tx,
        } && d == dhash && insert@.ts == ts && insert@.app == s.active@.class && insert@.title == s.active@.title
            && insert@.workspace == s.active@.workspace && insert@.output == s.monitor.name@ && insert@.path == w.path
            && insert@.bytes == w.bytes && insert@.crop_path == w.crop && insert@.crop_bytes == w.crop_bytes
            && insert@.crop_x == s.active@.at.0 && insert@.crop_y == s.active@.at.1 && insert@.crop_w == s.active@.size.0
            && insert@.crop_h == s.active@.size.1 && insert@.encoder == w.encoder && insert@.width == w.width
            && insert@.height == w.height && cap == g.settings.byte_cap && tx.done() == 0)),
{
}

/// The part of the focused window is written beside the picture, below the
/// directory of crops, where the window takes up a part of the picture; the frame
/// then refers to it, and it is on the list of files to remove.
pub proof fn law_what_is_kept_beside_a_picture(
    s: Shot,
    g: State,
    store: Store,
    raw: RawFrame,
    dhash: u64,
    ts: i64,
    w: WrittenRow,
    r: (Ask, Option<Shot>),
)
    requires
        after_encoding(s, g, store, raw, dhash, ts, w, r),
        s.active@.size.0 > 0 && s.active@.size.1 > 0,
        s.monitor@.x <= s.active@.at.0 < s.monitor@.x + raw.width,
        s.monitor@.y <= s.active@.at.1 < s.monitor@.y + raw.height,
        s.active@.size.0 < 0x1_0000_0000 && s.active@.size.1 < 0x1_0000_0000,
        raw.width * raw.height * 4 <= u32::MAX,
    ensures
        r.0 matches Ask::SaveCrop { picture, path } && "crops/"@.is_prefix_of(path@) && picture.width >= 1
            && picture.height >= 1 && picture.width <= raw.width && picture.height <= raw.height && (r.1 matches Some(n)
            && texts(n.files@).last() == path@ && (n.stage matches Stage::Cropping { dhash: d, ts: t, written } && t == ts
            && d == dhash && written@.crop == Some(path@) && written@.path == w.path && written@.bytes == w.bytes)),
{
    crate::encode::law_the_crop_is_where_the_window_is(raw.width, raw.height, s.active@, s.monitor@);
    crate::encode::law_crop_lies_in_the_picture(raw.width, raw.height, s.active@, s.monitor@);
    crate::daemon::lemma_crop_name(ts);
}

/// What was encoded is told as it was written: the size of the picture that was
/// taken and of the one that is stored, its file, its length and its encoder.
pub proof fn law_what_was_encoded(raw: RawFrame, width: u32, height: u32, path: Seq<char>, encoder: Encoder, bytes: i64)
    ensures
        ({
            let w = encoded_as(raw, width, height, path, encoder, bytes);
            &&& w.path == path && w.bytes == bytes && w.encoder == encoder.name()
            &&& w.width == width && w.height == height
            &&& w.out_w == raw.width && w.out_h == raw.height
            &&& w.crop is None && w.crop_bytes == 0
        }),
{
}

/// A change is made, and a frame is made lasting, only in its stretch of
/// recording; a frame whose stretch is over leaves no file behind, and one that
/// goes on makes its changes one after the other and is then made lasting.
pub proof fn law_a_frame_is_kept_step_by_step(
    s: Shot,
    g: State,
    store: Store,
    dhash: u64,
    insert: FrameInsert,
    clip: String,
    cap: i64,
    tx: Tx,
    r: (Ask, Option<Shot>),
)
    requires
        after_look(s, g, store, dhash, insert, clip, cap, tx, r),
    ensures
        r.0 is Write || r.0 is Seal <==> g.armed && g.pause is None && s.ticket == g.now,
        !(g.armed && g.pause is None && s.ticket == g.now) ==> (r.0 matches Ask::Discard { files, error } && files@
            == s.files@ && error is None) && r.1 is None,
        r.0 is Seal ==> tx.done() == tx.plan().len(),
        r.0 is Write ==> tx.done() != tx.plan().len() && (r.1 matches Some(n) && (n.stage matches Stage::Keeping {
            dhash: d,
            insert: i,
            clip: c,
            cap: k,
            tx: u,
        } && u.done() == tx.done() + 1 && i == insert && c == clip && k == cap && d == dhash)),
{
}

} // verus!
