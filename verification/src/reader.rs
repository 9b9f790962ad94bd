//! The crops of kept frames, read one after the other while somebody is away.
use crate::archive::{Change, Tables};
use crate::clipboard::Stretch;
use crate::daemon::{away, CropTurn};
use crate::gate::{Daemon, Sight, State};
use crate::ipc::{progress_event, Event};
use crate::lookup::{box_rows, clip_in, crop_rows, cropped, next_crops};
use crate::pause::PauseReason;
use crate::query::WordBox;
use crate::rows::{BoxRow, FrameRow, TextRow};
use crate::store::{count, counted, Store};
use crate::table::row_at;
use crate::tx::{annotated, effects, is_ocr_work, lemma_effects_step, lemma_ocr_work, ocr_work, Step, Tx};
use vstd::prelude::*;

verus! {

/// What the reading of crops asks for.
pub enum Want {
    /// Look at the session, and whether this file is there.
    Inspect { path: String },
    /// Read the text in this file, the crop of the frame at `ts`, and look at the
    /// session.
    Read { ts: i64, path: String },
    /// Look at the session.
    Look,
    /// Make these changes, and look at the session.
    Write { changes: Vec<Change> },
    /// Make the changes lasting.
    Seal,
    /// Undo the changes.
    Undo,
    /// Remove the crop of the frame at `ts`, let the frame forget it, and tell.
    Clear { ts: i64, tell: Option<Event> },
    Tell { event: Event },
    /// There is nothing to do for now.
    Rest,
}

/// What came of what was asked for.
pub enum Got {
    Inspected { there: bool, sight: Sight, now: i64 },
    Words { text: String, boxes: Vec<WordBox>, sight: Sight, now: i64 },
    NoWords { sight: Sight, now: i64 },
    Seen { sight: Sight, now: i64 },
    Sealed,
    Done,
    Failed,
}

/// What is being done about a crop.
pub enum Turn {
    Inspecting,
    Reading { ticket: Stretch },
    Annotating { ticket: Stretch, said: Ghost<(TextRow, Seq<BoxRow>)>, tx: Tx },
    Sealing { ticket: Stretch, said: Ghost<(TextRow, Seq<BoxRow>)>, tx: Tx },
    Clearing { ticket: Stretch },
    Waiting,
}

/// Crops that are read one after the other.
pub struct Reader {
    /// The crops, by the stamps of their frames.
    pub pending: Vec<(i64, String)>,
    /// The crop whose turn it is.
    pub at: usize,
    /// The number of crops that were read.
    pub done: i64,
    pub turn: Turn,
}

/// A transaction annotates a frame, and has come some way.
pub open spec fn annotating(tx: Tx, store: Store, ts: i64, said: (TextRow, Seq<BoxRow>)) -> bool {
    &&& tx.wf()
    &&& tx.on(&store)
    &&& is_ocr_work(tx.plan(), ts, said.0, said.1)
    &&& 0 <= tx.done() <= tx.plan().len()
    &&& effects(store@, tx.plan().take(tx.done())) == Some(tx.state())
}

/// The search text of a frame with what was read in its crop.
pub open spec fn annotation(t: Tables, ts: i64, text: Seq<char>) -> TextRow {
    match row_at(t.frames, ts) {
        Some(f) => TextRow { text, app: f.app, title: f.title, clip: clip_in(t, ts) },
        None => TextRow { text, app: Seq::empty(), title: Seq::empty(), clip: clip_in(t, ts) },
    }
}

/// One more, as far as that can be told.
pub open spec fn one_more(n: i64) -> i64 {
    if n < i64::MAX {
        (n + 1) as i64
    } else {
        n
    }
}

impl Reader {
    /// The stamp of the frame whose crop's turn it is.
    pub open spec fn ts(self) -> i64 {
        self.pending@[self.at as int].0
    }

    /// The reading goes with what the archive holds.
    pub open spec fn fits(self, store: Store) -> bool {
        &&& store.wf()
        &&& self.at < self.pending@.len()
        &&& match self.turn {
            Turn::Annotating { ticket, said, tx } => annotating(tx, store, self.ts(), said@),
            Turn::Sealing { ticket, said, tx } => annotating(tx, store, self.ts(), said@) && tx.done()
                == tx.plan().len(),
            _ => true,
        }
    }

    /// The same crops, and the same one of them.
    pub open spec fn same_crop(self, n: Reader) -> bool {
        n.pending == self.pending && n.at == self.at
    }
}

/// The next crop's turn has come, or there is none left.
pub open spec fn moved_on(s: Reader, done: i64, r: (Want, Option<Reader>)) -> bool {
    if s.at + 1 < s.pending@.len() {
        &&& r.0 matches Want::Inspect { path } && path@ == s.pending@[s.at + 1].1@
        &&& r.1 matches Some(n) && n.pending == s.pending && n.at == s.at + 1 && n.done == done && n.turn is Inspecting
    } else {
        r.0 is Rest && r.1 is None
    }
}

/// Something is to be done about the crop before the next one's turn comes.
pub open spec fn waiting(s: Reader, done: i64, r: (Want, Option<Reader>)) -> bool {
    r.1 matches Some(n) && s.same_crop(n) && n.done == done && n.turn is Waiting
}

/// What becomes of a crop that was inspected.
pub open spec fn after_inspection(s: Reader, g: State, there: bool, r: (Want, Option<Reader>)) -> bool {
    if !away(g.pause) {
        r.0 is Rest && r.1 is None
    } else if there {
        &&& r.0 matches Want::Read { ts, path } && ts == s.ts() && path@ == s.pending@[s.at as int].1@
        &&& r.1 matches Some(n) && s.same_crop(n) && n.done == s.done && n.turn == (Turn::Reading { ticket: g.now })
    } else if g.lets_annotate(g.now) {
        &&& r.0 matches Want::Clear { ts, tell } && ts == s.ts() && tell is None
        &&& waiting(s, s.done, r)
    } else {
        moved_on(s, s.done, r)
    }
}

/// What becomes of a crop that something was read in.
pub open spec fn after_words(
    s: Reader,
    g: State,
    store: Store,
    ticket: Stretch,
    text: Seq<char>,
    boxes: Seq<BoxRow>,
    r: (Want, Option<Reader>),
) -> bool {
    if g.lets_annotate(ticket) && store.open_for_writing() {
        &&& r.0 is Look
        &&& r.1 matches Some(n)
        &&& s.same_crop(n) && n.done == s.done
        &&& n.turn matches Turn::Annotating { ticket: k, said, tx }
        &&& k == ticket && said@ == (annotation(store@, s.ts(), text), boxes) && tx.done() == 0
        &&& n.fits(store)
    } else {
        moved_on(s, s.done, r)
    }
}

/// What becomes of an annotation once the session was looked at.
pub open spec fn after_seeing(
    s: Reader,
    g: State,
    store: Store,
    ticket: Stretch,
    said: (TextRow, Seq<BoxRow>),
    tx: Tx,
    r: (Want, Option<Reader>),
) -> bool {
    if !g.lets_annotate(ticket) {
        r.0 is Undo && waiting(s, s.done, r)
    } else if tx.done() == tx.plan().len() {
        &&& r.0 is Seal
        &&& r.1 matches Some(n)
        &&& s.same_crop(n) && n.done == s.done
        &&& n.turn matches Turn::Sealing { ticket: k, said: w, tx: u }
        &&& k == ticket && w@ == said && u.state() == tx.state()
        &&& n.fits(store)
    } else if tx.plan()[tx.done()].effect(tx.state()) is None {
        r.0 is Undo && waiting(s, s.done, r)
    } else {
        &&& r.0 matches Want::Write { changes }
        &&& r.1 matches Some(n)
        &&& s.same_crop(n) && n.done == s.done
        &&& n.turn matches Turn::Annotating { ticket: k, said: w, tx: u }
        &&& k == ticket && w@ == said && u.done() == tx.done() + 1 && u.state() == tx.state().after_all(changes@)
        &&& n.fits(store)
    }
}

/// What becomes of the crop of a frame that was annotated: it is removed where
/// that is still allowed.
pub open spec fn after_annotation(s: Reader, g: State, ticket: Stretch, r: (Want, Option<Reader>)) -> bool {
    let told = progress_event(one_more(s.done), counted(s.pending@.len()) as i64);
    &&& waiting(s, one_more(s.done), r)
    &&& if g.lets_annotate(ticket) {
        &&& r.0 matches Want::Clear { ts, tell }
        &&& ts == s.ts()
        &&& tell matches Some(e) && e@ == told
    } else {
        r.0 matches Want::Tell { event } && event@ == told
    }
}

/// The reading of the crops that wait is begun, where somebody is away.
pub open spec fn begun(g: State, t: Tables, r: Option<(Want, Reader)>) -> bool {
    if g.armed && away(g.pause) && cropped(t.frames).len() > 0 {
        &&& r matches Some(x)
        &&& x.0 matches Want::Inspect { path } && path@ == cropped(t.frames)[0].1
        &&& crop_rows(x.1.pending@) == next_crops(t.frames)
        &&& x.1.at == 0 && x.1.done == 0 && x.1.turn is Inspecting
    } else {
        r is None
    }
}

impl Reader {
    /// Begin to read the crops that wait, where somebody is away.
    pub fn begin(gate: &Daemon, store: &Store) -> (r: Option<(Want, Reader)>)
        ensures
            begun(gate@, store@, r),
            if gate@.armed && away(gate@.pause) && cropped(store@.frames).len() > 0 {
                &&& r matches Some(x)
                &&& x.0 matches Want::Inspect { path } && path@ == cropped(store@.frames)[0].1
                &&& crop_rows(x.1.pending@) == next_crops(store@.frames)
                &&& x.1.at == 0 && x.1.done == 0 && x.1.turn is Inspecting
            } else {
                r is None
            },
    {
        if !gate.is_idle() {
            return None;
        }
        let pending = store.pending_crops();
        assert(crop_rows(pending@).len() == pending@.len());
        if pending.len() == 0 {
            return None;
        }
        assert(crop_rows(pending@)[0] == (pending@[0].0, pending@[0].1@));
        let path = pending[0].1.clone();
        Some((Want::Inspect { path }, Reader { pending, at: 0, done: 0, turn: Turn::Inspecting }))
    }

    fn move_on(self, done: i64) -> (r: (Want, Option<Reader>))
        requires
            self.at < self.pending@.len(),
        ensures
            moved_on(self, done, r),
    {
        if self.at < self.pending.len() - 1 {
            let at: usize = self.at + 1;
            let path = self.pending[at].1.clone();
            (Want::Inspect { path }, Some(Reader { pending: self.pending, at, done, turn: Turn::Inspecting }))
        } else {
            (Want::Rest, None)
        }
    }

    /// Go on with the reading of crops. Nothing is written, made lasting or
    /// removed but where a frame may be annotated.
    pub fn step(self, gate: &mut Daemon, store: &mut Store, got: Got) -> (r: (Want, Option<Reader>))
        requires
            self.fits(*old(store)),
        ensures
            ({
                let g = final(gate)@;
                match (self.turn, got) {
                    (_, Got::Failed) => {
                        &&& *final(gate) == *old(gate)
                        &&& *final(store) == *old(store)
                        &&& r.0 is Undo && waiting(self, self.done, r)
                    },
                    (Turn::Inspecting, Got::Inspected { there, sight, now }) => {
                        &&& g == old(gate)@.refreshed(sight@, now)
                        &&& *final(store) == *old(store)
                        &&& after_inspection(self, g, there, r)
                    },
                    (Turn::Reading { ticket }, Got::Words { text, boxes, sight, now }) => {
                        &&& g == old(gate)@.refreshed(sight@, now)
                        &&& *final(store) == *old(store)
                        &&& after_words(self, g, *final(store), ticket, text@, box_rows(boxes@), r)
                    },
                    (Turn::Reading { ticket }, Got::NoWords { sight, now }) => {
                        &&& g == old(gate)@.refreshed(sight@, now)
                        &&& *final(store) == *old(store)
                        &&& if g.lets_annotate(ticket) {
                            &&& r.0 matches Want::Clear { ts, tell } && ts == self.ts() && tell is None
                            &&& waiting(self, self.done, r)
                        } else {
                            moved_on(self, self.done, r)
                        }
                    },
                    (Turn::Annotating { ticket, said, tx }, Got::Seen { sight, now }) => {
                        &&& g == old(gate)@.refreshed(sight@, now)
                        &&& *final(store) == *old(store)
                        &&& after_seeing(self, g, *final(store), ticket, said@, tx, r)
                    },
                    (Turn::Sealing { ticket, said, tx }, Got::Sealed) => {
                        &&& *final(gate) == *old(gate)
                        &&& final(store).wf()
                        &&& final(store).like(old(store))
                        &&& annotated(old(store)@, self.ts(), said@.0, said@.1) == Some(final(store)@)
                        &&& r.0 is Look
                        &&& r.1 matches Some(n) && self.same_crop(n) && n.done == self.done && n.turn == (
                        Turn::Clearing { ticket })
                    },
                    (Turn::Clearing { ticket }, Got::Seen { sight, now }) => {
                        &&& g == old(gate)@.refreshed(sight@, now)
                        &&& *final(store) == *old(store)
                        &&& after_annotation(self, g, ticket, r)
                    },
                    (Turn::Waiting, Got::Done) => {
                        &&& *final(gate) == *old(gate)
                        &&& *final(store) == *old(store)
                        &&& moved_on(self, self.done, r)
                    },
                    _ => {
                        &&& *final(gate) == *old(gate)
                        &&& *final(store) == *old(store)
                        &&& r.0 is Rest && r.1 is None
                    },
                }
            }),
            r.1 matches Some(n) ==> n.fits(*final(store)),
            r.0 is Write || r.0 is Seal || r.0 is Clear ==> exists|ticket: Stretch| #[trigger]
                final(gate)@.lets_annotate(ticket),
    {
        let Reader { pending, at, done, turn } = self;
        let ts: i64 = pending[at].0;
        match (turn, got) {
            (_, Got::Failed) => (Want::Undo, Some(Reader { pending, at, done, turn: Turn::Waiting })),
            (Turn::Inspecting, Got::Inspected { there, sight, now }) => {
                match gate.crop_turn(there, &sight, now) {
                    CropTurn::Read => {
                        let path = pending[at].1.clone();
                        let ticket = gate.now;
                        (Want::Read { ts, path }, Some(Reader { pending, at, done, turn: Turn::Reading { ticket } }))
                    },
                    CropTurn::Forget => (
                        Want::Clear { ts, tell: None },
                        Some(Reader { pending, at, done, turn: Turn::Waiting }),
                    ),
                    CropTurn::Stop => (Want::Rest, None),
                    _ => Reader { pending, at, done, turn: Turn::Waiting }.move_on(done),
                }
            },
            (Turn::Reading { ticket }, Got::Words { text, boxes, sight, now }) => {
                if !gate.ocr_may_write(ticket, &sight, now) || !store.is_writable() {
                    return Reader { pending, at, done, turn: Turn::Waiting }.move_on(done);
                }
                let (app, title) = store.labels_at(ts);
                let clip = store.clip_at(ts);
                let work = ocr_work(ts, text.as_str(), app.as_str(), title.as_str(), clip.as_str(), &boxes);
                proof {
                    lemma_effects_step(store@, work@, 0);
                    assert(TextRow { text: text@, app: app@, title: title@, clip: clip@ } =~= annotation(
                        store@,
                        ts,
                        text@,
                    ));
                }
                let said: Ghost<(TextRow, Seq<BoxRow>)> = Ghost((annotation(store@, ts, text@), box_rows(boxes@)));
                let tx = Tx::begin(store, work);
                let turn = Turn::Annotating { ticket, said, tx };
                (Want::Look, Some(Reader { pending, at, done, turn }))
            },
            (Turn::Reading { ticket }, Got::NoWords { sight, now }) => {
                if !gate.ocr_may_write(ticket, &sight, now) {
                    return Reader { pending, at, done, turn: Turn::Waiting }.move_on(done);
                }
                (Want::Clear { ts, tell: None }, Some(Reader { pending, at, done, turn: Turn::Waiting }))
            },
            (Turn::Annotating { ticket, said, tx }, Got::Seen { sight, now }) => {
                let mut tx = tx;
                proof {
                    if tx.done() < tx.plan().len() {
                        lemma_effects_step(store@, tx.plan(), tx.done());
                    }
                }
                match gate.ocr_step(&mut tx, ticket, &sight, now) {
                    Step::Write(changes) => {
                        let turn = Turn::Annotating { ticket, said, tx };
                        (Want::Write { changes }, Some(Reader { pending, at, done, turn }))
                    },
                    Step::Commit => {
                        let turn = Turn::Sealing { ticket, said, tx };
                        (Want::Seal, Some(Reader { pending, at, done, turn }))
                    },
                    Step::Abandon => (Want::Undo, Some(Reader { pending, at, done, turn: Turn::Waiting })),
                }
            },
            (Turn::Sealing { ticket, said, tx }, Got::Sealed) => {
                proof {
                    lemma_ocr_work(store@, tx.plan(), ts, said@.0, said@.1);
                    assert(tx.plan().take(tx.done()) =~= tx.plan());
                }
                store.finish(tx);
                (Want::Look, Some(Reader { pending, at, done, turn: Turn::Clearing { ticket } }))
            },
            (Turn::Clearing { ticket }, Got::Seen { sight, now }) => {
                let queued: i64 = count(pending.len());
                let done: i64 = if done < i64::MAX { done + 1 } else { done };
                let event = Event::ocr_progress(done, queued);
                let next = Reader { pending, at, done, turn: Turn::Waiting };
                if gate.ocr_may_write(ticket, &sight, now) {
                    (Want::Clear { ts, tell: Some(event) }, Some(next))
                } else {
                    (Want::Tell { event }, Some(next))
                }
            },
            (Turn::Waiting, Got::Done) => Reader { pending, at, done, turn: Turn::Waiting }.move_on(done),
            _ => (Want::Rest, None),
        }
    }
}

/// Crops are read where recording is on and stands still because nobody is there,
/// and some frame has a crop that says where it is.
pub proof fn law_when_crops_are_read(g: State, t: Tables, r: Option<(Want, Reader)>, i: int)
    requires
        begun(g, t, r),
    ensures
        r is Some ==> g.armed && (g.pause == Some(PauseReason::Idle) || g.pause == Some(PauseReason::Locked)),
        g.armed && (g.pause == Some(PauseReason::Idle) || g.pause == Some(PauseReason::Locked)) && 0 <= i < t.frames.len()
            && (t.frames[i].1.crop_path matches Some(p) && p.len() > 0) ==> (r matches Some(x) && x.0 is Inspect && x.1.at
            == 0 && x.1.done == 0 && x.1.pending@.len() > 0 && (t.frames.len() <= 32 ==> crop_rows(x.1.pending@).contains(
            (t.frames[i].0, t.frames[i].1.crop_path.unwrap()),
        ))),
{
    if 0 <= i < t.frames.len() && (t.frames[i].1.crop_path matches Some(p) && p.len() > 0) {
        let p = t.frames[i].1.crop_path.unwrap();
        crate::lookup::law_crops_that_wait(t.frames, t.frames[i].0, p);
        assert(cropped(t.frames).contains((t.frames[i].0, p)));
        lemma_crop_count(t.frames);
        if r is Some {
            let x = r.unwrap();
            assert(crop_rows(x.1.pending@).len() == x.1.pending@.len());
        }
    }
}

proof fn lemma_crop_count(frames: Seq<(i64, FrameRow)>)
    ensures
        cropped(frames).len() <= frames.len(),
    decreases frames.len(),
{
    if frames.len() > 0 {
        lemma_crop_count(frames.drop_last());
    }
}

/// A crop is read only while nobody is there, and then the one whose turn it is;
/// one that is not there is let go, where that is allowed; and once somebody is
/// there nothing more is done.
pub proof fn law_what_becomes_of_a_crop(s: Reader, g: State, there: bool, r: (Want, Option<Reader>))
    requires
        after_inspection(s, g, there, r),
    ensures
        !(g.pause == Some(PauseReason::Idle) || g.pause == Some(PauseReason::Locked)) ==> r.0 is Rest && r.1 is None,
        r.0 is Read <==> there && (g.pause == Some(PauseReason::Idle) || g.pause == Some(PauseReason::Locked)),
        r.0 matches Want::Read { ts, path } ==> ts == s.pending@[s.at as int].0 && path@ == s.pending@[s.at as int].1@
            && (r.1 matches Some(n) && n.at == s.at && n.pending == s.pending && (n.turn matches Turn::Reading { ticket }
            && ticket == g.now)),
        r.0 matches Want::Clear { ts, tell } ==> !there && g.armed && g.pause == Some(PauseReason::Idle) && ts
            == s.pending@[s.at as int].0 && tell is None,
        r.0 matches Want::Inspect { path } ==> s.at + 1 < s.pending@.len() && path@ == s.pending@[s.at + 1].1@,
{
}

/// After one crop the next one's turn comes, until there is none left.
pub proof fn law_every_crop_has_its_turn(s: Reader, done: i64, r: (Want, Option<Reader>))
    requires
        moved_on(s, done, r),
    ensures
        s.at + 1 < s.pending@.len() <==> r.0 is Inspect,
        r.0 matches Want::Inspect { path } ==> path@ == s.pending@[s.at + 1].1@ && (r.1 matches Some(n) && n.at == s.at
            + 1 && n.pending == s.pending && n.done == done),
        s.at + 1 >= s.pending@.len() ==> r.0 is Rest && r.1 is None,
{
}

/// What is read in a crop becomes the recognised text of its frame, beside the
/// frame's own application and title and the text that was copied last by then.
pub proof fn law_what_is_read_of_a_frame(t: Tables, ts: i64, text: Seq<char>, i: int, j: int)
    requires
        t.wf(),
        0 <= i < t.frames.len(),
        t.frames[i].0 == ts,
    ensures
        annotation(t, ts, text).text == text,
        annotation(t, ts, text).app == t.frames[i].1.app,
        annotation(t, ts, text).title == t.frames[i].1.title,
        0 <= j < t.clips.len() && t.clips[j].0 <= ts && (j + 1 < t.clips.len() ==> t.clips[j + 1].0 > ts) ==> annotation(
            t,
            ts,
            text,
        ).clip == t.clips[j].1.content,
{
    crate::lookup::lemma_row_here(t.frames, i);
    crate::lookup::law_the_clipboard_of_a_moment(t, ts, j);
}

/// What is read is written only where a frame may still be annotated, and only
/// into an archive that may be written; else the next crop's turn comes.
pub proof fn law_what_is_read_is_written(
    s: Reader,
    g: State,
    store: Store,
    ticket: Stretch,
    text: Seq<char>,
    boxes: Seq<BoxRow>,
    r: (Want, Option<Reader>),
)
    requires
        after_words(s, g, store, ticket, text, boxes, r),
    ensures
        r.0 is Look <==> g.armed && ticket == g.now && (g.pause is None || g.pause == Some(PauseReason::Idle))
            && store.open_for_writing(),
        r.0 is Look ==> (r.1 matches Some(n) && n.at == s.at && n.pending == s.pending && (n.turn matches Turn::Annotating {
            ticket: k,
            said,
            tx,
        } && k == ticket && said@.0.text == text && said@.1 == boxes && tx.done() == 0)),
        !(r.0 is Look) ==> moved_on(s, s.done, r),
{
}

/// An annotation is written and made lasting only while it is allowed; else it is
/// undone.
pub proof fn law_an_annotation_is_written_step_by_step(
    s: Reader,
    g: State,
    store: Store,
    ticket: Stretch,
    said: (TextRow, Seq<BoxRow>),
    tx: Tx,
    r: (Want, Option<Reader>),
)
    requires
        after_seeing(s, g, store, ticket, said, tx, r),
    ensures
        r.0 is Write || r.0 is Seal ==> g.armed && ticket == g.now && (g.pause is None || g.pause == Some(
            PauseReason::Idle,
        )),
        !(g.armed && ticket == g.now && (g.pause is None || g.pause == Some(PauseReason::Idle))) ==> r.0 is Undo,
        r.0 is Seal ==> tx.done() == tx.plan().len(),
        r.0 is Write || r.0 is Seal || r.0 is Undo,
        r.1 matches Some(n) && n.at == s.at && n.pending == s.pending && n.done == s.done,
{
}

/// Once a frame is annotated one more crop was read, and that is told; the crop is
/// removed where that is still allowed.
pub proof fn law_a_read_crop_is_removed(s: Reader, g: State, ticket: Stretch, r: (Want, Option<Reader>))
    requires
        after_annotation(s, g, ticket, r),
        s.done < i64::MAX,
    ensures
        r.1 matches Some(n) && n.done == s.done + 1 && n.at == s.at && n.pending == s.pending,
        g.armed && ticket == g.now && (g.pause is None || g.pause == Some(PauseReason::Idle)) ==> (r.0 matches Want::Clear {
            ts,
            tell,
        } && ts == s.pending@[s.at as int].0 && tell is Some),
        r.0 is Clear ==> g.armed && ticket == g.now,
        !(r.0 is Clear) ==> r.0 is Tell,
{
}

} // verus!
