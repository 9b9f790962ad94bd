//! Writes that must all happen or not at all, and only while nothing forbids them.
use crate::archive::{lemma_after_push, Change, Tables};
use crate::lookup::{blank, blank_text, box_rows, filed_under, with_boxes};
use crate::rows::{BoxRow, FrameInsert, FrameRow, Layout, LayoutRow, SearchText, TextRow, WordBox};
use crate::store::{clip_of, clip_row, no_capture, Store};
use crate::table::{has_key, row_at};
use vstd::prelude::*;

verus! {

/// One part of a transaction.
pub enum Work {
    /// Make a change.
    Put { change: Change },
    /// Make this the search text of the frame at `ts`; without that frame give up.
    Annotate { ts: i64, row: SearchText },
    /// File a clipboard text under the frame that its moment belongs to.
    File { ts: i64, content: String },
    /// Keep the cap.
    Prune { cap: i64 },
    /// Change nothing.
    Look,
}

/// A clipboard text filed under the frame that its moment belongs to. What the
/// index knows of that frame besides stays.
pub open spec fn filed(t: Tables, ts: i64, content: Seq<char>) -> Tables {
    let k = filed_under(t, ts);
    let row = match row_at(t.ocr, k) {
        Some(r) => r,
        None => blank_text(),
    };
    t.indexed_with(k, TextRow { clip: content, ..row })
}

impl Work {
    /// What the work makes of the archive; nothing where it gives up.
    pub open spec fn effect(self, t: Tables) -> Option<Tables> {
        match self {
            Work::Put { change } => Some(t.after(change)),
            Work::Annotate { ts, row } => if has_key(t.frames, ts) {
                Some(t.indexed_with(ts, row@))
            } else {
                None
            },
            Work::File { ts, content } => Some(filed(t, ts, content@)),
            Work::Prune { cap } => Some(t.pruned(cap as int, false)),
            Work::Look => Some(t),
        }
    }
}

/// What a list of works makes of the archive; nothing where one gives up.
pub open spec fn effects(t: Tables, work: Seq<Work>) -> Option<Tables>
    decreases work.len(),
{
    if work.len() == 0 {
        Some(t)
    } else {
        match effects(t, work.drop_last()) {
            Some(u) => work.last().effect(u),
            None => None,
        }
    }
}

/// What is to be done next in a transaction.
pub enum Step {
    /// Make these changes, in their order.
    Write(Vec<Change>),
    /// Make everything so far lasting.
    Commit,
    /// Undo everything so far.
    Abandon,
}

/// A transaction: the archive as it will be, and the works on the way there.
/// Before each work, and once more before the end, it is asked whether writing
/// is still allowed.
pub struct Tx {
    staged: Store,
    work: Vec<Work>,
    next: usize,
}

/// A step of a transaction: it writes and commits nothing where writing is no
/// longer allowed.
pub open spec fn stepped(before: Tx, after: Tx, allowed: bool, r: Step) -> bool {
    if !allowed {
        &&& r is Abandon
        &&& after.state() == before.state()
        &&& after.done() == before.done()
    } else if before.done() == before.plan().len() {
        &&& r is Commit
        &&& after.state() == before.state()
        &&& after.done() == before.done()
    } else {
        match before.plan()[before.done()].effect(before.state()) {
            None => {
                &&& r is Abandon
                &&& after.state() == before.state()
                &&& after.done() == before.done()
            },
            Some(t) => {
                &&& r matches Step::Write(changes) && before.state().after_all(changes@) == t
                &&& after.state() == t
                &&& after.done() == before.done() + 1
            },
        }
    }
}

impl Tx {
    /// The transaction is valid.
    pub closed spec fn wf(&self) -> bool {
        self.staged.wf() && self.next <= self.work@.len()
    }

    /// The archive as the works so far have made it.
    pub closed spec fn state(&self) -> Tables {
        self.staged@
    }

    /// The store that the transaction was begun on.
    pub closed spec fn on(&self, s: &Store) -> bool {
        self.staged.like(s)
    }

    /// All works of the transaction.
    pub closed spec fn plan(&self) -> Seq<Work> {
        self.work@
    }

    /// The number of works done.
    pub closed spec fn done(&self) -> int {
        self.next as int
    }

    /// A transaction with nothing done.
    pub fn begin(store: &Store, work: Vec<Work>) -> (r: Tx)
        requires
            store.wf(),
        ensures
            r.wf(),
            r.state() == store@,
            r.on(store),
            r.plan() == work@,
            r.done() == 0,
    {
        Tx { staged: store.copy(), work, next: 0 }
    }

    /// Go on, where writing is still allowed.
    pub fn step(&mut self, still: bool) -> (r: Step)
        requires
            old(self).wf(),
        ensures
            final(self).wf(),
            final(self).plan() == old(self).plan(),
            forall|s: &Store| old(self).on(s) ==> #[trigger] final(self).on(s),
            stepped(*old(self), *final(self), still, r),
            0 <= final(self).done() <= final(self).plan().len(),
    {
        if !still {
            return Step::Abandon;
        }
        if self.next == self.work.len() {
            return Step::Commit;
        }
        let ghost t = self.staged@;
        let mut changes: Vec<Change> = Vec::new();
        match &self.work[self.next] {
            Work::Put { change } => {
                proof {
                    lemma_after_push(t, Seq::empty(), *change);
                }
                changes.push(change.clone());
                self.staged.apply(change.clone());
            },
            Work::Annotate { ts, row } => {
                if !self.staged.frames().contains(*ts) {
                    return Step::Abandon;
                }
                let change = Change::Index { ts: *ts, row: row.clone() };
                proof {
                    lemma_after_push(t, Seq::empty(), change);
                }
                changes.push(change.clone());
                self.staged.apply(change);
            },
            Work::File { ts, content } => {
                let k = match self.staged.nearest_frame_ts(*ts) {
                    Some(k) => k,
                    None => *ts,
                };
                let mut row = match self.staged.ocr().get(k) {
                    Some(r) => r.clone(),
                    None => blank(),
                };
                row.clip = content.clone();
                let change = Change::Index { ts: k, row };
                proof {
                    lemma_after_push(t, Seq::empty(), change);
                }
                changes.push(change.clone());
                self.staged.apply(change);
            },
            Work::Prune { cap } => {
                changes = self.staged.prune(*cap, false);
            },
            Work::Look => {},
        }
        self.next += 1;
        Step::Write(changes)
    }
}

/// Somebody who is asked, again and again, whether writing is still allowed.
pub trait Leave {
    /// Asking is possible.
    spec fn ready(&self) -> bool;

    /// The answers that were given so far.
    spec fn answers(&self) -> Seq<bool>;

    /// The `n`th question, counted from zero, can be answered so.
    spec fn can_answer(&self, n: int, answer: bool) -> bool;

    /// Whether writing is still allowed.
    fn still(&mut self) -> (r: bool)
        requires
            old(self).ready(),
        ensures
            final(self).ready(),
            final(self).answers() == old(self).answers().push(r),
            old(self).can_answer(old(self).answers().len() as int, r),
            forall|n: int, b: bool| #[trigger] final(self).can_answer(n, b) == old(self).can_answer(n, b),
    ;
}

/// Somebody who asks a function, and keeps its answers.
pub struct Asking<F> {
    ask: F,
    given: Vec<bool>,
}

impl<F: Fn() -> bool> Asking<F> {
    /// Nothing was asked yet.
    pub fn new(ask: F) -> (r: Self)
        requires
            ask.requires(()),
        ensures
            r.ready(),
            r.answers() == Seq::<bool>::empty(),
            forall|n: int, b: bool| #[trigger] r.can_answer(n, b) == ask.ensures((), b),
    {
        Asking { ask, given: Vec::new() }
    }

    /// The answers that were given so far.
    pub fn given(&self) -> (r: &Vec<bool>)
        ensures
            r@ == self.answers(),
    {
        &self.given
    }
}

impl<F: Fn() -> bool> Leave for Asking<F> {
    closed spec fn ready(&self) -> bool {
        self.ask.requires(())
    }

    closed spec fn answers(&self) -> Seq<bool> {
        self.given@
    }

    closed spec fn can_answer(&self, n: int, answer: bool) -> bool {
        self.ask.ensures((), answer)
    }

    fn still(&mut self) -> (r: bool) {
        let r = (self.ask)();
        self.given.push(r);
        r
    }
}

/// What was asked in a transaction of `n` works: once before each of them and
/// once more before the end, until the first no. It ran to its end exactly where
/// all of these answers were yes.
pub open spec fn polled<L: Leave>(old: L, new: L, n: int, finished: bool) -> bool {
    let first = old.answers().len();
    let last = new.answers().len() - 1;
    &&& new.ready()
    &&& forall|i: int, b: bool| #[trigger] new.can_answer(i, b) == old.can_answer(i, b)
    &&& first <= last <= first + n
    &&& new.answers().take(first as int) == old.answers()
    &&& forall|i: int| first <= i < last ==> #[trigger] new.answers()[i]
    &&& forall|i: int| first <= i <= last ==> old.can_answer(i, #[trigger] new.answers()[i])
    &&& finished <==> last == first + n && new.answers()[last]
}

/// Nobody was asked.
pub open spec fn unasked<L: Leave>(old: L, new: L) -> bool {
    &&& new.ready() == old.ready()
    &&& new.answers() == old.answers()
    &&& forall|i: int, b: bool| #[trigger] new.can_answer(i, b) == old.can_answer(i, b)
}

proof fn lemma_effects_front(t: Tables, work: Seq<Work>, i: int)
    requires
        0 <= i <= work.len(),
        effects(t, work.take(i)) is None,
    ensures
        effects(t, work) is None,
    decreases work.len() - i,
{
    if i < work.len() {
        assert(work.take(i + 1).drop_last() =~= work.take(i));
        lemma_effects_front(t, work, i + 1);
    } else {
        assert(work.take(i) =~= work);
    }
}

/// Where a transaction was ended although writing was allowed, all of its works
/// together come to nothing; where its first work gives up, it asks once.
proof fn lemma_given_up(t: Tables, work: Seq<Work>, n: int, yes: bool)
    requires
        1 <= n <= work.len() + 1,
        effects(t, work.take(n - 1)) is Some,
        yes ==> n <= work.len() && effects(t, work.take(n)) is None,
    ensures
        yes ==> effects(t, work) is None,
        work.len() > 0 && work[0].effect(t) is None ==> n == 1,
{
    if yes {
        lemma_effects_front(t, work, n);
    }
    if work.len() > 0 && work[0].effect(t) is None && n > 1 {
        lemma_effects_step(t, work, 0);
        let front = work.take(n - 1);
        assert(front.take(1) =~= work.take(1));
        lemma_effects_front(t, front, 1);
    }
}

impl Store {
    /// The archive as a transaction that ran to its end has made it.
    pub fn finish(&mut self, tx: Tx)
        requires
            tx.wf(),
            tx.on(old(self)),
        ensures
            final(self).wf(),
            final(self).like(old(self)),
            final(self)@ == tx.state(),
    {
        *self = tx.staged;
    }

    /// Run a transaction. It is all done, or nothing is. Before each work, and
    /// once more before the end, it is asked whether writing is still allowed; a
    /// no ends it, and so does a work that gives up.
    pub fn run<L: Leave>(&mut self, work: Vec<Work>, still: &mut L) -> (r: bool)
        requires
            old(self).wf(),
            old(still).ready(),
        ensures
            final(self).wf(),
            final(self).like(old(self)),
            r ==> effects(old(self)@, work@) == Some(final(self)@),
            !r ==> final(self)@ == old(self)@,
            polled(*old(still), *final(still), work@.len() as int, r),
            ({
                let n = final(still).answers().len() - old(still).answers().len();
                &&& effects(old(self)@, work@.take(n - 1)) is Some
                &&& !r && final(still).answers().last() ==> n <= work@.len() && effects(old(self)@, work@.take(n)) is None
            }),
    {
        let ghost plan = work@;
        let ghost t = self@;
        let ghost before = *still;
        let mut tx = Tx::begin(self, work);
        assert(plan.take(0) =~= Seq::<Work>::empty());
        assert(still.answers().take(before.answers().len() as int) =~= before.answers());
        loop
            invariant
                tx.wf(),
                tx.on(self),
                tx.plan() == plan,
                plan == work@,
                t == self@,
                *self == *old(self),
                self.wf(),
                before == *old(still),
                still.ready(),
                forall|i: int, b: bool| #[trigger] still.can_answer(i, b) == before.can_answer(i, b),
                still.answers().len() == before.answers().len() + tx.done(),
                still.answers().take(before.answers().len() as int) == before.answers(),
                forall|i: int| before.answers().len() <= i < still.answers().len() ==> #[trigger] still.answers()[i],
                forall|i: int|
                    before.answers().len() <= i < still.answers().len() ==> before.can_answer(
                        i,
                        #[trigger] still.answers()[i],
                    ),
                0 <= tx.done() <= plan.len(),
                effects(t, plan.take(tx.done())) == Some(tx.state()),
            decreases plan.len() - tx.done(),
        {
            let ghost so_far = still.answers();
            let answer = still.still();
            let ghost i = tx.done();
            proof {
                assert(still.answers().take(before.answers().len() as int) =~= so_far.take(
                    before.answers().len() as int,
                ));
                assert forall|k: int| before.answers().len() <= k < so_far.len() implies #[trigger] still.answers()[k] by {
                    assert(so_far[k]);
                }
                assert forall|k: int| before.answers().len() <= k < still.answers().len() implies before.can_answer(
                    k,
                    #[trigger] still.answers()[k],
                ) by {
                    if k < so_far.len() {
                        assert(before.can_answer(k, so_far[k]));
                    }
                }
                if i < plan.len() {
                    assert(plan.take(i + 1).drop_last() =~= plan.take(i));
                    assert(plan.take(i + 1).last() == plan[i]);
                } else {
                    assert(plan.take(i) =~= plan);
                }
            }
            match tx.step(answer) {
                Step::Write(_) => {},
                Step::Commit => {
                    self.finish(tx);
                    return true;
                },
                Step::Abandon => {
                    return false;
                },
            }
        }
    }
}

/// What one more work makes of the archive.
pub proof fn lemma_effects_step(t: Tables, work: Seq<Work>, i: int)
    requires
        0 <= i < work.len(),
    ensures
        effects(t, work.take(i + 1)) == (match effects(t, work.take(i)) {
            Some(u) => work[i].effect(u),
            None => None,
        }),
        effects(t, work.take(0)) == Some(t),
{
    assert(work.take(i + 1).drop_last() =~= work.take(i));
    assert(work.take(i + 1).last() == work[i]);
    assert(work.take(0) =~= Seq::<Work>::empty());
}

/// A captured frame, the windows open with it and its search text, within the cap.
pub open spec fn captured(t: Tables, f: FrameRow, layout: Seq<char>, clip: Seq<char>, cap: int) -> Tables {
    t.with_frame(f).with_layout(f.ts, LayoutRow { json: layout }).indexed_with(
        f.ts,
        TextRow { text: Seq::empty(), app: f.app, title: f.title, clip },
    ).pruned(cap, false)
}

/// The recognised text and words of a frame; nothing without the frame.
pub open spec fn annotated(t: Tables, ts: i64, row: TextRow, boxes: Seq<BoxRow>) -> Option<Tables> {
    if has_key(t.frames, ts) {
        Some(with_boxes(t.indexed_with(ts, row).without_boxes(ts), ts, boxes))
    } else {
        None
    }
}

/// A clipboard text, filed under the frame that its moment belongs to, within
/// the cap.
pub open spec fn clipped(t: Tables, ts: i64, mime: Seq<char>, content: Seq<char>, cap: int) -> Tables {
    filed(t.with_clip(ts, clip_row(mime, content)), ts, content).pruned(cap, false)
}

/// The outcome of a transaction of `n` works on a store: all of it or nothing,
/// as the answers are, and refused unasked where the store may not be written.
/// What gives up does so at its first work.
pub open spec fn transacted<L: Leave>(
    old: Store,
    new: Store,
    asked: L,
    after: L,
    n: int,
    effect: Option<Tables>,
    r: Result<bool, String>,
) -> bool {
    &&& new.wf()
    &&& new.like(&old)
    &&& if old.open_for_writing() {
        &&& r is Ok
        &&& r->Ok_0 ==> effect == Some(new@)
        &&& !r->Ok_0 ==> new@ == old@
        &&& match effect {
            Some(t) => polled(asked, after, n, r->Ok_0) && after.answers().last() == r->Ok_0,
            None => !r->Ok_0 && polled(asked, after, 0, after.answers().last()),
        }
    } else {
        &&& r matches Err(m) && m@ == no_capture()
        &&& new@ == old@
        &&& unasked(asked, after)
    }
}

proof fn lemma_effects_push(t: Tables, work: Seq<Work>, w: Work)
    ensures
        effects(t, work.push(w)) == (match effects(t, work) {
            Some(u) => w.effect(u),
            None => None,
        }),
{
    assert(work.push(w).drop_last() =~= work);
}

impl Store {
    /// Keep a captured frame with its layout and its search text, within the cap.
    /// `still` is asked before each write and once more before the end; where it
    /// says no, nothing is kept.
    pub fn commit_capture_tx<L: Leave>(
        &mut self,
        insert: &FrameInsert,
        layout: &str,
        clip: &str,
        byte_cap: i64,
        still: &mut L,
    ) -> (r: Result<bool, String>)
        requires
            old(self).wf(),
            old(still).ready(),
        ensures
            transacted(
                *old(self),
                *final(self),
                *old(still),
                *final(still),
                4,
                Some(captured(old(self)@, insert@, layout@, clip@, byte_cap as int)),
                r,
            ),
    {
        if !self.is_writable() {
            return Err("read-only store".to_string());
        }
        let work = capture_work(insert, layout, clip, byte_cap);
        proof {
            lemma_capture_work(self@, work@, insert@, layout@, clip@, byte_cap);
        }
        let ghost t = self@;
        let ghost plan = work@;
        let done = self.run(work, still);
        proof {
            let n = still.answers().len() - old(still).answers().len();
            lemma_given_up(t, plan, n, !done && still.answers().last());
        }
        Ok(done)
    }

    /// Keep the recognised text and words of a frame. A frame that is not there
    /// is not annotated. The frame goes on to refer to its crop.
    pub fn commit_ocr_tx<L: Leave>(
        &mut self,
        ts: i64,
        text: &str,
        app: &str,
        title: &str,
        clip: &str,
        boxes: &Vec<WordBox>,
        still: &mut L,
    ) -> (r: Result<bool, String>)
        requires
            old(self).wf(),
            old(still).ready(),
        ensures
            transacted(
                *old(self),
                *final(self),
                *old(still),
                *final(still),
                (boxes@.len() + 2) as int,
                annotated(
                    old(self)@,
                    ts,
                    TextRow { text: text@, app: app@, title: title@, clip: clip@ },
                    box_rows(boxes@),
                ),
                r,
            ),
    {
        if !self.is_writable() {
            return Err("read-only store".to_string());
        }
        let work = ocr_work(ts, text, app, title, clip, boxes);
        proof {
            lemma_ocr_work(self@, work@, ts, TextRow { text: text@, app: app@, title: title@, clip: clip@ }, box_rows(boxes@));
        }
        let ghost t = self@;
        let ghost plan = work@;
        let done = self.run(work, still);
        proof {
            let n = still.answers().len() - old(still).answers().len();
            lemma_given_up(t, plan, n, !done && still.answers().last());
        }
        Ok(done)
    }

    /// Keep a clipboard text, filed under the frame that its moment belongs to,
    /// within the cap.
    pub fn commit_clip_tx<L: Leave>(
        &mut self,
        ts: i64,
        mime: &str,
        content: &str,
        byte_cap: i64,
        still: &mut L,
    ) -> (r: Result<bool, String>)
        requires
            old(self).wf(),
            old(still).ready(),
        ensures
            transacted(
                *old(self),
                *final(self),
                *old(still),
                *final(still),
                4,
                Some(clipped(old(self)@, ts, mime@, content@, byte_cap as int)),
                r,
            ),
    {
        if !self.is_writable() {
            return Err("read-only store".to_string());
        }
        let work = clip_work(ts, mime, content, byte_cap);
        proof {
            lemma_clip_work(self@, work@, ts, mime@, content@, byte_cap);
        }
        let ghost t = self@;
        let ghost plan = work@;
        let done = self.run(work, still);
        proof {
            let n = still.answers().len() - old(still).answers().len();
            lemma_given_up(t, plan, n, !done && still.answers().last());
        }
        Ok(done)
    }
}

/// The works that keep a captured frame.
pub open spec fn is_capture_work(
    work: Seq<Work>,
    f: FrameRow,
    layout: Seq<char>,
    clip: Seq<char>,
    cap: i64,
) -> bool {
    &&& work.len() == 4
    &&& work[0] matches Work::Put { change: Change::PutFrame { frame } } && frame@ == f
    &&& work[1] matches Work::Put { change: Change::PutLayout { ts, layout: l } } && ts == f.ts && l@ == (LayoutRow {
        json: layout,
    })
    &&& work[2] matches Work::Put { change: Change::Index { ts, row } } && ts == f.ts && row@ == (TextRow {
        text: Seq::empty(),
        app: f.app,
        title: f.title,
        clip,
    })
    &&& work[3] == (Work::Prune { cap })
}

/// The works that keep a captured frame.
pub fn capture_work(insert: &FrameInsert, layout: &str, clip: &str, byte_cap: i64) -> (r: Vec<Work>)
    ensures
        is_capture_work(r@, insert@, layout@, clip@, byte_cap),
{
    let row = SearchText {
        text: String::new(),
        app: insert.app.clone(),
        title: insert.title.clone(),
        clip: clip.to_string(),
    };
    assert(row@.text =~= Seq::<char>::empty());
    let mut work: Vec<Work> = Vec::new();
    work.push(Work::Put { change: Change::PutFrame { frame: insert.clone() } });
    work.push(Work::Put { change: Change::PutLayout { ts: insert.ts, layout: Layout { json: layout.to_string() } } });
    work.push(Work::Put { change: Change::Index { ts: insert.ts, row } });
    work.push(Work::Prune { cap: byte_cap });
    work
}

/// The works that keep a captured frame make the archive what it is to be.
pub proof fn lemma_capture_work(t: Tables, work: Seq<Work>, f: FrameRow, layout: Seq<char>, clip: Seq<char>, cap: i64)
    requires
        is_capture_work(work, f, layout, clip, cap),
    ensures
        effects(t, work) == Some(captured(t, f, layout, clip, cap as int)),
{
    let none = Seq::<Work>::empty();
    lemma_effects_push(t, none, work[0]);
    lemma_effects_push(t, none.push(work[0]), work[1]);
    lemma_effects_push(t, none.push(work[0]).push(work[1]), work[2]);
    lemma_effects_push(t, none.push(work[0]).push(work[1]).push(work[2]), work[3]);
    assert(none.push(work[0]).push(work[1]).push(work[2]).push(work[3]) =~= work);
}

/// The works that keep the recognised text and words of a frame.
pub open spec fn is_ocr_work(work: Seq<Work>, ts: i64, row: TextRow, boxes: Seq<BoxRow>) -> bool {
    &&& work.len() == boxes.len() + 2
    &&& work[0] matches Work::Annotate { ts: k, row: r } && k == ts && r@ == row
    &&& work[1] == (Work::Put { change: Change::ClearBoxes { ts } })
    &&& forall|i: int|
        2 <= i < work.len() ==> (#[trigger] work[i] matches Work::Put { change: Change::AddBox { ts: k, word } } && k
            == ts && word@ == boxes[i - 2])
}

/// The works that keep the recognised text and words of a frame.
pub fn ocr_work(ts: i64, text: &str, app: &str, title: &str, clip: &str, boxes: &Vec<WordBox>) -> (r: Vec<Work>)
    ensures
        is_ocr_work(
            r@,
            ts,
            TextRow { text: text@, app: app@, title: title@, clip: clip@ },
            box_rows(boxes@),
        ),
{
    let row = SearchText {
        text: text.to_string(),
        app: app.to_string(),
        title: title.to_string(),
        clip: clip.to_string(),
    };
    let ghost said = TextRow { text: text@, app: app@, title: title@, clip: clip@ };
    let ghost rows = box_rows(boxes@);
    assert(row@ =~= said);
    let mut work: Vec<Work> = Vec::new();
    work.push(Work::Annotate { ts, row });
    work.push(Work::Put { change: Change::ClearBoxes { ts } });
    let mut i: usize = 0;
    while i < boxes.len()
        invariant
            i <= boxes@.len(),
            rows == box_rows(boxes@),
            is_ocr_work(work@, ts, said, rows.take(i as int)),
        decreases boxes@.len() - i,
    {
        work.push(Work::Put { change: Change::AddBox { ts, word: boxes[i].clone() } });
        i += 1;
    }
    assert(rows.take(i as int) =~= rows);
    work
}

/// The works that annotate a frame make the archive what it is to be.
pub proof fn lemma_ocr_work(t: Tables, work: Seq<Work>, ts: i64, row: TextRow, boxes: Seq<BoxRow>)
    requires
        is_ocr_work(work, ts, row, boxes),
    ensures
        effects(t, work) == annotated(t, ts, row, boxes),
    decreases boxes.len(),
{
    if boxes.len() == 0 {
        let none = Seq::<Work>::empty();
        lemma_effects_push(t, none, work[0]);
        lemma_effects_push(t, none.push(work[0]), work[1]);
        assert(none.push(work[0]).push(work[1]) =~= work);
    } else {
        let front = work.drop_last();
        assert forall|i: int| 2 <= i < front.len() implies (#[trigger] front[i] matches Work::Put {
            change: Change::AddBox { ts: k, word },
        } && k == ts && word@ == boxes.drop_last()[i - 2]) by {
            assert(work[i] == front[i]);
        }
        lemma_ocr_work(t, front, ts, row, boxes.drop_last());
        assert(work[work.len() - 1] == work.last());
    }
}

/// The works that keep a clipboard text.
pub open spec fn is_clip_work(work: Seq<Work>, ts: i64, mime: Seq<char>, content: Seq<char>, cap: i64) -> bool {
    &&& work.len() == 4
    &&& work[0] matches Work::Put { change: Change::PutClip { ts: k, clip } } && k == ts && clip@ == clip_row(
        mime,
        content,
    )
    &&& work[1] == Work::Look
    &&& work[2] matches Work::File { ts: k, content: c } && k == ts && c@ == content
    &&& work[3] == (Work::Prune { cap })
}

/// The works that keep a clipboard text.
pub fn clip_work(ts: i64, mime: &str, content: &str, byte_cap: i64) -> (r: Vec<Work>)
    ensures
        is_clip_work(r@, ts, mime@, content@, byte_cap),
{
    let mut work: Vec<Work> = Vec::new();
    work.push(Work::Put { change: Change::PutClip { ts, clip: clip_of(mime, content) } });
    work.push(Work::Look);
    work.push(Work::File { ts, content: content.to_string() });
    work.push(Work::Prune { cap: byte_cap });
    work
}

/// The works that keep a clipboard text make the archive what it is to be.
pub proof fn lemma_clip_work(t: Tables, work: Seq<Work>, ts: i64, mime: Seq<char>, content: Seq<char>, cap: i64)
    requires
        is_clip_work(work, ts, mime, content, cap),
    ensures
        effects(t, work) == Some(clipped(t, ts, mime, content, cap as int)),
{
    let none = Seq::<Work>::empty();
    lemma_effects_push(t, none, work[0]);
    lemma_effects_push(t, none.push(work[0]), work[1]);
    lemma_effects_push(t, none.push(work[0]).push(work[1]), work[2]);
    lemma_effects_push(t, none.push(work[0]).push(work[1]).push(work[2]), work[3]);
    assert(none.push(work[0]).push(work[1]).push(work[2]).push(work[3]) =~= work);
}

/// After a capture an archive in order is within the cap, and still in order.
pub proof fn law_capture_keeps_the_cap(t: Tables, f: FrameRow, layout: Seq<char>, clip: Seq<char>, cap: int)
    requires
        t.wf(),
        t.tidy(),
        cap > 0,
    ensures
        captured(t, f, layout, clip, cap).managed() <= cap,
        captured(t, f, layout, clip, cap).wf(),
        captured(t, f, layout, clip, cap).tidy(),
{
    lemma_with_frame_wf(t, f);
    crate::table::lemma_put(t.frames, f.ts, f);
    let a = t.with_frame(f);
    crate::table::lemma_put(a.layouts, f.ts, LayoutRow { json: layout });
    let b = a.with_layout(f.ts, LayoutRow { json: layout });
    let row = TextRow { text: Seq::empty(), app: f.app, title: f.title, clip };
    assert(b.tidy()) by {
        assert forall|k: i64| #[trigger] b.noted_at(k) implies b.observed_at(k) by {
            assert(t.noted_at(k));
        }
    }
    assert(b.observed_at(f.ts));
    lemma_indexed_wf(b, f.ts, row);
    lemma_indexed_tidy(b, f.ts, row);
    crate::archive::law_prune_keeps_the_cap(b.indexed_with(f.ts, row), cap, false);
    crate::archive::law_prune_of_a_tidy_archive(b.indexed_with(f.ts, row), cap, false);
}

/// After a clipboard text was kept an archive in order is within the cap, and
/// still in order.
pub proof fn law_clip_keeps_the_cap(t: Tables, ts: i64, mime: Seq<char>, content: Seq<char>, cap: int)
    requires
        t.wf(),
        t.tidy(),
        cap > 0,
    ensures
        clipped(t, ts, mime, content, cap).managed() <= cap,
        clipped(t, ts, mime, content, cap).wf(),
        clipped(t, ts, mime, content, cap).tidy(),
{
    crate::table::lemma_put(t.clips, ts, clip_row(mime, content));
    let a = t.with_clip(ts, clip_row(mime, content));
    let k = filed_under(a, ts);
    let row = match row_at(a.ocr, k) {
        Some(r) => r,
        None => blank_text(),
    };
    let full = TextRow { clip: content, ..row };
    assert(a.tidy()) by {
        assert forall|k: i64| #[trigger] a.noted_at(k) implies a.observed_at(k) by {
            assert(t.noted_at(k));
        }
    }
    crate::table::lemma_latest(a.frames, ts);
    crate::lookup::law_nearest_frame(a, ts);
    assert(a.observed_at(k)) by {
        assert(has_key(a.clips, ts));
    }
    lemma_indexed_wf(a, k, full);
    lemma_indexed_tidy(a, k, full);
    crate::archive::law_prune_keeps_the_cap(filed(a, ts, content), cap, false);
    crate::archive::law_prune_of_a_tidy_archive(filed(a, ts, content), cap, false);
}

proof fn lemma_indexed_tidy(t: Tables, ts: i64, row: TextRow)
    requires
        t.wf(),
        t.tidy(),
        t.observed_at(ts),
    ensures
        t.indexed_with(ts, row).tidy(),
{
    let u = t.indexed_with(ts, row);
    crate::table::lemma_outside(t.ocr, ts as int, ts as int);
    crate::table::lemma_put(crate::table::outside(t.ocr, ts as int, ts as int), ts, row);
    crate::table::lemma_put(t.plain, ts, row);
    assert forall|k: i64| #[trigger] u.noted_at(k) implies u.observed_at(k) by {
        assert(k == ts || t.noted_at(k));
    }
}

proof fn lemma_with_frame_wf(t: Tables, f: FrameRow)
    requires
        t.wf(),
    ensures
        t.with_frame(f).wf(),
{
    crate::table::lemma_put(t.frames, f.ts, f);
    crate::store::lemma_put_stamped(t.frames, f.ts, f);
}

proof fn lemma_indexed_wf(t: Tables, ts: i64, row: TextRow)
    requires
        t.wf(),
    ensures
        t.indexed_with(ts, row).wf(),
{
    crate::table::lemma_outside(t.ocr, ts as int, ts as int);
    crate::table::lemma_put(crate::table::outside(t.ocr, ts as int, ts as int), ts, row);
    crate::table::lemma_put(t.plain, ts, row);
}

/// Recognised text is kept only of a frame that is there, leaves every frame,
/// with its crop, and every clipboard text, layout and event as it was, and
/// leaves an archive in order as it is.
pub proof fn law_ocr_only_annotates(t: Tables, ts: i64, row: TextRow, boxes: Seq<BoxRow>)
    requires
        t.wf(),
    ensures
        annotated(t, ts, row, boxes) is Some <==> has_key(t.frames, ts),
        annotated(t, ts, row, boxes) matches Some(u) ==> {
            &&& u.frames == t.frames
            &&& u.clips == t.clips
            &&& u.layouts == t.layouts
            &&& u.events == t.events
            &&& u.doomed == t.doomed
            &&& t.tidy() ==> u.tidy()
        },
{
    let a = t.indexed_with(ts, row);
    let b = a.without_boxes(ts);
    lemma_with_boxes(b, ts, boxes);
    if has_key(t.frames, ts) && t.tidy() {
        let u = with_boxes(b, ts, boxes);
        lemma_indexed_tidy(t, ts, row);
        crate::table::lemma_outside(a.boxes, ts as int, ts as int);
        assert forall|k: i64| #[trigger] u.noted_at(k) implies u.observed_at(k) by {
            assert(k == ts || a.noted_at(k));
        }
    }
}

proof fn lemma_with_boxes(t: Tables, ts: i64, boxes: Seq<BoxRow>)
    ensures
        with_boxes(t, ts, boxes) == (Tables { boxes: with_boxes(t, ts, boxes).boxes, ..t }),
        forall|k: i64| #[trigger] has_key(with_boxes(t, ts, boxes).boxes, k) ==> k == ts || has_key(t.boxes, k),
    decreases boxes.len(),
{
    if boxes.len() > 0 {
        let front = with_boxes(t, ts, boxes.drop_last());
        lemma_with_boxes(t, ts, boxes.drop_last());
        crate::table::lemma_has_key_split(with_boxes(t, ts, boxes).boxes);
        assert(with_boxes(t, ts, boxes).boxes.drop_last() =~= front.boxes);
    }
}

/// A captured frame is there under its stamp, with the windows open with it and
/// what it is found by, as long as the cap leaves room for it; every other frame,
/// layout and search text, and every clipboard text, word and pause, is as before.
pub proof fn law_a_captured_frame_is_kept(t: Tables, f: FrameRow, layout: Seq<char>, clip: Seq<char>, k: i64)
    requires
        t.wf(),
    ensures
        ({
            let u = captured(t, f, layout, clip, 0);
            let row = if t.indexed { row_at(u.ocr, f.ts) } else { row_at(u.plain, f.ts) };
            &&& row_at(u.frames, f.ts) == Some(f)
            &&& row_at(u.layouts, f.ts) matches Some(l) && l.json == layout
            &&& row matches Some(r) && r.app == f.app && r.title == f.title && r.clip == clip && r.text.len() == 0
            &&& k != f.ts ==> row_at(u.frames, k) == row_at(t.frames, k) && row_at(u.layouts, k) == row_at(t.layouts, k)
                && row_at(u.ocr, k) == row_at(t.ocr, k) && row_at(u.plain, k) == row_at(t.plain, k)
            &&& u.clips == t.clips && u.boxes == t.boxes && u.events == t.events && u.doomed == t.doomed
        }),
        forall|cap: int|
            cap > 0 && captured(t, f, layout, clip, 0).managed() <= cap ==> #[trigger] captured(t, f, layout, clip, cap)
                == captured(t, f, layout, clip, 0),
{
    let l = LayoutRow { json: layout };
    let row = TextRow { text: Seq::empty(), app: f.app, title: f.title, clip };
    lemma_with_frame_wf(t, f);
    crate::table::lemma_put(t.frames, f.ts, f);
    crate::table::lemma_put(t.layouts, f.ts, l);
    let b = t.with_frame(f).with_layout(f.ts, l);
    crate::archive::law_a_search_text_is_found_again(b, f.ts, row, k);
    assert(captured(t, f, layout, clip, 0) == b.indexed_with(f.ts, row));
}

/// A kept clipboard text is there under its stamp, with its kind, and the frame
/// that was shown when it was copied is found by it; what else that frame is found
/// by stays, and so does every other text, frame, layout, word and pause.
pub proof fn law_a_copied_text_is_kept(t: Tables, ts: i64, mime: Seq<char>, content: Seq<char>, k: i64)
    requires
        t.wf(),
        t.indexed,
    ensures
        ({
            let u = clipped(t, ts, mime, content, 0);
            let at = filed_under(t, ts);
            &&& row_at(u.clips, ts) matches Some(c) && c.mime == mime && c.content == content
            &&& row_at(u.ocr, at) matches Some(r) && r.clip == content
            &&& row_at(t.ocr, at) matches Some(was) ==> (row_at(u.ocr, at) matches Some(now) && now.text == was.text
                && now.app == was.app && now.title == was.title)
            &&& k != ts ==> row_at(u.clips, k) == row_at(t.clips, k)
            &&& k != at ==> row_at(u.ocr, k) == row_at(t.ocr, k)
            &&& u.frames == t.frames && u.layouts == t.layouts && u.boxes == t.boxes && u.events == t.events
        }),
        forall|cap: int|
            cap > 0 && clipped(t, ts, mime, content, 0).managed() <= cap ==> #[trigger] clipped(t, ts, mime, content, cap)
                == clipped(t, ts, mime, content, 0),
{
    let c = clip_row(mime, content);
    crate::table::lemma_put(t.clips, ts, c);
    let a = t.with_clip(ts, c);
    let at = filed_under(a, ts);
    let row = match row_at(a.ocr, at) {
        Some(r) => r,
        None => blank_text(),
    };
    crate::archive::law_a_search_text_is_found_again(a, at, TextRow { clip: content, ..row }, k);
    assert(clipped(t, ts, mime, content, 0) == filed(a, ts, content));
}

/// The recognised text of a frame is what it is found by from then on, its words
/// are the recognised ones and no others, in their order, and the texts and words
/// of other frames stay.
pub proof fn law_recognised_text_is_kept(t: Tables, ts: i64, row: TextRow, boxes: Seq<BoxRow>, k: i64)
    requires
        t.wf(),
        has_key(t.frames, ts),
    ensures
        annotated(t, ts, row, boxes) matches Some(u) && {
            &&& (if t.indexed { row_at(u.ocr, ts) } else { row_at(u.plain, ts) }) == Some(row)
            &&& k != ts ==> row_at(u.ocr, k) == row_at(t.ocr, k) && row_at(u.plain, k) == row_at(t.plain, k)
            &&& u.boxes == crate::table::outside(t.boxes, ts as int, ts as int) + boxes.map_values(|b: BoxRow| (ts, b))
            &&& u.frames == t.frames && u.clips == t.clips && u.layouts == t.layouts && u.events == t.events
        },
{
    crate::archive::law_a_search_text_is_found_again(t, ts, row, k);
    crate::lookup::law_words_are_added(t.indexed_with(ts, row).without_boxes(ts), ts, boxes);
}

/// A transaction that was asked about and allowed throughout has all of its
/// effect; one that was refused once has none; and in an archive that may not be
/// written nobody is asked and nothing is done.
pub proof fn law_all_or_nothing<L: Leave>(
    old: Store,
    new: Store,
    asked: L,
    after: L,
    n: int,
    t: Tables,
    r: Result<bool, String>,
)
    requires
        transacted(old, new, asked, after, n, Some(t), r),
        n >= 0,
    ensures
        !old.open_for_writing() ==> r is Err && new@ == old@ && after.answers() == asked.answers(),
        old.open_for_writing() ==> r is Ok,
        r matches Ok(done) ==> (if done { new@ == t } else { new@ == old@ }),
        r == Ok::<bool, String>(true) ==> after.answers().len() == asked.answers().len() + n + 1 && forall|i: int|
            asked.answers().len() <= i < after.answers().len() ==> #[trigger] after.answers()[i],
        r == Ok::<bool, String>(false) ==> after.answers().len() > asked.answers().len() && !after.answers().last(),
        old.open_for_writing() && (exists|i: int|
            asked.answers().len() <= i < after.answers().len() && !#[trigger] after.answers()[i]) ==> new@ == old@,
{
}

} // verus!
