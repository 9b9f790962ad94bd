//! What the archive holds, what each change does to it, and how it is kept
//! within its byte budget.
use crate::rows::{
    BoxRow, Clip, ClipRow, EventRow, FrameInsert, FrameRow, Layout, LayoutRow, PauseEvent,
    PlainText, SearchText, TextRow, WordBox,
};
use crate::table::{
    beyond, has_key, inside, lemma_has_key_split, lemma_least_after, lemma_outside, lemma_put, least_after, lesser, outside, put,
    row_at, sorted, total_of,
};
use vstd::prelude::*;

verus! {

/// The contents of the archive.
#[verifier::ext_equal]
pub struct Tables {
    pub frames: Seq<(i64, FrameRow)>,
    pub clips: Seq<(i64, ClipRow)>,
    pub layouts: Seq<(i64, LayoutRow)>,
    pub events: Seq<(i64, EventRow)>,
    pub boxes: Seq<(i64, BoxRow)>,
    /// The full-text index.
    pub ocr: Seq<(i64, TextRow)>,
    /// What stands in for the full-text index where there is none.
    pub plain: Seq<(i64, TextRow)>,
    /// Files whose rows are gone and that are still to be deleted.
    pub doomed: Seq<Seq<char>>,
    /// There is a full-text index.
    pub indexed: bool,
}

/// One change of the archive.
#[derive(Debug)]
pub enum Change {
    /// Insert a frame, in place of one with its stamp.
    PutFrame { frame: FrameInsert },
    PutClip { ts: i64, clip: Clip },
    PutLayout { ts: i64, layout: Layout },
    AddEvent { ts: i64, event: PauseEvent },
    /// Make this the search text of the frame at `ts`.
    Index { ts: i64, row: SearchText },
    /// Remove the recognised words of a frame.
    ClearBoxes { ts: i64 },
    AddBox { ts: i64, word: WordBox },
    /// Remove every row with a stamp in `lo..=hi` and doom the files of its frames.
    DropRange { lo: i64, hi: i64 },
    /// A doomed file is gone.
    Forget { path: String },
    /// The crop of a frame is gone.
    ClearCrop { ts: i64 },
}

impl Clone for Change {
    fn clone(&self) -> (r: Self)
        ensures
            r == *self,
    {
        match self {
            Change::PutFrame { frame } => Change::PutFrame { frame: frame.clone() },
            Change::PutClip { ts, clip } => Change::PutClip { ts: *ts, clip: clip.clone() },
            Change::PutLayout { ts, layout } => Change::PutLayout { ts: *ts, layout: layout.clone() },
            Change::AddEvent { ts, event } => Change::AddEvent { ts: *ts, event: event.clone() },
            Change::Index { ts, row } => Change::Index { ts: *ts, row: row.clone() },
            Change::ClearBoxes { ts } => Change::ClearBoxes { ts: *ts },
            Change::AddBox { ts, word } => Change::AddBox { ts: *ts, word: word.clone() },
            Change::DropRange { lo, hi } => Change::DropRange { lo: *lo, hi: *hi },
            Change::Forget { path } => Change::Forget { path: path.clone() },
            Change::ClearCrop { ts } => Change::ClearCrop { ts: *ts },
        }
    }
}

/// `paths` with `p` among them.
pub open spec fn doomed_with(paths: Seq<Seq<char>>, p: Seq<char>) -> Seq<Seq<char>> {
    if paths.contains(p) {
        paths
    } else {
        paths.push(p)
    }
}

/// `paths` with the files of a frame among them.
pub open spec fn doomed_frame(paths: Seq<Seq<char>>, f: FrameRow) -> Seq<Seq<char>> {
    match f.crop_path {
        Some(c) => doomed_with(doomed_with(paths, f.path), c),
        None => doomed_with(paths, f.path),
    }
}

/// `paths` with the files of frames among them.
pub open spec fn doomed_frames(paths: Seq<Seq<char>>, gone: Seq<(i64, FrameRow)>) -> Seq<Seq<char>>
    decreases gone.len(),
{
    if gone.len() == 0 {
        paths
    } else {
        doomed_frame(doomed_frames(paths, gone.drop_last()), gone.last().1)
    }
}

/// `paths` without `p`.
pub open spec fn forgotten(paths: Seq<Seq<char>>, p: Seq<char>) -> Seq<Seq<char>>
    decreases paths.len(),
{
    if paths.len() == 0 {
        paths
    } else if paths.last() == p {
        forgotten(paths.drop_last(), p)
    } else {
        forgotten(paths.drop_last(), p).push(paths.last())
    }
}

/// The frame without its crop.
pub open spec fn without_crop(f: FrameRow) -> FrameRow {
    FrameRow { crop_path: None, crop_bytes: 0, ..f }
}

impl Tables {
    /// The keyed tables hold one row to a stamp, and a frame stands under its own.
    pub open spec fn wf(self) -> bool {
        &&& sorted(self.frames)
        &&& sorted(self.clips)
        &&& sorted(self.layouts)
        &&& sorted(self.ocr)
        &&& sorted(self.plain)
        &&& self.doomed.no_duplicates()
        &&& forall|i: int| 0 <= i < self.frames.len() ==> #[trigger] self.frames[i].1.ts == self.frames[i].0
    }

    /// An archive without rows.
    pub open spec fn empty(indexed: bool) -> Tables {
        Tables {
            frames: Seq::empty(),
            clips: Seq::empty(),
            layouts: Seq::empty(),
            events: Seq::empty(),
            boxes: Seq::empty(),
            ocr: Seq::empty(),
            plain: Seq::empty(),
            doomed: Seq::empty(),
            indexed,
        }
    }

    /// The bytes that count against the cap: pictures and crops, clipboard
    /// texts, layouts, search texts and recognised words.
    pub open spec fn managed(self) -> int {
        total_of::<FrameInsert>(self.frames) + total_of::<Clip>(self.clips) + total_of::<Layout>(self.layouts) + total_of::<SearchText>(self.ocr)
            + total_of::<PlainText>(self.plain) + total_of::<WordBox>(self.boxes)
    }

    /// The least stamp after another among frames, clips, layouts and events.
    pub open spec fn least_after(self, after: Option<i64>) -> Option<i64> {
        lesser(
            lesser(least_after(self.frames, after), least_after(self.clips, after)),
            lesser(least_after(self.layouts, after), least_after(self.events, after)),
        )
    }

    /// The rows among frames, clips, layouts and events.
    pub open spec fn observations(self) -> nat {
        self.frames.len() + self.clips.len() + self.layouts.len() + self.events.len()
    }

    /// There is a frame, a clip, a layout or an event at `k`.
    pub open spec fn observed_at(self, k: i64) -> bool {
        has_key(self.frames, k) || has_key(self.clips, k) || has_key(self.layouts, k) || has_key(self.events, k)
    }

    /// There is a search text or a recognised word at `k`.
    pub open spec fn noted_at(self, k: i64) -> bool {
        has_key(self.ocr, k) || has_key(self.plain, k) || has_key(self.boxes, k)
    }

    /// Every search text and every recognised word belongs to an observation.
    pub open spec fn tidy(self) -> bool {
        forall|k: i64| #[trigger] self.noted_at(k) ==> self.observed_at(k)
    }

    /// Every row with a stamp in `lo..=hi` is gone and the files of its frames
    /// are doomed.
    pub open spec fn cleared(self, lo: int, hi: int) -> Tables {
        Tables {
            frames: outside(self.frames, lo, hi),
            clips: outside(self.clips, lo, hi),
            layouts: outside(self.layouts, lo, hi),
            events: outside(self.events, lo, hi),
            boxes: outside(self.boxes, lo, hi),
            ocr: outside(self.ocr, lo, hi),
            plain: outside(self.plain, lo, hi),
            doomed: doomed_frames(self.doomed, inside(self.frames, lo, hi)),
            indexed: self.indexed,
        }
    }

    /// `f` is the frame at its stamp.
    pub open spec fn with_frame(self, f: FrameRow) -> Tables {
        Tables { frames: put(self.frames, f.ts, f), ..self }
    }

    /// `c` is the clipboard text at `ts`.
    pub open spec fn with_clip(self, ts: i64, c: ClipRow) -> Tables {
        Tables { clips: put(self.clips, ts, c), ..self }
    }

    /// `l` is the layout at `ts`.
    pub open spec fn with_layout(self, ts: i64, l: LayoutRow) -> Tables {
        Tables { layouts: put(self.layouts, ts, l), ..self }
    }

    /// One more event.
    pub open spec fn with_event(self, ts: i64, e: EventRow) -> Tables {
        Tables { events: self.events.push((ts, e)), ..self }
    }

    /// No word is recognised in the frame at `ts`.
    pub open spec fn without_boxes(self, ts: i64) -> Tables {
        Tables { boxes: outside(self.boxes, ts as int, ts as int), ..self }
    }

    /// One more word is recognised in the frame at `ts`.
    pub open spec fn with_box(self, ts: i64, b: BoxRow) -> Tables {
        Tables { boxes: self.boxes.push((ts, b)), ..self }
    }

    /// `row` is the search text of the frame at `ts`.
    pub open spec fn indexed_with(self, ts: i64, row: TextRow) -> Tables {
        if self.indexed {
            Tables { ocr: put(outside(self.ocr, ts as int, ts as int), ts, row), ..self }
        } else {
            Tables {
                ocr: outside(self.ocr, ts as int, ts as int),
                plain: put(self.plain, ts, row),
                ..self
            }
        }
    }

    /// The frame at `ts` has no crop any more.
    pub open spec fn crop_cleared(self, ts: i64) -> Tables {
        match row_at(self.frames, ts) {
            Some(f) => Tables { frames: put(self.frames, ts, without_crop(f)), ..self },
            None => self,
        }
    }

    /// What a change makes of the archive.
    pub open spec fn after(self, c: Change) -> Tables {
        match c {
            Change::PutFrame { frame } => self.with_frame(frame@),
            Change::PutClip { ts, clip } => self.with_clip(ts, clip@),
            Change::PutLayout { ts, layout } => self.with_layout(ts, layout@),
            Change::AddEvent { ts, event } => self.with_event(ts, event@),
            Change::Index { ts, row } => self.indexed_with(ts, row@),
            Change::ClearBoxes { ts } => self.without_boxes(ts),
            Change::AddBox { ts, word } => self.with_box(ts, word@),
            Change::DropRange { lo, hi } => self.cleared(lo as int, hi as int),
            Change::Forget { path } => Tables { doomed: forgotten(self.doomed, path@), ..self },
            Change::ClearCrop { ts } => self.crop_cleared(ts),
        }
    }

    /// What a list of changes makes of the archive.
    pub open spec fn after_all(self, cs: Seq<Change>) -> Tables
        decreases cs.len(),
    {
        if cs.len() == 0 {
            self
        } else {
            self.after_all(cs.drop_last()).after(cs.last())
        }
    }

    /// The last stamp of the window that starts with the oldest observation.
    pub open spec fn window_end(self) -> int {
        match self.least_after(self.least_after(None)) {
            Some(n) => n - 1,
            None => i64::MAX as int,
        }
    }

    /// The archive, pruned to a cap: while its bytes exceed the cap, the window
    /// of its oldest observation is cleared. A window starts with its oldest
    /// observation, or with the epoch.
    pub open spec fn pruned(self, cap: int, from_epoch: bool) -> Tables
        decreases self.observations(),
    {
        if cap <= 0 || self.managed() <= cap {
            self
        } else {
            match self.least_after(None) {
                None => self,
                Some(ts) => {
                    let lo = if from_epoch { 0int } else { ts as int };
                    let next = self.cleared(lo, self.window_end());
                    if next.observations() < self.observations() {
                        next.pruned(cap, from_epoch)
                    } else {
                        next
                    }
                },
            }
        }
    }

    /// The number of windows that pruning clears.
    pub open spec fn windows_pruned(self, cap: int, from_epoch: bool) -> nat
        decreases self.observations(),
    {
        if cap <= 0 || self.managed() <= cap {
            0
        } else {
            match self.least_after(None) {
                None => 0,
                Some(ts) => {
                    let lo = if from_epoch { 0int } else { ts as int };
                    let next = self.cleared(lo, self.window_end());
                    if next.observations() < self.observations() {
                        1 + next.windows_pruned(cap, from_epoch)
                    } else {
                        1
                    }
                },
            }
        }
    }

    /// The archive without its `n` oldest windows.
    pub open spec fn trimmed(self, n: nat, from_epoch: bool) -> Tables
        decreases n,
    {
        if n == 0 {
            self
        } else {
            let t = self.trimmed((n - 1) as nat, from_epoch);
            match t.least_after(None) {
                Some(ts) => t.cleared(if from_epoch { 0int } else { ts as int }, t.window_end()),
                None => t,
            }
        }
    }

    /// No observation lies before the epoch.
    pub open spec fn after_epoch(self) -> bool {
        forall|k: i64| #[trigger] self.observed_at(k) ==> k >= 0
    }
}

/// Removing two ranges that touch or overlap removes the range they make up.
proof fn lemma_outside_twice<V>(s: Seq<(i64, V)>, lo: int, a: int, lo2: int, b: int)
    requires
        lo <= lo2 <= a + 1,
        a <= b,
    ensures
        outside(outside(s, lo, a), lo2, b) == outside(s, lo, b),
    decreases s.len(),
{
    if s.len() > 0 {
        lemma_outside_twice(s.drop_last(), lo, a, lo2, b);
        let q = outside(s.drop_last(), lo, a);
        assert(q.push(s.last()).drop_last() =~= q);
    }
}

/// The rows in a range, taken in two steps.
proof fn lemma_inside_twice<V>(s: Seq<(i64, V)>, lo: int, a: int, lo2: int, b: int)
    requires
        sorted(s),
        lo <= lo2 <= a + 1,
        a <= b,
    ensures
        inside(s, lo, a) + inside(outside(s, lo, a), lo2, b) == inside(s, lo, b),
    decreases s.len(),
{
    if s.len() > 0 {
        let f = s.drop_last();
        let k = s.last().0;
        lemma_inside_twice(f, lo, a, lo2, b);
        let q = outside(f, lo, a);
        assert(q.push(s.last()).drop_last() =~= q);
        if lo <= k <= a {
            assert forall|i: int| 0 <= i < f.len() implies f[i].0 <= a by {
                assert(s[i].0 < s[s.len() - 1].0);
            }
            lemma_inside_none(f, lo, a, lo2, b);
            assert(inside(s, lo, a) + inside(q, lo2, b) =~= inside(f, lo, a).push(s.last()));
            assert(inside(f, lo, a) + inside(q, lo2, b) =~= inside(f, lo, a));
        } else if lo2 <= k <= b {
            assert(inside(f, lo, a) + inside(q, lo2, b).push(s.last()) =~= (inside(f, lo, a) + inside(q, lo2, b)).push(
                s.last(),
            ));
        }
    }
}

proof fn lemma_inside_none<V>(s: Seq<(i64, V)>, lo: int, a: int, lo2: int, b: int)
    requires
        lo <= lo2,
        forall|i: int| 0 <= i < s.len() ==> #[trigger] s[i].0 <= a,
    ensures
        inside(outside(s, lo, a), lo2, b) == Seq::<(i64, V)>::empty(),
    decreases s.len(),
{
    if s.len() > 0 {
        assert(s[s.len() - 1].0 <= a);
        assert forall|i: int| 0 <= i < s.drop_last().len() implies #[trigger] s.drop_last()[i].0 <= a by {
            assert(s[i].0 <= a);
        }
        lemma_inside_none(s.drop_last(), lo, a, lo2, b);
        let q = outside(s.drop_last(), lo, a);
        assert(q.push(s.last()).drop_last() =~= q);
    }
}

proof fn lemma_doomed_twice(paths: Seq<Seq<char>>, a: Seq<(i64, FrameRow)>, b: Seq<(i64, FrameRow)>)
    ensures
        doomed_frames(doomed_frames(paths, a), b) == doomed_frames(paths, a + b),
    decreases b.len(),
{
    if b.len() == 0 {
        assert(a + b =~= a);
    } else {
        lemma_doomed_twice(paths, a, b.drop_last());
        assert((a + b).drop_last() =~= a + b.drop_last());
    }
}

/// The list of doomed files keeps what was in it, holds the files of every
/// frame that went, and names each file once.
proof fn lemma_doomed(paths: Seq<Seq<char>>, gone: Seq<(i64, FrameRow)>)
    ensures
        forall|p: Seq<char>| paths.contains(p) ==> #[trigger] doomed_frames(paths, gone).contains(p),
        forall|i: int|
            0 <= i < gone.len() ==> doomed_frames(paths, gone).contains((#[trigger] gone[i]).1.path),
        forall|i: int, c: Seq<char>|
            0 <= i < gone.len() && (#[trigger] gone[i]).1.crop_path == Some(c) ==> #[trigger] doomed_frames(
                paths,
                gone,
            ).contains(c),
        paths.no_duplicates() ==> doomed_frames(paths, gone).no_duplicates(),
    decreases gone.len(),
{
    if gone.len() > 0 {
        let f = gone.drop_last();
        let q = doomed_frames(paths, f);
        lemma_doomed(paths, f);
        let x = gone.last().1;
        lemma_doomed_with(q, x.path);
        let r = doomed_with(q, x.path);
        if x.crop_path is Some {
            lemma_doomed_with(r, x.crop_path.unwrap());
        }
        assert forall|i: int| 0 <= i < gone.len() implies doomed_frames(paths, gone).contains(
            (#[trigger] gone[i]).1.path,
        ) by {
            if i < f.len() {
                assert(q.contains(f[i].1.path));
            }
        }
        assert forall|i: int, c: Seq<char>|
            0 <= i < gone.len() && (#[trigger] gone[i]).1.crop_path == Some(c) implies #[trigger] doomed_frames(
            paths,
            gone,
        ).contains(c) by {
            if i < f.len() {
                assert(f[i].1.crop_path == Some(c));
                assert(q.contains(c));
            }
        }
    }
}

proof fn lemma_doomed_with(paths: Seq<Seq<char>>, p: Seq<char>)
    ensures
        doomed_with(paths, p).contains(p),
        forall|q: Seq<char>| paths.contains(q) ==> #[trigger] doomed_with(paths, p).contains(q),
        paths.no_duplicates() ==> doomed_with(paths, p).no_duplicates(),
{
    let r = doomed_with(paths, p);
    if !paths.contains(p) {
        assert(r[paths.len() as int] == p);
        assert forall|q: Seq<char>| paths.contains(q) implies #[trigger] r.contains(q) by {
            let i = choose|i: int| 0 <= i < paths.len() && paths[i] == q;
            assert(r[i] == q);
        }
    }
}

/// The least stamp after another is observed, and none lies between.
pub proof fn lemma_oldest(t: Tables, after: Option<i64>)
    ensures
        match t.least_after(after) {
            Some(k) => {
                &&& t.observed_at(k)
                &&& beyond(k, after)
                &&& forall|m: i64| #[trigger] t.observed_at(m) && beyond(m, after) ==> k <= m
            },
            None => forall|m: i64| #[trigger] t.observed_at(m) ==> !beyond(m, after),
        },
        t.least_after(None) is None <==> t.observations() == 0,
{
    lemma_least_after(t.frames, after);
    lemma_least_after(t.clips, after);
    lemma_least_after(t.layouts, after);
    lemma_least_after(t.events, after);
    lemma_least_some(t.frames);
    lemma_least_some(t.clips);
    lemma_least_some(t.layouts);
    lemma_least_some(t.events);
}

proof fn lemma_least_some<V>(s: Seq<(i64, V)>)
    ensures
        least_after(s, None) is None <==> s.len() == 0,
{
    if s.len() > 0 {
        assert(beyond(s.last().0, None));
    }
}

proof fn lemma_inside_some<V>(s: Seq<(i64, V)>, lo: int, hi: int, k: i64)
    requires
        has_key(s, k),
        lo <= k <= hi,
    ensures
        inside(s, lo, hi).len() > 0,
    decreases s.len(),
{
    crate::table::lemma_has_key_split(s);
    if s.last().0 != k {
        lemma_inside_some(s.drop_last(), lo, hi, k);
    }
}

/// Clearing a range keeps the archive valid and takes away the observations in
/// the range, and no others.
pub proof fn lemma_cleared(t: Tables, lo: int, hi: int)
    requires
        t.wf(),
    ensures
        t.cleared(lo, hi).wf(),
        forall|k: i64| #[trigger] t.cleared(lo, hi).observed_at(k) <==> t.observed_at(k) && !(lo <= k <= hi),
        t.cleared(lo, hi).observations() <= t.observations(),
        forall|k: i64|
            #[trigger] t.observed_at(k) && lo <= k <= hi ==> t.cleared(lo, hi).observations() < t.observations(),
{
    let u = t.cleared(lo, hi);
    lemma_outside(t.frames, lo, hi);
    lemma_outside(t.clips, lo, hi);
    lemma_outside(t.layouts, lo, hi);
    lemma_outside(t.events, lo, hi);
    lemma_outside(t.ocr, lo, hi);
    lemma_outside(t.plain, lo, hi);
    lemma_doomed(t.doomed, inside(t.frames, lo, hi));
    lemma_stamped(t.frames, lo, hi);
    assert forall|k: i64| #[trigger] u.observed_at(k) <==> t.observed_at(k) && !(lo <= k <= hi) by {
        assert(has_key(u.frames, k) <==> has_key(t.frames, k) && !(lo <= k <= hi));
        assert(has_key(u.clips, k) <==> has_key(t.clips, k) && !(lo <= k <= hi));
        assert(has_key(u.layouts, k) <==> has_key(t.layouts, k) && !(lo <= k <= hi));
        assert(has_key(u.events, k) <==> has_key(t.events, k) && !(lo <= k <= hi));
    }
    assert forall|k: i64| #[trigger] t.observed_at(k) && lo <= k <= hi implies u.observations() < t.observations() by {
        if has_key(t.frames, k) {
            lemma_inside_some(t.frames, lo, hi, k);
        } else if has_key(t.clips, k) {
            lemma_inside_some(t.clips, lo, hi, k);
        } else if has_key(t.layouts, k) {
            lemma_inside_some(t.layouts, lo, hi, k);
        } else {
            lemma_inside_some(t.events, lo, hi, k);
        }
    }
}

proof fn lemma_stamped(s: Seq<(i64, FrameRow)>, lo: int, hi: int)
    requires
        forall|i: int| 0 <= i < s.len() ==> #[trigger] s[i].1.ts == s[i].0,
    ensures
        forall|i: int|
            0 <= i < outside(s, lo, hi).len() ==> #[trigger] outside(s, lo, hi)[i].1.ts == outside(s, lo, hi)[i].0,
    decreases s.len(),
{
    if s.len() > 0 {
        let f = s.drop_last();
        assert forall|i: int| 0 <= i < f.len() implies #[trigger] f[i].1.ts == f[i].0 by {
            assert(s[i].1.ts == s[i].0);
        }
        lemma_stamped(f, lo, hi);
        assert(s[s.len() - 1].1.ts == s[s.len() - 1].0);
    }
}

/// Clearing two ranges that touch or overlap clears the range they make up.
pub proof fn lemma_cleared_twice(t: Tables, lo: int, a: int, lo2: int, b: int)
    requires
        t.wf(),
        lo <= lo2 <= a + 1,
        a <= b,
    ensures
        t.cleared(lo, a).cleared(lo2, b) == t.cleared(lo, b),
{
    lemma_outside_twice(t.frames, lo, a, lo2, b);
    lemma_outside_twice(t.clips, lo, a, lo2, b);
    lemma_outside_twice(t.layouts, lo, a, lo2, b);
    lemma_outside_twice(t.events, lo, a, lo2, b);
    lemma_outside_twice(t.boxes, lo, a, lo2, b);
    lemma_outside_twice(t.ocr, lo, a, lo2, b);
    lemma_outside_twice(t.plain, lo, a, lo2, b);
    lemma_inside_twice(t.frames, lo, a, lo2, b);
    lemma_doomed_twice(t.doomed, inside(t.frames, lo, a), inside(outside(t.frames, lo, a), lo2, b));
}

/// The start of the first window that pruning clears.
pub open spec fn prune_start(t: Tables, from_epoch: bool) -> int {
    if from_epoch {
        0
    } else {
        match t.least_after(None) {
            Some(ts) => ts as int,
            None => 0,
        }
    }
}

/// What is left of `t` once its oldest observations are gone up to `cut`.
pub open spec fn left_after(t: Tables, u: Tables, from_epoch: bool, cut: int) -> bool {
    &&& u == t.cleared(prune_start(t, from_epoch), cut)
    &&& u.wf()
    &&& t.least_after(None) matches Some(ts) && ts <= cut <= i64::MAX
    &&& match u.least_after(None) {
        Some(k) => k == cut + 1,
        None => true,
    }
}

/// The window of the oldest observation holds it; what is left starts after it.
pub proof fn lemma_window(t: Tables, from_epoch: bool)
    requires
        t.wf(),
        from_epoch ==> t.after_epoch(),
        t.observations() > 0,
    ensures
        left_after(t, t.cleared(prune_start(t, from_epoch), t.window_end()), from_epoch, t.window_end()),
        t.cleared(prune_start(t, from_epoch), t.window_end()).observations() < t.observations(),
        from_epoch ==> t.cleared(prune_start(t, from_epoch), t.window_end()).after_epoch(),
{
    lemma_oldest(t, None);
    let ts = t.least_after(None).unwrap();
    lemma_oldest(t, Some(ts));
    let u = t.cleared(prune_start(t, from_epoch), t.window_end());
    lemma_cleared(t, prune_start(t, from_epoch), t.window_end());
    lemma_oldest(u, None);
    assert(beyond(ts, None));
    assert(t.observed_at(ts));
    assert(prune_start(t, from_epoch) <= ts <= t.window_end());
    assert forall|m: i64| #[trigger] t.observed_at(m) implies ts <= m by {
        assert(beyond(m, None));
    }
    match t.least_after(Some(ts)) {
        Some(k) => {
            assert(t.observed_at(k));
            assert(u.observed_at(k));
            assert(beyond(k, None));
            if u.least_after(None) is Some {
                let m = u.least_after(None).unwrap();
                assert(u.observed_at(m));
                assert(t.observed_at(m));
                assert(beyond(m, Some(ts)));
                assert(k <= m);
            }
        },
        None => {
            if u.least_after(None) is Some {
                let m = u.least_after(None).unwrap();
                assert(u.observed_at(m));
                assert(t.observed_at(m));
                assert(beyond(m, Some(ts)));
            }
        },
    }
}

/// One more change after a list of changes.
pub proof fn lemma_after_push(t: Tables, cs: Seq<Change>, c: Change)
    ensures
        t.after_all(cs.push(c)) == t.after_all(cs).after(c),
{
    assert(cs.push(c).drop_last() =~= cs);
}

/// What is left once windows have been pruned is the archive without one range
/// of stamps: its oldest observations are gone up to some moment, everything
/// after it stays, and the files of the frames that went are doomed.
pub proof fn law_prune_takes_the_oldest(t: Tables, n: nat, from_epoch: bool)
    requires
        t.wf(),
        from_epoch ==> t.after_epoch(),
    ensures
        n == 0 || t.observations() == 0 ==> t.trimmed(n, from_epoch) == t,
        n > 0 && t.observations() > 0 ==> exists|cut: int|
            left_after(t, t.trimmed(n, from_epoch), from_epoch, cut),
    decreases n,
{
    lemma_oldest(t, None);
    if n > 0 {
        let m = (n - 1) as nat;
        law_prune_takes_the_oldest(t, m, from_epoch);
        let q = t.trimmed(m, from_epoch);
        if t.observations() > 0 {
            if m == 0 {
                lemma_window(t, from_epoch);
                assert(left_after(t, t.trimmed(n, from_epoch), from_epoch, t.window_end()));
            } else {
                let cut = choose|cut: int| left_after(t, q, from_epoch, cut);
                lemma_oldest(q, None);
                if q.observations() == 0 {
                    assert(left_after(t, t.trimmed(n, from_epoch), from_epoch, cut));
                } else {
                    assert forall|k: i64| from_epoch && #[trigger] q.observed_at(k) implies k >= 0 by {
                        lemma_cleared(t, prune_start(t, from_epoch), cut);
                        assert(t.observed_at(k));
                    }
                    lemma_window(q, from_epoch);
                    let end = q.window_end();
                    lemma_cleared_twice(t, prune_start(t, from_epoch), cut, prune_start(q, from_epoch), end);
                    assert(left_after(t, t.trimmed(n, from_epoch), from_epoch, end));
                }
            }
        }
    }
}

proof fn lemma_trimmed_front(t: Tables, n: nat, from_epoch: bool)
    requires
        t.least_after(None) is Some,
    ensures
        t.trimmed(n + 1, from_epoch) == t.cleared(prune_start(t, from_epoch), t.window_end()).trimmed(n, from_epoch),
    decreases n,
{
    let u = t.cleared(prune_start(t, from_epoch), t.window_end());
    if n == 0 {
        assert(t.trimmed(0, from_epoch) == t);
        assert(t.trimmed(1, from_epoch) == u);
    } else {
        lemma_trimmed_front(t, (n - 1) as nat, from_epoch);
    }
}

/// Pruning clears the fewest of the oldest windows that bring the archive
/// within the cap; where no number of them does, no observation is left.
pub proof fn law_prune_keeps_the_cap(t: Tables, cap: int, from_epoch: bool)
    requires
        t.wf(),
        from_epoch ==> t.after_epoch(),
        cap > 0,
    ensures
        t.pruned(cap, from_epoch) == t.trimmed(t.windows_pruned(cap, from_epoch), from_epoch),
        t.pruned(cap, from_epoch).managed() <= cap || t.pruned(cap, from_epoch).observations() == 0,
        forall|m: nat|
            m < t.windows_pruned(cap, from_epoch) ==> (#[trigger] t.trimmed(m, from_epoch)).managed() > cap,
        t.pruned(cap, from_epoch).wf(),
    decreases t.observations(),
{
    lemma_oldest(t, None);
    if t.managed() > cap && t.observations() > 0 {
        lemma_window(t, from_epoch);
        let u = t.cleared(prune_start(t, from_epoch), t.window_end());
        law_prune_keeps_the_cap(u, cap, from_epoch);
        let n = u.windows_pruned(cap, from_epoch);
        lemma_trimmed_front(t, n, from_epoch);
        assert(t.windows_pruned(cap, from_epoch) == n + 1);
        assert(t.pruned(cap, from_epoch) == u.pruned(cap, from_epoch));
        assert forall|m: nat| m < n + 1 implies (#[trigger] t.trimmed(m, from_epoch)).managed() > cap by {
            if m > 0 {
                lemma_trimmed_front(t, (m - 1) as nat, from_epoch);
                assert(u.trimmed((m - 1) as nat, from_epoch).managed() > cap);
            }
        }
    }
}

/// A tidy archive that is pruned is within the cap, and stays tidy.
pub proof fn law_prune_of_a_tidy_archive(t: Tables, cap: int, from_epoch: bool)
    requires
        t.wf(),
        t.tidy(),
        from_epoch ==> t.after_epoch(),
        cap > 0,
    ensures
        t.pruned(cap, from_epoch).managed() <= cap,
        t.pruned(cap, from_epoch).tidy(),
    decreases t.observations(),
{
    lemma_oldest(t, None);
    if t.managed() > cap {
        if t.observations() > 0 {
            lemma_window(t, from_epoch);
            lemma_cleared_tidy(t, prune_start(t, from_epoch), t.window_end());
            law_prune_of_a_tidy_archive(t.cleared(prune_start(t, from_epoch), t.window_end()), cap, from_epoch);
        } else {
            lemma_nothing_left(t);
        }
    }
}

/// Clearing a range leaves a tidy archive tidy.
pub proof fn lemma_cleared_tidy(t: Tables, lo: int, hi: int)
    requires
        t.wf(),
        t.tidy(),
    ensures
        t.cleared(lo, hi).tidy(),
{
    let u = t.cleared(lo, hi);
    lemma_cleared(t, lo, hi);
    lemma_outside(t.ocr, lo, hi);
    lemma_outside(t.plain, lo, hi);
    lemma_outside(t.boxes, lo, hi);
    assert forall|k: i64| #[trigger] u.noted_at(k) implies u.observed_at(k) by {
        assert(t.noted_at(k) && !(lo <= k <= hi));
    }
}

proof fn lemma_nothing_left(t: Tables)
    requires
        t.tidy(),
        t.observations() == 0,
    ensures
        t.managed() == 0,
{
    if t.ocr.len() > 0 {
        assert(has_key(t.ocr, t.ocr[0].0));
        assert(t.noted_at(t.ocr[0].0));
    }
    if t.plain.len() > 0 {
        assert(has_key(t.plain, t.plain[0].0));
        assert(t.noted_at(t.plain[0].0));
    }
    if t.boxes.len() > 0 {
        assert(has_key(t.boxes, t.boxes[0].0));
        assert(t.noted_at(t.boxes[0].0));
    }
}

/// An archive begins tidy, and every change leaves it so, as long as search texts
/// and recognised words are kept only where something was observed.
pub proof fn law_changes_keep_the_archive_tidy(t: Tables, c: Change, indexed: bool)
    requires
        t.wf(),
        t.tidy(),
        c matches Change::Index { ts, row } ==> t.observed_at(ts),
        c matches Change::AddBox { ts, word } ==> t.observed_at(ts),
    ensures
        Tables::empty(indexed).tidy(),
        t.after(c).tidy(),
{
    let u = t.after(c);
    match c {
        Change::PutFrame { frame } => lemma_put(t.frames, frame@.ts, frame@),
        Change::PutClip { ts, clip } => lemma_put(t.clips, ts, clip@),
        Change::PutLayout { ts, layout } => lemma_put(t.layouts, ts, layout@),
        Change::AddEvent { ts, event } => {
            lemma_has_key_split(u.events);
            assert(u.events.drop_last() =~= t.events);
        },
        Change::Index { ts, row } => {
            lemma_outside(t.ocr, ts as int, ts as int);
            lemma_put(outside(t.ocr, ts as int, ts as int), ts, row@);
            lemma_put(t.plain, ts, row@);
        },
        Change::ClearBoxes { ts } => lemma_outside(t.boxes, ts as int, ts as int),
        Change::AddBox { ts, word } => {
            lemma_has_key_split(u.boxes);
            assert(u.boxes.drop_last() =~= t.boxes);
        },
        Change::DropRange { lo, hi } => lemma_cleared_tidy(t, lo as int, hi as int),
        Change::Forget { path } => {},
        Change::ClearCrop { ts } => {
            if let Some(f) = row_at(t.frames, ts) {
                lemma_put(t.frames, ts, without_crop(f));
            }
        },
    }
    if !(c is DropRange) {
        assert forall|k: i64| #[trigger] u.noted_at(k) implies u.observed_at(k) by {
            assert(t.noted_at(k) || t.observed_at(k));
        }
    }
}

/// The files of every frame that a cleared range takes away are doomed, and no
/// doomed file is forgotten.
pub proof fn law_cleared_files_are_doomed(t: Tables, lo: int, hi: int)
    requires
        t.wf(),
    ensures
        forall|p: Seq<char>| t.doomed.contains(p) ==> #[trigger] t.cleared(lo, hi).doomed.contains(p),
        forall|k: i64|
            lo <= k <= hi && (#[trigger] row_at(t.frames, k)) is Some ==> {
                let f = row_at(t.frames, k).unwrap();
                &&& t.cleared(lo, hi).doomed.contains(f.path)
                &&& match f.crop_path {
                    Some(c) => t.cleared(lo, hi).doomed.contains(c),
                    None => true,
                }
            },
{
    let gone = inside(t.frames, lo, hi);
    lemma_doomed(t.doomed, gone);
    assert forall|k: i64| lo <= k <= hi && (#[trigger] row_at(t.frames, k)) is Some implies {
        let f = row_at(t.frames, k).unwrap();
        &&& t.cleared(lo, hi).doomed.contains(f.path)
        &&& match f.crop_path {
            Some(c) => t.cleared(lo, hi).doomed.contains(c),
            None => true,
        }
    } by {
        let f = row_at(t.frames, k).unwrap();
        lemma_inside_row(t.frames, lo, hi, k);
        let i = choose|i: int| 0 <= i < gone.len() && gone[i] == (k, f);
        assert(gone[i].1.path == f.path);
    }
}

proof fn lemma_inside_row<V>(s: Seq<(i64, V)>, lo: int, hi: int, k: i64)
    requires
        lo <= k <= hi,
        row_at(s, k) is Some,
    ensures
        exists|i: int| 0 <= i < inside(s, lo, hi).len() && inside(s, lo, hi)[i] == (k, row_at(s, k).unwrap()),
    decreases s.len(),
{
    let r = inside(s, lo, hi);
    if s.last().0 == k {
        assert(r[r.len() - 1] == s.last());
    } else {
        lemma_inside_row(s.drop_last(), lo, hi, k);
        let q = inside(s.drop_last(), lo, hi);
        let i = choose|i: int| 0 <= i < q.len() && q[i] == (k, row_at(s, k).unwrap());
        assert(r[i] == q[i]);
    }
}

/// Every table that holds bytes counts against the cap, by the weight of its rows:
/// frames, clipboard texts, layouts, both kinds of search texts and recognised
/// words. Pauses and doomed files do not count, and an empty archive counts
/// nothing.
pub proof fn law_what_counts_against_the_cap(t: Tables, u: Tables)
    ensures
        (Tables { frames: u.frames, ..t }).managed() - t.managed() == total_of::<FrameInsert>(u.frames)
            - total_of::<FrameInsert>(t.frames),
        (Tables { clips: u.clips, ..t }).managed() - t.managed() == total_of::<Clip>(u.clips) - total_of::<Clip>(t.clips),
        (Tables { layouts: u.layouts, ..t }).managed() - t.managed() == total_of::<Layout>(u.layouts)
            - total_of::<Layout>(t.layouts),
        (Tables { ocr: u.ocr, ..t }).managed() - t.managed() == total_of::<SearchText>(u.ocr) - total_of::<SearchText>(
            t.ocr,
        ),
        (Tables { plain: u.plain, ..t }).managed() - t.managed() == total_of::<PlainText>(u.plain)
            - total_of::<PlainText>(t.plain),
        (Tables { boxes: u.boxes, ..t }).managed() - t.managed() == total_of::<WordBox>(u.boxes) - total_of::<WordBox>(
            t.boxes,
        ),
        (Tables { events: u.events, doomed: u.doomed, indexed: u.indexed, ..t }).managed() == t.managed(),
        Tables::empty(t.indexed).managed() == 0,
{
}

/// A change of a keyed table puts its row under its stamp; every other row of the
/// table stays, and so does every other table.
pub proof fn law_changes_put_their_rows(t: Tables, c: Change, k: i64)
    requires
        t.wf(),
    ensures
        c matches Change::PutFrame { frame } ==> {
            &&& row_at(t.after(c).frames, frame.ts) == Some(frame@)
            &&& k != frame.ts ==> row_at(t.after(c).frames, k) == row_at(t.frames, k)
            &&& t.after(c) == (Tables { frames: t.after(c).frames, ..t })
        },
        c matches Change::PutClip { ts, clip } ==> {
            &&& row_at(t.after(c).clips, ts) == Some(clip@)
            &&& k != ts ==> row_at(t.after(c).clips, k) == row_at(t.clips, k)
            &&& t.after(c) == (Tables { clips: t.after(c).clips, ..t })
        },
        c matches Change::PutLayout { ts, layout } ==> {
            &&& row_at(t.after(c).layouts, ts) == Some(layout@)
            &&& k != ts ==> row_at(t.after(c).layouts, k) == row_at(t.layouts, k)
            &&& t.after(c) == (Tables { layouts: t.after(c).layouts, ..t })
        },
        c matches Change::AddEvent { ts, event } ==> {
            &&& t.after(c).events.len() == t.events.len() + 1
            &&& t.after(c).events.last() == (ts, event@)
            &&& t.events.is_prefix_of(t.after(c).events)
            &&& t.after(c) == (Tables { events: t.after(c).events, ..t })
        },
        c matches Change::AddBox { ts, word } ==> {
            &&& t.after(c).boxes.len() == t.boxes.len() + 1
            &&& t.after(c).boxes.last() == (ts, word@)
            &&& t.boxes.is_prefix_of(t.after(c).boxes)
            &&& t.after(c) == (Tables { boxes: t.after(c).boxes, ..t })
        },
{
    match c {
        Change::PutFrame { frame } => {
            lemma_put(t.frames, frame@.ts, frame@);
        },
        Change::PutClip { ts, clip } => {
            lemma_put(t.clips, ts, clip@);
        },
        Change::PutLayout { ts, layout } => {
            lemma_put(t.layouts, ts, layout@);
        },
        _ => {},
    }
}

/// A search text goes into the full-text index where there is one, and else into
/// what stands in for it; either way the frame has no other indexed text, and the
/// texts of all other frames stay.
pub proof fn law_a_search_text_is_found_again(t: Tables, ts: i64, row: TextRow, k: i64)
    requires
        t.wf(),
    ensures
        ({
            let u = t.indexed_with(ts, row);
            &&& u == (Tables { ocr: u.ocr, plain: u.plain, ..t })
            &&& t.indexed ==> row_at(u.ocr, ts) == Some(row) && u.plain == t.plain
            &&& !t.indexed ==> row_at(u.plain, ts) == Some(row) && row_at(u.ocr, ts) is None
            &&& k != ts ==> row_at(u.ocr, k) == row_at(t.ocr, k) && row_at(u.plain, k) == row_at(t.plain, k)
        }),
{
    lemma_outside(t.ocr, ts as int, ts as int);
    lemma_put(outside(t.ocr, ts as int, ts as int), ts, row);
    lemma_put(t.plain, ts, row);
}

/// A frame whose crop is gone has no crop and no bytes of one, and keeps all else;
/// other frames keep theirs, and nothing else changes.
pub proof fn law_a_crop_is_forgotten(t: Tables, ts: i64, k: i64)
    requires
        t.wf(),
    ensures
        ({
            let u = t.crop_cleared(ts);
            &&& row_at(t.frames, ts) is None ==> u == t
            &&& row_at(t.frames, ts) matches Some(f) ==> (row_at(u.frames, ts) matches Some(g) && g.crop_path is None
                && g.crop_bytes == 0 && f == (FrameRow { crop_path: f.crop_path, crop_bytes: f.crop_bytes, ..g }))
            &&& k != ts ==> row_at(u.frames, k) == row_at(t.frames, k)
            &&& u == (Tables { frames: u.frames, ..t })
        }),
{
    if row_at(t.frames, ts) is Some {
        lemma_put(t.frames, ts, without_crop(row_at(t.frames, ts).unwrap()));
    }
}

/// A file that is gone is doomed no longer, and the others stay so.
pub proof fn law_a_gone_file_is_forgotten(paths: Seq<Seq<char>>, p: Seq<char>, q: Seq<char>)
    ensures
        !forgotten(paths, p).contains(p),
        q != p ==> (forgotten(paths, p).contains(q) <==> paths.contains(q)),
        forgotten(paths, p).len() <= paths.len(),
    decreases paths.len(),
{
    if paths.len() > 0 {
        let d = paths.drop_last();
        let f = forgotten(d, p);
        let r = forgotten(paths, p);
        law_a_gone_file_is_forgotten(d, p, q);
        assert forall|x: Seq<char>| paths.contains(x) <==> d.contains(x) || x == paths.last() by {
            if paths.contains(x) {
                let i = choose|i: int| 0 <= i < paths.len() && paths[i] == x;
                if i < d.len() {
                    assert(d[i] == x);
                }
            }
            if d.contains(x) {
                let i = choose|i: int| 0 <= i < d.len() && d[i] == x;
                assert(paths[i] == x);
            }
            if x == paths.last() {
                assert(paths[paths.len() - 1] == x);
            }
        }
        if paths.last() != p {
            assert forall|x: Seq<char>| r.contains(x) <==> f.contains(x) || x == paths.last() by {
                if r.contains(x) {
                    let i = choose|i: int| 0 <= i < r.len() && r[i] == x;
                    if i < f.len() {
                        assert(f[i] == x);
                    }
                }
                if f.contains(x) {
                    let i = choose|i: int| 0 <= i < f.len() && f[i] == x;
                    assert(r[i] == x);
                }
                if x == paths.last() {
                    assert(r[r.len() - 1] == x);
                }
            }
        }
    }
}

/// Pruning prefers what is newer: of two observations the later one goes only
/// where the earlier one goes too. What stays, stays as it was, and nothing goes
/// where no cap is set or the archive is within it.
pub proof fn law_pruning_spares_the_newer(t: Tables, cap: int, from_epoch: bool, a: i64, b: i64)
    requires
        t.wf(),
        from_epoch ==> t.after_epoch(),
        a <= b,
        t.observed_at(a),
        t.observed_at(b),
    ensures
        ({
            let u = t.pruned(cap, from_epoch);
            &&& u.observed_at(a) ==> u.observed_at(b)
            &&& u.observed_at(a) ==> row_at(u.frames, a) == row_at(t.frames, a) && row_at(u.clips, a) == row_at(t.clips, a)
                && row_at(u.layouts, a) == row_at(t.layouts, a)
            &&& cap <= 0 || t.managed() <= cap ==> u == t
        }),
{
    if cap > 0 && t.managed() > cap {
        let n = t.windows_pruned(cap, from_epoch);
        let u = t.pruned(cap, from_epoch);
        law_prune_keeps_the_cap(t, cap, from_epoch);
        law_prune_takes_the_oldest(t, n, from_epoch);
        lemma_oldest(t, None);
        if u != t {
            let cut = choose|cut: int| left_after(t, u, from_epoch, cut);
            let start = prune_start(t, from_epoch);
            assert(beyond(a, None) && beyond(b, None));
            lemma_cleared(t, start, cut);
            lemma_outside(t.frames, start, cut);
            lemma_outside(t.clips, start, cut);
            lemma_outside(t.layouts, start, cut);
        }
    }
}

} // verus!
