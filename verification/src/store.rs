//! The archive that the daemon keeps in memory and its owner writes through.
use crate::archive::{
    doomed_frame, doomed_frames, doomed_with, forgotten, law_prune_keeps_the_cap, lemma_after_push,
    lemma_cleared, lemma_oldest, lemma_window, Change, Tables,
};
use crate::rows::{
    Clip, ClipRow, EventRow, FrameInsert, FrameRow, Layout, LayoutRow, PauseEvent, PlainText,
    SearchText, WordBox,
};
use crate::table::{inside, lemma_outside, lemma_put, outside, put, row_at, Table};
use crate::text;
use vstd::prelude::*;

verus! {

/// The archive: its tables, the directory that its files lie in, and whether it
/// may be written.
pub struct Store {
    frames: Table<FrameInsert>,
    clips: Table<Clip>,
    layouts: Table<Layout>,
    events: Table<PauseEvent>,
    boxes: Table<WordBox>,
    ocr: Table<SearchText>,
    plain: Table<PlainText>,
    doomed: Vec<String>,
    indexed: bool,
    root: String,
    writable: bool,
}

impl View for Store {
    type V = Tables;

    closed spec fn view(&self) -> Tables {
        Tables {
            frames: self.frames@,
            clips: self.clips@,
            layouts: self.layouts@,
            events: self.events@,
            boxes: self.boxes@,
            ocr: self.ocr@,
            plain: self.plain@,
            doomed: text::texts(self.doomed@),
            indexed: self.indexed,
        }
    }
}

/// A change leaves the archive valid.
pub proof fn lemma_after_wf(t: Tables, c: Change)
    requires
        t.wf(),
    ensures
        t.after(c).wf(),
{
    match c {
        Change::PutFrame { frame } => {
            lemma_put(t.frames, frame.ts, frame@);
            lemma_put_stamped(t.frames, frame.ts, frame@);
        },
        Change::PutClip { ts, clip } => lemma_put(t.clips, ts, clip@),
        Change::PutLayout { ts, layout } => lemma_put(t.layouts, ts, layout@),
        Change::AddEvent { ts, event } => {},
        Change::Index { ts, row } => {
            lemma_outside(t.ocr, ts as int, ts as int);
            lemma_put(outside(t.ocr, ts as int, ts as int), ts, row@);
            lemma_put(t.plain, ts, row@);
        },
        Change::ClearBoxes { ts } => {},
        Change::AddBox { ts, word } => {},
        Change::DropRange { lo, hi } => lemma_cleared(t, lo as int, hi as int),
        Change::Forget { path } => lemma_forgotten(t.doomed, path@),
        Change::ClearCrop { ts } => {
            if row_at(t.frames, ts) is Some {
                let f = crate::archive::without_crop(row_at(t.frames, ts).unwrap());
                lemma_row_stamped(t.frames, ts);
                lemma_put(t.frames, ts, f);
                lemma_put_stamped(t.frames, ts, f);
            }
        },
    }
}

proof fn lemma_row_stamped(s: Seq<(i64, FrameRow)>, k: i64)
    requires
        forall|i: int| 0 <= i < s.len() ==> #[trigger] s[i].1.ts == s[i].0,
        row_at(s, k) is Some,
    ensures
        row_at(s, k).unwrap().ts == k,
    decreases s.len(),
{
    if s.last().0 == k {
        assert(s[s.len() - 1].1.ts == s[s.len() - 1].0);
    } else {
        assert forall|i: int| 0 <= i < s.drop_last().len() implies #[trigger] s.drop_last()[i].1.ts
            == s.drop_last()[i].0 by {
            assert(s[i].1.ts == s[i].0);
        }
        lemma_row_stamped(s.drop_last(), k);
    }
}

/// A frame put at its own stamp stands under it, as the others do.
pub proof fn lemma_put_stamped(s: Seq<(i64, FrameRow)>, k: i64, f: FrameRow)
    requires
        forall|i: int| 0 <= i < s.len() ==> #[trigger] s[i].1.ts == s[i].0,
        f.ts == k,
    ensures
        forall|i: int| 0 <= i < put(s, k, f).len() ==> #[trigger] put(s, k, f)[i].1.ts == put(s, k, f)[i].0,
    decreases s.len(),
{
    if s.len() > 0 {
        let d = s.drop_last();
        assert forall|i: int| 0 <= i < d.len() implies #[trigger] d[i].1.ts == d[i].0 by {
            assert(s[i].1.ts == s[i].0);
        }
        assert(s[s.len() - 1].1.ts == s[s.len() - 1].0);
        lemma_put_stamped(d, k, f);
    }
}

/// Forgetting a file takes it, and no other one, from the list.
pub proof fn lemma_forgotten(paths: Seq<Seq<char>>, p: Seq<char>)
    ensures
        paths.no_duplicates() ==> forgotten(paths, p).no_duplicates(),
        forall|q: Seq<char>| #[trigger] forgotten(paths, p).contains(q) <==> paths.contains(q) && q != p,
    decreases paths.len(),
{
    let r = forgotten(paths, p);
    if paths.len() > 0 {
        let d = paths.drop_last();
        lemma_forgotten(d, p);
        let f = forgotten(d, p);
        assert forall|q: Seq<char>| #[trigger] r.contains(q) <==> paths.contains(q) && q != p by {
            assert(f.contains(q) <==> d.contains(q) && q != p);
            if paths.contains(q) {
                let i = choose|i: int| 0 <= i < paths.len() && paths[i] == q;
                if i < d.len() {
                    assert(d[i] == q);
                    assert(d.contains(q));
                }
            }
            if d.contains(q) {
                let i = choose|i: int| 0 <= i < d.len() && d[i] == q;
                assert(paths[i] == q);
            }
            if paths.last() != p {
                assert(r[r.len() - 1] == paths.last());
                if f.contains(q) {
                    let i = choose|i: int| 0 <= i < f.len() && f[i] == q;
                    assert(r[i] == q);
                }
                if r.contains(q) && q != paths.last() {
                    let i = choose|i: int| 0 <= i < r.len() && r[i] == q;
                    assert(f[i] == q);
                }
                assert(paths[paths.len() - 1] == paths.last());
            }
        }
        if paths.no_duplicates() && paths.last() != p {
            assert(d.no_duplicates()) by {
                assert forall|i: int, j: int| 0 <= i < d.len() && 0 <= j < d.len() && i != j implies d[i]
                    != d[j] by {
                    assert(paths[i] != paths[j]);
                }
            }
            assert forall|i: int, j: int| 0 <= i < r.len() && 0 <= j < r.len() && i != j implies r[i]
                != r[j] by {
                if i == r.len() - 1 || j == r.len() - 1 {
                    let k = if i == r.len() - 1 { j } else { i };
                    assert(f[k] == r[k]);
                    assert(f.contains(r[k]));
                    assert(d.contains(r[k]));
                    let x = choose|x: int| 0 <= x < d.len() && d[x] == r[k];
                    assert(paths[x] != paths[paths.len() - 1]);
                }
            }
        } else if paths.no_duplicates() {
            assert(d.no_duplicates()) by {
                assert forall|i: int, j: int| 0 <= i < d.len() && 0 <= j < d.len() && i != j implies d[i]
                    != d[j] by {
                    assert(paths[i] != paths[j]);
                }
            }
        }
    }
}

impl Store {
    /// The archive is valid.
    pub open spec fn wf(&self) -> bool {
        self@.wf()
    }

    /// The directory that the files of the archive lie in.
    pub closed spec fn home(&self) -> Seq<char> {
        self.root@
    }

    /// The archive may be written.
    pub closed spec fn open_for_writing(&self) -> bool {
        self.writable
    }

    /// The same directory and the same leave to write as another.
    pub open spec fn like(&self, other: &Store) -> bool {
        self.home() == other.home() && self.open_for_writing() == other.open_for_writing()
    }

    /// An archive without rows.
    pub fn new(root: &str, writable: bool, indexed: bool) -> (r: Store)
        ensures
            r.wf(),
            r@ == Tables::empty(indexed),
            r.home() == root@,
            r.open_for_writing() == writable,
    {
        let r = Store {
            frames: Table::new(),
            clips: Table::new(),
            layouts: Table::new(),
            events: Table::new(),
            boxes: Table::new(),
            ocr: Table::new(),
            plain: Table::new(),
            doomed: Vec::new(),
            indexed,
            root: root.to_string(),
            writable,
        };
        assert(r@ =~= Tables::empty(indexed));
        r
    }

    /// The archive may be written.
    pub fn is_writable(&self) -> (r: bool)
        ensures
            r == self.open_for_writing(),
    {
        self.writable
    }

    /// The directory that the files of the archive lie in.
    pub fn root(&self) -> (r: &str)
        ensures
            r@ == self.home(),
    {
        self.root.as_str()
    }

    pub(crate) fn frames(&self) -> (r: &Table<FrameInsert>)
        ensures
            r@ == self@.frames,
    {
        &self.frames
    }

    pub(crate) fn clip_rows(&self) -> (r: &Table<Clip>)
        ensures
            r@ == self@.clips,
    {
        &self.clips
    }

    pub(crate) fn layouts(&self) -> (r: &Table<Layout>)
        ensures
            r@ == self@.layouts,
    {
        &self.layouts
    }

    pub(crate) fn events(&self) -> (r: &Table<PauseEvent>)
        ensures
            r@ == self@.events,
    {
        &self.events
    }

    pub(crate) fn boxes(&self) -> (r: &Table<WordBox>)
        ensures
            r@ == self@.boxes,
    {
        &self.boxes
    }

    pub(crate) fn ocr(&self) -> (r: &Table<SearchText>)
        ensures
            r@ == self@.ocr,
    {
        &self.ocr
    }

    pub(crate) fn plain(&self) -> (r: &Table<PlainText>)
        ensures
            r@ == self@.plain,
    {
        &self.plain
    }

    /// The files that are still to be deleted.
    pub fn doomed(&self) -> (r: &Vec<String>)
        ensures
            text::texts(r@) == self@.doomed,
    {
        &self.doomed
    }

    /// A copy of the archive.
    pub fn copy(&self) -> (r: Store)
        ensures
            r@ == self@,
            r.like(self),
    {
        Store {
            frames: self.frames.copy(),
            clips: self.clips.copy(),
            layouts: self.layouts.copy(),
            events: self.events.copy(),
            boxes: self.boxes.copy(),
            ocr: self.ocr.copy(),
            plain: self.plain.copy(),
            doomed: text::copy_texts(&self.doomed),
            indexed: self.indexed,
            root: self.root.clone(),
            writable: self.writable,
        }
    }

    /// A file of the archive is to be deleted.
    pub fn doom(&mut self, path: &String)
        ensures
            final(self)@ == (Tables { doomed: doomed_with(old(self)@.doomed, path@), ..old(self)@ }),
            final(self).like(old(self)),
            old(self).wf() ==> final(self).wf(),
    {
        if !text::holds(&self.doomed, path.as_str()) {
            let ghost was = text::texts(self.doomed@);
            self.doomed.push(path.clone());
            assert(text::texts(self.doomed@) =~= was.push(path@));
        }
        assert(self@ =~= Tables { doomed: doomed_with(old(self)@.doomed, path@), ..old(self)@ });
    }

    fn drop_range(&mut self, lo: i64, hi: i64)
        ensures
            final(self)@ == old(self)@.cleared(lo as int, hi as int),
            final(self).like(old(self)),
    {
        let mut i: usize = 0;
        let ghost t = self@;
        assert(t.frames.take(0) =~= Seq::<(i64, FrameRow)>::empty());
        while i < self.frames.rows.len()
            invariant
                i <= t.frames.len(),
                self@ == (Tables {
                    doomed: doomed_frames(t.doomed, inside(t.frames.take(i as int), lo as int, hi as int)),
                    ..t
                }),
                self.like(old(self)),
            decreases t.frames.len() - i,
        {
            assert(t.frames.take(i + 1).drop_last() =~= t.frames.take(i as int));
            let k = self.frames.rows[i].0;
            if lo <= k && k <= hi {
                let ghost f = self.frames.rows@[i as int].1@;
                assert(t.frames[i as int] == (k, f));
                let ghost seen = inside(t.frames.take(i as int), lo as int, hi as int);
                let ghost paths = self@.doomed;
                let path = self.frames.rows[i].1.path.clone();
                let crop = crate::rows::copy_option(&self.frames.rows[i].1.crop_path);
                self.doom(&path);
                if let Some(c) = crop {
                    self.doom(&c);
                }
                assert(self@.doomed == doomed_frame(paths, f));
                assert(seen.push((k, f)).drop_last() =~= seen);
            }
            i += 1;
        }
        assert(t.frames.take(i as int) =~= t.frames);
        self.frames.drop_range(lo, hi);
        self.clips.drop_range(lo, hi);
        self.layouts.drop_range(lo, hi);
        self.events.drop_range(lo, hi);
        self.boxes.drop_range(lo, hi);
        self.ocr.drop_range(lo, hi);
        self.plain.drop_range(lo, hi);
        assert(self@ =~= t.cleared(lo as int, hi as int));
    }

    fn forget(&mut self, path: &str)
        ensures
            final(self)@ == (Tables { doomed: forgotten(old(self)@.doomed, path@), ..old(self)@ }),
            final(self).like(old(self)),
    {
        let mut kept: Vec<String> = Vec::new();
        let mut i: usize = 0;
        let ghost all = text::texts(self.doomed@);
        assert(all.take(0) =~= Seq::<Seq<char>>::empty());
        assert(text::texts(kept@) =~= Seq::<Seq<char>>::empty());
        while i < self.doomed.len()
            invariant
                i <= self.doomed@.len(),
                all == text::texts(self.doomed@),
                text::texts(kept@) == forgotten(all.take(i as int), path@),
            decreases self.doomed@.len() - i,
        {
            assert(all.take(i + 1).drop_last() =~= all.take(i as int));
            assert(all.take(i + 1).last() == self.doomed@[i as int]@);
            if !text::same(self.doomed[i].as_str(), path) {
                let ghost was = text::texts(kept@);
                kept.push(self.doomed[i].clone());
                assert(text::texts(kept@) =~= was.push(self.doomed@[i as int]@));
            }
            i += 1;
        }
        assert(all.take(i as int) =~= all);
        self.doomed = kept;
        assert(self@ =~= Tables { doomed: forgotten(old(self)@.doomed, path@), ..old(self)@ });
    }

    /// Make one change.
    pub fn apply(&mut self, c: Change)
        requires
            old(self).wf(),
        ensures
            final(self).wf(),
            final(self)@ == old(self)@.after(c),
            final(self).like(old(self)),
    {
        let ghost t = self@;
        proof {
            lemma_after_wf(t, c);
        }
        match c {
            Change::PutFrame { frame } => {
                self.frames.put(frame.ts, frame);
                assert(self@ =~= t.after(c));
            },
            Change::PutClip { ts, clip } => {
                self.clips.put(ts, clip);
                assert(self@ =~= t.after(c));
            },
            Change::PutLayout { ts, layout } => {
                self.layouts.put(ts, layout);
                assert(self@ =~= t.after(c));
            },
            Change::AddEvent { ts, event } => {
                self.events.push(ts, event);
                assert(self@ =~= t.after(c));
            },
            Change::Index { ts, row } => {
                proof {
                    lemma_outside(t.ocr, ts as int, ts as int);
                }
                self.ocr.drop_range(ts, ts);
                if self.indexed {
                    self.ocr.put(ts, row);
                } else {
                    self.plain.put(ts, PlainText { row });
                }
                assert(self@ =~= t.after(c));
            },
            Change::ClearBoxes { ts } => {
                self.boxes.drop_range(ts, ts);
                assert(self@ =~= t.after(c));
            },
            Change::AddBox { ts, word } => {
                self.boxes.push(ts, word);
                assert(self@ =~= t.after(c));
            },
            Change::DropRange { lo, hi } => {
                self.drop_range(lo, hi);
            },
            Change::Forget { path } => {
                self.forget(path.as_str());
            },
            Change::ClearCrop { ts } => {
                let found = match self.frames.get(ts) {
                    Some(f) => {
                        let mut g = f.clone();
                        g.crop_path = None;
                        g.crop_bytes = 0;
                        Some(g)
                    },
                    None => None,
                };
                if let Some(g) = found {
                    self.frames.put(ts, g);
                }
                assert(self@ =~= t.after(c));
            },
        }
    }
}

/// What a write to an archive that may not be written is answered.
pub open spec fn read_only() -> Seq<char> {
    "attempt to write a readonly database"@
}

/// What a write to an archive that may not be written is answered.
pub(crate) fn refused() -> (r: String)
    ensures
        r@ == read_only(),
{
    "attempt to write a readonly database".to_string()
}

/// What a capture into an archive that may not be written is answered.
pub open spec fn no_capture() -> Seq<char> {
    "read-only store"@
}

/// The outcome of a change: made where the archive may be written, else
/// refused.
pub open spec fn changed(old: Store, new: Store, t: Tables, r: Result<(), String>, refusal: Seq<char>) -> bool {
    &&& new.wf()
    &&& new.like(&old)
    &&& if old.open_for_writing() {
        new@ == t && r is Ok
    } else {
        &&& new == old
        &&& r matches Err(m) && m@ == refusal
    }
}

/// A number of rows, as far as it can be told.
pub open spec fn counted(n: nat) -> int {
    if n <= i64::MAX {
        n as int
    } else {
        i64::MAX as int
    }
}

/// A number of rows, as far as it can be told.
pub fn count(n: usize) -> (r: i64)
    ensures
        r == counted(n as nat),
{
    if n as u128 <= i64::MAX as u128 {
        n as i64
    } else {
        i64::MAX
    }
}

impl Store {
    /// The bytes that count against the cap.
    pub fn managed_total(&self) -> (r: i128)
        ensures
            r == self@.managed(),
    {
        self.frames.total() as i128 + self.clips.total() as i128 + self.layouts.total() as i128
            + self.ocr.total() as i128 + self.plain.total() as i128 + self.boxes.total() as i128
    }

    /// The least stamp after another among frames, clips, layouts and events.
    pub fn oldest_ts(&self, after: Option<i64>) -> (r: Option<i64>)
        ensures
            r == self@.least_after(after),
    {
        crate::table::lesser_of(
            crate::table::lesser_of(self.frames.least_after(after), self.clips.least_after(after)),
            crate::table::lesser_of(self.layouts.least_after(after), self.events.least_after(after)),
        )
    }

    /// Clear the oldest windows until the archive fits the cap. The changes made.
    pub(crate) fn prune(&mut self, cap: i64, from_epoch: bool) -> (log: Vec<Change>)
        requires
            old(self).wf(),
            from_epoch ==> old(self)@.after_epoch(),
        ensures
            final(self).wf(),
            final(self).like(old(self)),
            final(self)@ == old(self)@.pruned(cap as int, from_epoch),
            final(self)@ == old(self)@.after_all(log@),
            log@.len() == old(self)@.windows_pruned(cap as int, from_epoch),
    {
        let mut log: Vec<Change> = Vec::new();
        let ghost t = self@;
        if cap <= 0 {
            return log;
        }
        loop
            invariant
                cap > 0,
                self.wf(),
                self.like(old(self)),
                from_epoch ==> self@.after_epoch(),
                self@.pruned(cap as int, from_epoch) == t.pruned(cap as int, from_epoch),
                log@.len() + self@.windows_pruned(cap as int, from_epoch) == t.windows_pruned(
                    cap as int,
                    from_epoch,
                ),
                self@ == t.after_all(log@),
                t == old(self)@,
            decreases self@.observations(),
        {
            proof {
                lemma_oldest(self@, None);
            }
            if self.managed_total() <= cap as i128 {
                return log;
            }
            let ts = match self.oldest_ts(None) {
                Some(ts) => ts,
                None => {
                    return log;
                },
            };
            proof {
                lemma_oldest(self@, Some(ts));
                lemma_window(self@, from_epoch);
            }
            let hi: i64 = match self.oldest_ts(Some(ts)) {
                Some(n) => n - 1,
                None => i64::MAX,
            };
            let lo: i64 = if from_epoch { 0 } else { ts };
            let ghost was = self@;
            self.drop_range(lo, hi);
            let ghost change = Change::DropRange { lo, hi };
            assert(self@ == was.after(change));
            proof {
                lemma_after_push(t, log@, change);
            }
            log.push(Change::DropRange { lo, hi });
        }
    }

    /// Clear the oldest windows, from the epoch on, until the archive fits the
    /// cap. The number of windows cleared.
    pub fn prune_to(&mut self, cap: i64) -> (r: Result<i64, String>)
        requires
            old(self).wf(),
            old(self)@.after_epoch(),
        ensures
            final(self).wf(),
            final(self).like(old(self)),
            ({
                let n = old(self)@.windows_pruned(cap as int, true);
                if n == 0 || old(self).open_for_writing() {
                    &&& r matches Ok(x) && x == counted(n)
                    &&& final(self)@ == old(self)@.pruned(cap as int, true)
                } else {
                    &&& r matches Err(m) && m@ == read_only()
                    &&& final(self)@ == old(self)@
                }
            }),
    {
        let ghost t = self@;
        if !self.writable {
            proof {
                lemma_oldest(t, None);
                if cap > 0 {
                    law_prune_keeps_the_cap(t, cap as int, true);
                    if t.managed() > cap && t.observations() > 0 {
                        lemma_window(t, true);
                    }
                }
            }
            if cap <= 0 || self.managed_total() <= cap as i128 || self.oldest_ts(None).is_none() {
                return Ok(0);
            }
            return Err(refused());
        }
        let log = self.prune(cap, true);
        Ok(count(log.len()))
    }

    /// Remove every row with a stamp in `lo..=hi` and doom the files of its
    /// frames. The number of frames removed.
    pub fn delete_range(&mut self, lo: i64, hi: i64) -> (r: Result<i64, String>)
        requires
            old(self).wf(),
        ensures
            final(self).wf(),
            final(self).like(old(self)),
            if old(self).open_for_writing() {
                &&& r matches Ok(n) && n == counted(inside(old(self)@.frames, lo as int, hi as int).len())
                &&& final(self)@ == old(self)@.cleared(lo as int, hi as int)
            } else {
                &&& r matches Err(m) && m@ == read_only()
                &&& final(self)@ == old(self)@
            },
    {
        if !self.writable {
            return Err(refused());
        }
        let before: usize = self.frames.rows.len();
        proof {
            lemma_outside(self@.frames, lo as int, hi as int);
            lemma_cleared(self@, lo as int, hi as int);
        }
        self.drop_range(lo, hi);
        Ok(count(before - self.frames.rows.len()))
    }

    /// Insert a frame, in place of one with its stamp.
    pub fn insert_frame(&mut self, f: &FrameInsert) -> (r: Result<(), String>)
        requires
            old(self).wf(),
        ensures
            changed(*old(self), *final(self), old(self)@.with_frame(f@), r, no_capture()),
    {
        if !self.writable {
            return Err("read-only store".to_string());
        }
        self.apply(Change::PutFrame { frame: f.clone() });
        Ok(())
    }

    /// Insert a clipboard text, in place of one with its stamp.
    pub fn insert_clip(&mut self, ts: i64, mime: &str, content: &str) -> (r: Result<(), String>)
        requires
            old(self).wf(),
        ensures
            changed(
                *old(self),
                *final(self),
                old(self)@.with_clip(ts, clip_row(mime@, content@)),
                r,
                read_only(),
            ),
    {
        if !self.writable {
            return Err(refused());
        }
        self.apply(Change::PutClip { ts, clip: clip_of(mime, content) });
        Ok(())
    }

    /// Keep the windows that stood open at a moment, as JSON.
    pub fn insert_layout(&mut self, ts: i64, json: &str) -> (r: Result<(), String>)
        requires
            old(self).wf(),
        ensures
            changed(
                *old(self),
                *final(self),
                old(self)@.with_layout(ts, LayoutRow { json: json@ }),
                r,
                read_only(),
            ),
    {
        if !self.writable {
            return Err(refused());
        }
        self.apply(Change::PutLayout { ts, layout: Layout { json: json.to_string() } });
        Ok(())
    }

    /// Keep the start or the end of a pause.
    pub fn record_event(&mut self, ts: i64, kind: &str, reason: &str) -> (r: Result<(), String>)
        requires
            old(self).wf(),
        ensures
            changed(
                *old(self),
                *final(self),
                old(self)@.with_event(ts, EventRow { kind: kind@, reason: reason@ }),
                r,
                read_only(),
            ),
    {
        if !self.writable {
            return Err(refused());
        }
        self.apply(
            Change::AddEvent { ts, event: PauseEvent { kind: kind.to_string(), reason: reason.to_string() } },
        );
        Ok(())
    }
}

/// A clipboard text, with the length of its UTF-8 form.
pub open spec fn clip_row(mime: Seq<char>, content: Seq<char>) -> ClipRow {
    ClipRow { mime, content, bytes: counted(text::bytes_in(content)) as i64 }
}

/// The row of a clipboard text.
pub fn clip_of(mime: &str, content: &str) -> (r: Clip)
    ensures
        r@ == clip_row(mime@, content@),
{
    Clip { mime: mime.to_string(), content: content.to_string(), bytes: count(text::byte_len(content)) }
}

/// A change is made where the archive may be written, and refused where it may not;
/// a refused one leaves everything as it was.
pub proof fn law_changes_are_made_or_refused(old: Store, new: Store, t: Tables, r: Result<(), String>, refusal: Seq<char>)
    requires
        changed(old, new, t, r, refusal),
    ensures
        r is Ok <==> old.open_for_writing(),
        r is Ok ==> new@ == t,
        r is Err ==> new == old,
        r matches Err(m) ==> m@ == refusal,
        new.home() == old.home() && new.open_for_writing() == old.open_for_writing(),
{
}

/// A clipboard text is kept with its kind and the bytes that it takes.
pub proof fn law_what_is_kept_of_a_copy(mime: Seq<char>, content: Seq<char>)
    requires
        text::bytes_in(content) <= i64::MAX,
    ensures
        clip_row(mime, content).mime == mime,
        clip_row(mime, content).content == content,
        clip_row(mime, content).bytes == text::bytes_in(content),
{
}

} // verus!
