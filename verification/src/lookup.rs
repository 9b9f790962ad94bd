//! What the archive answers: counts, nearest rows and search texts.
use crate::archive::{Change, Tables};
use crate::rows::{BoxRow, FrameRow, SearchText, TextRow, WordBox};
use crate::store::{changed, count, counted, read_only, refused, Store};
use crate::table::{earliest, inside, latest, row_at};
use vstd::prelude::*;

verus! {

/// How much the archive holds.
#[derive(Debug, Clone, Copy)]
pub struct StatsSnap {
    pub frames: i64,
    pub frames_today: i64,
    pub bytes: i64,
    pub first_ts: i64,
    pub last_ts: i64,
}

/// How much an archive holds, where `today` is the start of the current day.
pub open spec fn stats_of(t: Tables, today: i64) -> StatsSnap {
    StatsSnap {
        frames: counted(t.frames.len()) as i64,
        frames_today: counted(inside(t.frames, today as int, i64::MAX as int).len()) as i64,
        bytes: t.managed() as i64,
        first_ts: if t.frames.len() == 0 {
            0
        } else {
            t.frames[0].0
        },
        last_ts: if t.frames.len() == 0 {
            0
        } else {
            t.frames.last().0
        },
    }
}

/// An archive in which the frame that was shown at a moment is found by the text
/// that was copied then.
pub open spec fn with_copy(t: Tables, ts: i64, content: Seq<char>) -> Tables {
    let k = filed_under(t, ts);
    t.indexed_with(k, TextRow { clip: content, ..search_row(t, k) })
}

/// Where a frame's crop lies in its output, and the sizes of the output and of
/// the stored picture, in pixels.
#[derive(Debug, Clone, Copy)]
pub struct FrameGeom {
    pub crop_x: i64,
    pub crop_y: i64,
    pub crop_w: i64,
    pub crop_h: i64,
    pub out_w: i64,
    pub out_h: i64,
    pub stored_w: i64,
    pub stored_h: i64,
}

/// The stamp of the frame that a moment belongs to: the last one at or before
/// it, or else the first one after it.
pub open spec fn nearest(frames: Seq<(i64, FrameRow)>, ts: i64) -> Option<i64> {
    match latest(frames, ts) {
        Some(r) => Some(r.0),
        None => match earliest(frames, ts) {
            Some(r) => Some(r.0),
            None => None,
        },
    }
}

/// A search text without a word in it.
pub open spec fn blank_text() -> TextRow {
    TextRow { text: Seq::empty(), app: Seq::empty(), title: Seq::empty(), clip: Seq::empty() }
}

/// The search text of the frame at `ts`: the indexed one, else the one that
/// stands in for it, else the frame's own application and title.
pub open spec fn search_row(t: Tables, ts: i64) -> TextRow {
    match row_at(t.ocr, ts) {
        Some(row) => row,
        None => match row_at(t.plain, ts) {
            Some(row) => row,
            None => match row_at(t.frames, ts) {
                Some(f) => TextRow { app: f.app, title: f.title, ..blank_text() },
                None => blank_text(),
            },
        },
    }
}

/// The frame that a clipboard text is filed under.
pub open spec fn filed_under(t: Tables, ts: i64) -> i64 {
    match nearest(t.frames, ts) {
        Some(k) => k,
        None => ts,
    }
}

/// The frames that still have a crop, oldest first.
pub open spec fn cropped(frames: Seq<(i64, FrameRow)>) -> Seq<(i64, Seq<char>)>
    decreases frames.len(),
{
    if frames.len() == 0 {
        Seq::empty()
    } else {
        let before = cropped(frames.drop_last());
        match frames.last().1.crop_path {
            Some(c) => if c.len() > 0 {
                before.push((frames.last().0, c))
            } else {
                before
            },
            None => before,
        }
    }
}

/// `boxes` as rows at `ts`.
pub open spec fn with_boxes(t: Tables, ts: i64, boxes: Seq<BoxRow>) -> Tables
    decreases boxes.len(),
{
    if boxes.len() == 0 {
        t
    } else {
        with_boxes(t, ts, boxes.drop_last()).with_box(ts, boxes.last())
    }
}

/// What a list of recognised words says.
pub open spec fn box_rows(boxes: Seq<WordBox>) -> Seq<BoxRow> {
    boxes.map_values(|b: WordBox| b@)
}

/// The oldest crops, at most as many as are worked on in one go.
pub open spec fn next_crops(frames: Seq<(i64, FrameRow)>) -> Seq<(i64, Seq<char>)> {
    cropped(frames).take(
        if cropped(frames).len() <= 32 {
            cropped(frames).len() as int
        } else {
            32
        },
    )
}

/// What a list of crops says.
pub open spec fn crop_rows(crops: Seq<(i64, String)>) -> Seq<(i64, Seq<char>)> {
    crops.map_values(|c: (i64, String)| (c.0, c.1@))
}

impl Store {
    /// The stamp of the frame that a moment belongs to.
    pub fn nearest_frame_ts(&self, ts: i64) -> (r: Option<i64>)
        ensures
            r == nearest(self@.frames, ts),
    {
        match self.frames().latest(ts) {
            Some(r) => Some(r.0),
            None => match self.frames().earliest(ts) {
                Some(r) => Some(r.0),
                None => None,
            },
        }
    }

    /// The search text of the frame at `ts`.
    pub(crate) fn read_search_row(&self, ts: i64) -> (r: SearchText)
        ensures
            r@ == search_row(self@, ts),
    {
        if let Some(row) = self.ocr().get(ts) {
            return row.clone();
        }
        if let Some(p) = self.plain().get(ts) {
            return p.row.clone();
        }
        if let Some(f) = self.frames().get(ts) {
            let r = SearchText {
                text: String::new(),
                app: f.app.clone(),
                title: f.title.clone(),
                clip: String::new(),
            };
            assert(r@ =~= search_row(self@, ts));
            return r;
        }
        blank()
    }

    /// Make this the search text of the frame at `ts`.
    pub fn index_search_row(&mut self, ts: i64, text: &str, app: &str, title: &str, clip: &str) -> (r: Result<
        (),
        String,
    >)
        requires
            old(self).wf(),
        ensures
            changed(
                *old(self),
                *final(self),
                old(self)@.indexed_with(ts, TextRow { text: text@, app: app@, title: title@, clip: clip@ }),
                r,
                read_only(),
            ),
    {
        if !self.is_writable() {
            return Err(refused());
        }
        self.apply(
            Change::Index {
                ts,
                row: SearchText {
                    text: text.to_string(),
                    app: app.to_string(),
                    title: title.to_string(),
                    clip: clip.to_string(),
                },
            },
        );
        Ok(())
    }

    /// File a clipboard text under the frame that its moment belongs to, so that
    /// a search for it finds a picture.
    pub fn record_clip_search(&mut self, clip_ts: i64, content: &str) -> (r: Result<(), String>)
        requires
            old(self).wf(),
        ensures
            changed(*old(self), *final(self), with_copy(old(self)@, clip_ts, content@), r, read_only()),
            changed(
                *old(self),
                *final(self),
                ({
                    let k = filed_under(old(self)@, clip_ts);
                    old(self)@.indexed_with(k, TextRow { clip: content@, ..search_row(old(self)@, k) })
                }),
                r,
                read_only(),
            ),
    {
        let ts = match self.nearest_frame_ts(clip_ts) {
            Some(k) => k,
            None => clip_ts,
        };
        let row = self.read_search_row(ts);
        self.index_search_row(ts, row.text.as_str(), row.app.as_str(), row.title.as_str(), content)
    }

    /// Make these the recognised words of the frame at `ts`.
    pub fn insert_ocr_boxes(&mut self, ts: i64, boxes: &Vec<WordBox>) -> (r: Result<(), String>)
        requires
            old(self).wf(),
        ensures
            changed(
                *old(self),
                *final(self),
                with_boxes(old(self)@.without_boxes(ts), ts, box_rows(boxes@)),
                r,
                read_only(),
            ),
    {
        if !self.is_writable() {
            return Err(refused());
        }
        self.apply(Change::ClearBoxes { ts });
        let ghost t = self@;
        let ghost rows = box_rows(boxes@);
        let mut i: usize = 0;
        assert(rows.take(0) =~= Seq::<BoxRow>::empty());
        while i < boxes.len()
            invariant
                i <= boxes@.len(),
                rows == box_rows(boxes@),
                self.wf(),
                self.like(old(self)),
                self@ == with_boxes(t, ts, rows.take(i as int)),
            decreases boxes@.len() - i,
        {
            assert(rows.take(i + 1).drop_last() =~= rows.take(i as int));
            assert(rows.take(i + 1).last() == rows[i as int]);
            self.apply(Change::AddBox { ts, word: boxes[i].clone() });
            i += 1;
        }
        assert(rows.take(i as int) =~= rows);
        Ok(())
    }

    fn crops(&self) -> (r: Vec<(i64, String)>)
        ensures
            crop_rows(r@) == cropped(self@.frames),
    {
        let mut out: Vec<(i64, String)> = Vec::new();
        let frames = self.frames();
        let ghost all = frames@;
        let mut i: usize = 0;
        assert(all.take(0) =~= Seq::<(i64, FrameRow)>::empty());
        assert(crop_rows(out@) =~= Seq::<(i64, Seq<char>)>::empty());
        while i < frames.rows.len()
            invariant
                i <= frames.rows@.len(),
                all == frames@,
                crop_rows(out@) == cropped(all.take(i as int)),
            decreases frames.rows@.len() - i,
        {
            assert(all.take(i + 1).drop_last() =~= all.take(i as int));
            assert(all.take(i + 1).last() == all[i as int]);
            let ghost was = crop_rows(out@);
            if let Some(c) = &frames.rows[i].1.crop_path {
                if crate::text::byte_len(c.as_str()) > 0 {
                    proof {
                        lemma_bytes_in(c@);
                    }
                    out.push((frames.rows[i].0, c.clone()));
                    assert(crop_rows(out@) =~= was.push((all[i as int].0, c@)));
                } else {
                    proof {
                        lemma_bytes_in(c@);
                    }
                }
            }
            i += 1;
        }
        assert(all.take(i as int) =~= all);
        out
    }

    /// The oldest frames that still have a crop, at most as many as are worked
    /// on in one go.
    pub fn pending_crops(&self) -> (r: Vec<(i64, String)>)
        ensures
            crop_rows(r@) == next_crops(self@.frames),
    {
        let mut all = self.crops();
        let ghost was = all@;
        if all.len() > 32 {
            all.truncate(32);
        }
        assert(crop_rows(all@) =~= cropped(self@.frames).take(all@.len() as int));
        all
    }

    /// The number of frames that still have a crop.
    pub fn pending_crop_count(&self) -> (r: i64)
        ensures
            r == counted(cropped(self@.frames).len()),
    {
        let all = self.crops();
        assert(crop_rows(all@).len() == all@.len());
        count(all.len())
    }

    /// The numbers of frames, events, recognised words and clipboard texts.
    pub fn mutation_counters(&self) -> (r: (i64, i64, i64, i64))
        ensures
            r.0 == counted(self@.frames.len()),
            r.1 == counted(self@.events.len()),
            r.2 == counted(self@.boxes.len()),
            r.3 == counted(self@.clips.len()),
    {
        (
            count(self.frames().rows.len()),
            count(self.events().rows.len()),
            count(self.boxes().rows.len()),
            count(self.clip_rows().rows.len()),
        )
    }

    /// How much the archive holds. `today` is the start of the current day.
    pub fn stats(&self, today: i64) -> (r: StatsSnap)
        requires
            self.wf(),
            i64::MIN <= self@.managed() <= i64::MAX,
        ensures
            r == stats_of(self@, today),
            r.frames == counted(self@.frames.len()),
            r.frames_today == counted(inside(self@.frames, today as int, i64::MAX as int).len()),
            r.bytes == self@.managed(),
            r.first_ts == (if self@.frames.len() == 0 { 0 } else { self@.frames[0].0 }),
            r.last_ts == (if self@.frames.len() == 0 { 0 } else { self@.frames.last().0 }),
    {
        let frames = self.frames();
        let n: usize = frames.rows.len();
        let ghost all = frames@;
        let mut since: usize = 0;
        let mut i: usize = 0;
        assert(all.take(0) =~= Seq::<(i64, FrameRow)>::empty());
        while i < n
            invariant
                i <= n,
                n == frames.rows@.len(),
                all == frames@,
                since <= i,
                since == inside(all.take(i as int), today as int, i64::MAX as int).len(),
            decreases n - i,
        {
            assert(all.take(i + 1).drop_last() =~= all.take(i as int));
            assert(all.take(i + 1).last() == all[i as int]);
            if frames.rows[i].0 >= today {
                since += 1;
            }
            i += 1;
        }
        assert(all.take(n as int) =~= all);
        StatsSnap {
            frames: count(n),
            frames_today: count(since),
            bytes: self.managed_total() as i64,
            first_ts: if n == 0 { 0 } else { frames.rows[0].0 },
            last_ts: if n == 0 { 0 } else { frames.rows[n - 1].0 },
        }
    }

    /// The geometry of the frame at `ts`.
    pub fn frame_geom(&self, ts: i64) -> (r: Option<FrameGeom>)
        ensures
            r == geom_of(self@, ts),
            match row_at(self@.frames, ts) {
                Some(f) => r matches Some(g) && g == (FrameGeom {
                    crop_x: f.crop_x,
                    crop_y: f.crop_y,
                    crop_w: f.crop_w,
                    crop_h: f.crop_h,
                    out_w: f.out_w,
                    out_h: f.out_h,
                    stored_w: f.width,
                    stored_h: f.height,
                }),
                None => r is None,
            },
    {
        match self.frames().get(ts) {
            Some(f) => Some(
                FrameGeom {
                    crop_x: f.crop_x,
                    crop_y: f.crop_y,
                    crop_w: f.crop_w,
                    crop_h: f.crop_h,
                    out_w: f.out_w,
                    out_h: f.out_h,
                    stored_w: f.width,
                    stored_h: f.height,
                },
            ),
            None => None,
        }
    }

    /// The clipboard text that was current at `ts`; empty where there was none.
    pub fn clip_at(&self, ts: i64) -> (r: String)
        ensures
            r@ == clip_in(self@, ts),
    {
        match self.clip_rows().latest(ts) {
            Some(r) => r.1.content.clone(),
            None => String::new(),
        }
    }

    /// The windows that stood open at `ts`, as JSON.
    pub fn layout_at(&self, ts: i64) -> (r: Option<String>)
        ensures
            (match r {
                Some(s) => Some(s@),
                None => None,
            }) == layout_of(self@, ts),
            match latest(self@.layouts, ts) {
                Some(l) => r matches Some(s) && s@ == l.1.json,
                None => r is None,
            },
    {
        match self.layouts().latest(ts) {
            Some(r) => Some(r.1.json.clone()),
            None => None,
        }
    }
}

/// The geometry of the frame at `ts`.
pub open spec fn geom_of(t: Tables, ts: i64) -> Option<FrameGeom> {
    match row_at(t.frames, ts) {
        Some(f) => Some(
            FrameGeom {
                crop_x: f.crop_x,
                crop_y: f.crop_y,
                crop_w: f.crop_w,
                crop_h: f.crop_h,
                out_w: f.out_w,
                out_h: f.out_h,
                stored_w: f.width,
                stored_h: f.height,
            },
        ),
        None => None,
    }
}

/// The windows that stood open at `ts`, as JSON.
pub open spec fn layout_of(t: Tables, ts: i64) -> Option<Seq<char>> {
    match latest(t.layouts, ts) {
        Some(l) => Some(l.1.json),
        None => None,
    }
}

/// The clipboard text that was current at `ts`; empty where there was none.
pub open spec fn clip_in(t: Tables, ts: i64) -> Seq<char> {
    match latest(t.clips, ts) {
        Some(c) => c.1.content,
        None => Seq::empty(),
    }
}

/// A search text without a word in it.
pub fn blank() -> (r: SearchText)
    ensures
        r@ == blank_text(),
{
    let r = SearchText { text: String::new(), app: String::new(), title: String::new(), clip: String::new() };
    assert(r@ =~= blank_text());
    r
}

/// A text has bytes where it has characters.
pub proof fn lemma_bytes_in(s: Seq<char>)
    ensures
        crate::text::bytes_in(s) == 0 <==> s.len() == 0,
{
    reveal_with_fuel(vstd::utf8::encode_utf8, 2);
}

/// The frame that a moment belongs to exists; it is the last one at or before
/// the moment where there is one, and else none lies before the first one after.
pub proof fn law_nearest_frame(t: Tables, ts: i64)
    requires
        t.wf(),
    ensures
        match nearest(t.frames, ts) {
            Some(k) => {
                &&& crate::table::has_key(t.frames, k)
                &&& forall|m: i64| #[trigger] crate::table::has_key(t.frames, m) && m <= ts ==> m <= k <= ts
                &&& k > ts ==> forall|m: i64| #[trigger] crate::table::has_key(t.frames, m) ==> k <= m
            },
            None => t.frames.len() == 0,
        },
{
    crate::table::lemma_latest(t.frames, ts);
    lemma_earliest(t.frames, ts);
    if nearest(t.frames, ts) is None {
        if t.frames.len() > 0 {
            assert(crate::table::has_key(t.frames, t.frames[0].0));
        }
    }
}

proof fn lemma_earliest<V>(s: Seq<(i64, V)>, k: i64)
    requires
        crate::table::sorted(s),
    ensures
        match earliest(s, k) {
            Some(r) => {
                &&& crate::table::has_key(s, r.0)
                &&& r.0 >= k
                &&& forall|m: i64| #[trigger] crate::table::has_key(s, m) && m >= k ==> r.0 <= m
            },
            None => forall|m: i64| #[trigger] crate::table::has_key(s, m) ==> m < k,
        },
    decreases s.len(),
{
    if s.len() > 0 {
        let rest = s.skip(1);
        assert forall|i: int, j: int| 0 <= i < j < rest.len() implies rest[i].0 < rest[j].0 by {
            assert(s[i + 1].0 < s[j + 1].0);
        }
        lemma_earliest(rest, k);
        assert forall|m: i64| #[trigger] crate::table::has_key(s, m) implies m == s[0].0 || (m > s[0].0
            && crate::table::has_key(rest, m)) by {
            let i = choose|i: int| 0 <= i < s.len() && s[i].0 == m;
            if i > 0 {
                assert(s[0].0 < s[i].0);
                assert(rest[i - 1].0 == m);
            }
        }
        assert(s[0].0 == s[0].0 && crate::table::has_key(s, s[0].0));
        if s[0].0 < k && earliest(rest, k) is Some {
            let r = earliest(rest, k).unwrap();
            let i = choose|i: int| 0 <= i < rest.len() && rest[i].0 == r.0;
            assert(s[i + 1].0 == r.0);
        }
    }
}

/// A frame waits to be read exactly where it has a crop whose path says something.
pub proof fn law_crops_that_wait(frames: Seq<(i64, FrameRow)>, k: i64, path: Seq<char>)
    ensures
        cropped(frames).contains((k, path)) <==> path.len() > 0 && exists|i: int|
            0 <= i < frames.len() && (#[trigger] frames[i]).0 == k && frames[i].1.crop_path == Some(path),
        cropped(frames).len() <= 32 ==> next_crops(frames) == cropped(frames),
        cropped(frames).len() > 32 ==> next_crops(frames).len() == 32,
        next_crops(frames).is_prefix_of(cropped(frames)),
    decreases frames.len(),
{
    if frames.len() > 0 {
        let d = frames.drop_last();
        law_crops_that_wait(d, k, path);
        let front = cropped(d);
        let all = cropped(frames);
        let x = (k, path);
        if front.contains(x) {
            let i = choose|i: int| 0 <= i < front.len() && front[i] == x;
            assert(all[i] == x);
            let p = choose|p: int|
                0 <= p < d.len() && (#[trigger] d[p]).0 == k && d[p].1.crop_path == Some(path);
            assert(frames[p] == d[p]);
        }
        if path.len() > 0 && exists|i: int|
            0 <= i < frames.len() && (#[trigger] frames[i]).0 == k && frames[i].1.crop_path == Some(path) {
            let p = choose|p: int|
                0 <= p < frames.len() && (#[trigger] frames[p]).0 == k && frames[p].1.crop_path == Some(path);
            if p < d.len() {
                assert(d[p] == frames[p]);
            } else {
                assert(all[all.len() - 1] == x);
            }
        }
        if all.contains(x) && !front.contains(x) {
            let i = choose|i: int| 0 <= i < all.len() && all[i] == x;
            if i < front.len() {
                assert(front[i] == x);
            }
            assert(frames[frames.len() - 1].0 == k);
        }
    }
    if cropped(frames).len() <= 32 {
        assert(next_crops(frames) =~= cropped(frames));
    }
}

/// The clipboard text of a moment is the last one that was kept until then.
pub proof fn law_the_clipboard_of_a_moment(t: Tables, ts: i64, j: int)
    requires
        t.wf(),
    ensures
        0 <= j < t.clips.len() && t.clips[j].0 <= ts && (j + 1 < t.clips.len() ==> t.clips[j + 1].0 > ts) ==> clip_in(
            t,
            ts,
        ) == t.clips[j].1.content,
        (forall|i: int| 0 <= i < t.clips.len() ==> (#[trigger] t.clips[i]).0 > ts) ==> clip_in(t, ts).len() == 0,
{
    crate::table::lemma_latest(t.clips, ts);
    if 0 <= j < t.clips.len() && t.clips[j].0 <= ts && (j + 1 < t.clips.len() ==> t.clips[j + 1].0 > ts) {
        let r = latest(t.clips, ts);
        assert(crate::table::has_key(t.clips, t.clips[j].0));
        let i = choose|i: int| 0 <= i < t.clips.len() && t.clips[i].0 == r.unwrap().0;
        if i > j {
            assert(i == j + 1 || t.clips[j + 1].0 < t.clips[i].0);
        }
        if i < j {
            assert(t.clips[i].0 < t.clips[j].0);
        }
        assert(row_at(t.clips, t.clips[j].0) == Some(t.clips[j].1)) by {
            lemma_row_here(t.clips, j);
        }
    }
    if forall|i: int| 0 <= i < t.clips.len() ==> (#[trigger] t.clips[i]).0 > ts {
        if latest(t.clips, ts) is Some {
            let k = latest(t.clips, ts).unwrap().0;
            let i = choose|i: int| 0 <= i < t.clips.len() && t.clips[i].0 == k;
            assert(t.clips[i].0 > ts);
        }
    }
}

/// A row that stands at a stamp is the one that is found there.
pub proof fn lemma_row_here<V>(s: Seq<(i64, V)>, j: int)
    requires
        crate::table::sorted(s),
        0 <= j < s.len(),
    ensures
        row_at(s, s[j].0) == Some(s[j].1),
    decreases s.len(),
{
    if j < s.len() - 1 {
        assert(s[j].0 < s[s.len() - 1].0);
        lemma_row_here(s.drop_last(), j);
    }
}

/// The search text of a frame is the indexed one where there is one; else the one
/// that stands in for it; else it has the frame's own application and title.
pub proof fn law_the_search_text_of_a_frame(t: Tables, ts: i64)
    ensures
        row_at(t.ocr, ts) matches Some(row) ==> search_row(t, ts) == row,
        row_at(t.ocr, ts) is None ==> (row_at(t.plain, ts) matches Some(row) ==> search_row(t, ts) == row),
        row_at(t.ocr, ts) is None && row_at(t.plain, ts) is None ==> (row_at(t.frames, ts) matches Some(f)
            ==> search_row(t, ts).app == f.app && search_row(t, ts).title == f.title && search_row(t, ts).text.len() == 0
            && search_row(t, ts).clip.len() == 0),
        row_at(t.ocr, ts) is None && row_at(t.plain, ts) is None && row_at(t.frames, ts) is None ==> search_row(
            t,
            ts,
        ).app.len() == 0 && search_row(t, ts).title.len() == 0 && search_row(t, ts).text.len() == 0,
{
}

/// A clipboard text is filed under the last frame at or before it; without one
/// under the first frame after it; and without any under its own stamp.
pub proof fn law_where_a_copy_is_filed(t: Tables, ts: i64, j: int)
    requires
        t.wf(),
    ensures
        0 <= j < t.frames.len() && t.frames[j].0 <= ts && (j + 1 < t.frames.len() ==> t.frames[j + 1].0 > ts)
            ==> filed_under(t, ts) == t.frames[j].0,
        t.frames.len() > 0 && t.frames[0].0 > ts ==> filed_under(t, ts) == t.frames[0].0,
        t.frames.len() == 0 ==> filed_under(t, ts) == ts,
{
    law_nearest_frame(t, ts);
    if 0 <= j < t.frames.len() && t.frames[j].0 <= ts && (j + 1 < t.frames.len() ==> t.frames[j + 1].0 > ts) {
        assert(crate::table::has_key(t.frames, t.frames[j].0));
        let k = nearest(t.frames, ts).unwrap();
        let i = choose|i: int| 0 <= i < t.frames.len() && t.frames[i].0 == k;
        if i > j {
            assert(i == j + 1 || t.frames[j + 1].0 < t.frames[i].0);
        }
        if i < j {
            assert(t.frames[i].0 < t.frames[j].0);
        }
    }
    if t.frames.len() > 0 && t.frames[0].0 > ts {
        assert(crate::table::has_key(t.frames, t.frames[0].0));
        let k = nearest(t.frames, ts).unwrap();
        let i = choose|i: int| 0 <= i < t.frames.len() && t.frames[i].0 == k;
        if i > 0 {
            assert(t.frames[0].0 < t.frames[i].0);
        }
    }
}

/// Words that are kept of a frame stand after all that were there, in their
/// order, and nothing else changes.
pub proof fn law_words_are_added(t: Tables, ts: i64, boxes: Seq<BoxRow>)
    ensures
        with_boxes(t, ts, boxes).boxes == t.boxes + boxes.map_values(|b: BoxRow| (ts, b)),
        with_boxes(t, ts, boxes) == (Tables { boxes: with_boxes(t, ts, boxes).boxes, ..t }),
    decreases boxes.len(),
{
    let tag = |b: BoxRow| (ts, b);
    if boxes.len() == 0 {
        assert(t.boxes + boxes.map_values(tag) =~= t.boxes);
    } else {
        law_words_are_added(t, ts, boxes.drop_last());
        assert(boxes.map_values(tag) =~= boxes.drop_last().map_values(tag).push((ts, boxes.last())));
        assert(with_boxes(t, ts, boxes).boxes =~= t.boxes + boxes.map_values(tag));
    }
}

/// How much an archive holds is told of all its frames: how many there are, how
/// many of the current day, the first and the last of them, and the bytes that
/// count against the cap.
pub proof fn law_how_much_is_held(t: Tables, today: i64, j: int)
    requires
        t.wf(),
        t.frames.len() <= i64::MAX,
        i64::MIN <= t.managed() <= i64::MAX,
    ensures
        ({
            let s = stats_of(t, today);
            &&& s.frames == t.frames.len()
            &&& s.bytes == t.managed()
            &&& t.frames.len() > 0 ==> s.first_ts == t.frames[0].0 && s.last_ts == t.frames[t.frames.len() - 1].0
            &&& t.frames.len() == 0 ==> s.first_ts == 0 && s.last_ts == 0 && s.frames_today == 0
            &&& 0 <= j <= t.frames.len() && (j > 0 ==> t.frames[j - 1].0 < today) && (j < t.frames.len()
                ==> t.frames[j].0 >= today) ==> s.frames_today == t.frames.len() - j
        }),
{
    crate::table::lemma_outside(t.frames, today as int, i64::MAX as int);
    if 0 <= j <= t.frames.len() && (j > 0 ==> t.frames[j - 1].0 < today) && (j < t.frames.len() ==> t.frames[j].0
        >= today) {
        lemma_since(t.frames, today, j);
    }
}

proof fn lemma_since<V>(s: Seq<(i64, V)>, k: i64, j: int)
    requires
        crate::table::sorted(s),
        0 <= j <= s.len(),
        j > 0 ==> s[j - 1].0 < k,
        j < s.len() ==> s[j].0 >= k,
    ensures
        inside(s, k as int, i64::MAX as int).len() == s.len() - j,
    decreases s.len(),
{
    if s.len() > 0 {
        let d = s.drop_last();
        let last = s.len() - 1;
        if j < s.len() {
            assert(j == last || s[j].0 < s[last].0);
            if j < last {
                assert(d[j] == s[j]);
            }
            if j > 0 {
                assert(d[j - 1] == s[j - 1]);
            }
            lemma_since(d, k, j);
        } else {
            if j > 1 {
                assert(s[j - 2].0 < s[j - 1].0);
                assert(d[j - 2] == s[j - 2]);
            }
            lemma_since(d, k, j - 1);
        }
    }
}

/// A text that was copied is what the last frame at or before it is found by from
/// then on, beside what that frame is found by already; no other frame, and no
/// other table, changes.
pub proof fn law_a_copy_is_filed(t: Tables, ts: i64, content: Seq<char>, j: int, k: i64)
    requires
        t.wf(),
        0 <= j < t.frames.len(),
        t.frames[j].0 <= ts,
        j + 1 < t.frames.len() ==> t.frames[j + 1].0 > ts,
    ensures
        ({
            let u = with_copy(t, ts, content);
            let at = t.frames[j].0;
            let now = search_row(u, at);
            let was = search_row(t, at);
            &&& now.clip == content
            &&& now.text == was.text && now.app == was.app && now.title == was.title
            &&& k != at ==> search_row(u, k) == search_row(t, k)
            &&& u.frames == t.frames && u.clips == t.clips && u.layouts == t.layouts && u.events == t.events && u.boxes
                == t.boxes
        }),
{
    law_where_a_copy_is_filed(t, ts, j);
    let at = t.frames[j].0;
    crate::archive::law_a_search_text_is_found_again(t, at, TextRow { clip: content, ..search_row(t, at) }, k);
}

/// The windows of a moment are those that were put down last until then, and the
/// geometry of a frame is its own.
pub proof fn law_the_windows_of_a_moment(t: Tables, ts: i64, i: int, j: int)
    requires
        t.wf(),
    ensures
        0 <= j < t.layouts.len() && t.layouts[j].0 <= ts && (j + 1 < t.layouts.len() ==> t.layouts[j + 1].0 > ts)
            ==> layout_of(t, ts) == Some(t.layouts[j].1.json),
        t.layouts.len() == 0 || t.layouts[0].0 > ts ==> layout_of(t, ts) is None,
        0 <= i < t.frames.len() ==> (geom_of(t, t.frames[i].0) matches Some(g) && g.crop_x == t.frames[i].1.crop_x
            && g.crop_y == t.frames[i].1.crop_y && g.crop_w == t.frames[i].1.crop_w && g.crop_h == t.frames[i].1.crop_h
            && g.out_w == t.frames[i].1.out_w && g.out_h == t.frames[i].1.out_h && g.stored_w == t.frames[i].1.width
            && g.stored_h == t.frames[i].1.height),
        !crate::table::has_key(t.frames, ts) ==> geom_of(t, ts) is None,
{
    crate::table::law_the_latest_row(t.layouts, ts, j);
    crate::table::lemma_row_at(t.frames, ts);
    if 0 <= i < t.frames.len() {
        lemma_row_here(t.frames, i);
    }
}

} // verus!
