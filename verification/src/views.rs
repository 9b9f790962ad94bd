//! The answers about the archive that are told as JSON.
use crate::archive::Tables;
use crate::json::{self, field_of, json_of, jsons, no_entries, Fields, Json};
use crate::lookup::{box_rows, clip_in};
use crate::query::HitRow;
use crate::rows::{BoxRow, ClipRow, FrameInsert, FrameRow, WordBox};
use crate::search::{hit_rows, in_span, join_path, joined_path, spans, SearchReply};
use crate::store::Store;
use crate::table::{has_key, latest, row_at};
use serde_json::Value;
use vstd::prelude::*;

verus! {

/// The frames of a span, oldest first.
pub open spec fn span_frames(frames: Seq<(i64, FrameRow)>, from: i64, to: i64) -> Seq<(i64, FrameRow)>
    decreases frames.len(),
{
    if frames.len() == 0 {
        frames
    } else {
        let front = span_frames(frames.drop_last(), from, to);
        if in_span(frames.last().0, from, to) {
            front.push(frames.last())
        } else {
            front
        }
    }
}

/// The last rows of a list, at most so many.
pub open spec fn last_of<T>(s: Seq<T>, n: int) -> Seq<T> {
    if s.len() <= n {
        s
    } else {
        s.skip(s.len() - n)
    }
}

/// A number within bounds.
pub open spec fn within(n: int, lo: int, hi: int) -> int {
    if n < lo {
        lo
    } else if n > hi {
        hi
    } else {
        n
    }
}

fn clamp(n: usize, lo: usize, hi: usize) -> (r: usize)
    requires
        lo <= hi,
    ensures
        r == within(n as int, lo as int, hi as int),
{
    if n < lo {
        lo
    } else if n > hi {
        hi
    } else {
        n
    }
}

/// A frame as the timeline tells it.
pub open spec fn frame_entries(root: Seq<char>, f: FrameRow) -> Map<Seq<char>, Json> {
    no_entries().insert("ts"@, Json::Int(f.ts as int)).insert("path"@, Json::Text(joined_path(root, f.path))).insert(
        "app"@,
        Json::Text(f.app),
    ).insert("title"@, Json::Text(f.title)).insert("workspace"@, Json::Text(f.workspace)).insert(
        "bytes"@,
        Json::Int(f.bytes as int),
    ).insert("encoder"@, Json::Text(f.encoder))
}

/// A frame as a moment tells it, with its sizes.
pub open spec fn moment_frame(root: Seq<char>, f: FrameRow) -> Json {
    Json::Object(
        frame_entries(root, f).insert("width"@, Json::Int(f.width as int)).insert(
            "height"@,
            Json::Int(f.height as int),
        ).insert("out_w"@, Json::Int(f.out_w as int)).insert("out_h"@, Json::Int(f.out_h as int)).insert(
            "crop_x"@,
            Json::Int(f.crop_x as int),
        ).insert("crop_y"@, Json::Int(f.crop_y as int)).insert("crop_w"@, Json::Int(f.crop_w as int)).insert(
            "crop_h"@,
            Json::Int(f.crop_h as int),
        ),
    )
}

/// The frames of a list as the timeline tells them.
pub open spec fn frame_list(root: Seq<char>, frames: Seq<(i64, FrameRow)>) -> Seq<Json> {
    frames.map_values(|f: (i64, FrameRow)| Json::Object(frame_entries(root, f.1)))
}

/// The stretches between frames that are longer than any pause in capturing.
pub open spec fn gaps(frames: Seq<(i64, FrameRow)>) -> Seq<Json>
    decreases frames.len(),
{
    if frames.len() < 2 {
        Seq::empty()
    } else {
        let front = gaps(frames.drop_last());
        let a = frames[frames.len() - 2].0;
        let b = frames.last().0;
        if b - a > 15_000 {
            front.push(
                Json::Object(
                    no_entries().insert("from"@, Json::Int(a as int)).insert("to"@, Json::Int(b as int)).insert(
                        "reason"@,
                        Json::Text("gap"@),
                    ),
                ),
            )
        } else {
            front
        }
    }
}

/// The frames that a timeline shows: the newest ones of its span, oldest first.
pub open spec fn strip(t: Tables, from: i64, to: i64, limit: int) -> Seq<(i64, FrameRow)> {
    last_of(span_frames(t.frames, from, to), within(limit, 1, 2000))
}

/// The newest frames of a span and the gaps between them.
pub open spec fn timeline_json(t: Tables, root: Seq<char>, from: i64, to: i64, limit: int) -> Json {
    let shown = strip(t, from, to, limit);
    Json::Object(
        no_entries().insert("frames"@, Json::List(frame_list(root, shown))).insert("gaps"@, Json::List(gaps(shown))),
    )
}

/// The newest clipboard texts, newest first.
pub open spec fn clip_list(clips: Seq<(i64, ClipRow)>, n: int) -> Seq<Json>
    decreases clips.len(),
{
    if clips.len() == 0 || n <= 0 {
        Seq::empty()
    } else {
        let c = clips.last();
        seq![
            Json::Object(
                no_entries().insert("ts"@, Json::Int(c.0 as int)).insert("mime"@, Json::Text(c.1.mime)).insert(
                    "content"@,
                    Json::Text(c.1.content),
                ).insert("bytes"@, Json::Int(c.1.bytes as int)),
            ),
        ] + clip_list(clips.drop_last(), n - 1)
    }
}

/// The recognised words of the frame at `ts`.
pub open spec fn all_boxes(boxes: Seq<(i64, BoxRow)>, ts: i64) -> Seq<BoxRow>
    decreases boxes.len(),
{
    if boxes.len() == 0 {
        Seq::empty()
    } else {
        let front = all_boxes(boxes.drop_last(), ts);
        if boxes.last().0 == ts {
            front.push(boxes.last().1)
        } else {
            front
        }
    }
}

/// What the archive knows of a moment.
#[derive(Debug)]
pub struct Moment {
    /// The frame at exactly that stamp.
    pub frame: Option<FrameInsert>,
    /// The clipboard text that was current.
    pub clip: String,
    /// The windows that stood open, as JSON.
    pub layout: Option<String>,
    /// The recognised words of the frame.
    pub boxes: Vec<WordBox>,
}

/// A moment as it is told; the windows and the words are told by others.
pub open spec fn moment_json(frame: Option<FrameRow>, root: Seq<char>, clip: Seq<char>, windows: Json, boxes: Json) -> Json {
    Json::Object(
        no_entries().insert(
            "frame"@,
            match frame {
                Some(f) => moment_frame(root, f),
                None => Json::Null,
            },
        ).insert("clip"@, Json::Text(clip)).insert("windows"@, windows).insert("boxes"@, boxes),
    )
}

/// A hit as it is told; its words are told by others.
pub open spec fn hit_json(h: HitRow, boxes: Json) -> Json {
    Json::Object(
        no_entries().insert("ts"@, Json::Int(h.ts as int)).insert("path"@, Json::Text(h.path)).insert(
            "app"@,
            Json::Text(h.app),
        ).insert("title"@, Json::Text(h.title)).insert("snippet"@, Json::Text(h.snippet)).insert("boxes"@, boxes),
    )
}

/// Hits as they are told.
pub open spec fn hit_list(hits: Seq<HitRow>, boxes: Seq<Json>) -> Seq<Json> {
    Seq::new(hits.len(), |i: int| hit_json(hits[i], boxes[i]))
}

/// What a search answers, as it is told.
pub open spec fn search_json(hits: Seq<HitRow>, boxes: Seq<Json>, ocr_available: bool, query: Seq<char>) -> Json {
    Json::Object(
        no_entries().insert("hits"@, Json::List(hit_list(hits, boxes))).insert(
            "ocrAvailable"@,
            Json::Bool(ocr_available),
        ).insert("query"@, Json::Text(query)),
    )
}

/// The newest clipboard texts, newest first, as they are told.
pub open spec fn clips_json(t: Tables, limit: int) -> Json {
    Json::Object(no_entries().insert("clips"@, Json::List(clip_list(t.clips, within(limit, 1, 500)))))
}

impl Store {
    fn frame_fields(&self, f: &FrameInsert) -> (r: Fields)
        ensures
            r@ == frame_entries(self.home(), f@),
    {
        let path = join_path(self.root(), f.path.as_str());
        Fields::new().number("ts", f.ts).text("path", path.as_str()).text("app", f.app.as_str()).text(
            "title",
            f.title.as_str(),
        ).text("workspace", f.workspace.as_str()).number("bytes", f.bytes).text("encoder", f.encoder.as_str())
    }

    /// The newest frames of a span, oldest first, and the gaps between them.
    pub fn timeline(&self, from: i64, to: i64, limit: usize) -> (r: Value)
        ensures
            json_of(r) == timeline_json(self@, self.home(), from, to, limit as int),
    {
        let n = clamp(limit, 1, 2000);
        let rows = self.frames();
        let ghost all = rows@;
        let mut picks: Vec<usize> = Vec::new();
        let mut i: usize = 0;
        let ghost root = self.home();
        assert(all.take(0) =~= Seq::<(i64, FrameRow)>::empty());
        while i < rows.rows.len()
            invariant
                i <= rows.rows@.len(),
                all == rows@,
                picked(all, picks@, span_frames(all.take(i as int), from, to)),
            decreases rows.rows@.len() - i,
        {
            assert(all.take(i + 1).drop_last() =~= all.take(i as int));
            assert(all.take(i + 1).last() == all[i as int]);
            if spans(rows.rows[i].0, from, to) {
                picks.push(i);
            }
            i += 1;
        }
        assert(all.take(i as int) =~= all);
        let ghost within_span = span_frames(all, from, to);
        let first: usize = if picks.len() <= n { 0 } else { picks.len() - n };
        let ghost shown = strip(self@, from, to, limit as int);
        let mut frames: Vec<Value> = Vec::new();
        let mut between: Vec<Value> = Vec::new();
        let mut k: usize = first;
        assert(shown =~= within_span.skip(first as int));
        assert(jsons(frames@) =~= frame_list(root, shown.take(0)));
        assert(jsons(between@) =~= gaps(shown.take(0)));
        while k < picks.len()
            invariant
                first <= k <= picks@.len(),
                all == rows@,
                self@.frames == all,
                root == self.home(),
                picked(all, picks@, within_span),
                shown == within_span.skip(first as int),
                jsons(frames@) == frame_list(root, shown.take(k - first)),
                jsons(between@) == gaps(shown.take(k - first)),
            decreases picks@.len() - k,
        {
            let ghost d = (k - first) as int;
            proof {
                assert(shown.take(d + 1).drop_last() =~= shown.take(d));
                assert(shown.take(d + 1).last() == shown[d]);
                assert(shown[d] == within_span[k as int]);
                assert(within_span[k as int] == all[picks@[k as int] as int]);
            }
            let at = picks[k];
            let ghost was = jsons(frames@);
            let row = self.frame_fields(&rows.rows[at].1).object();
            let ghost told = json_of(row);
            frames.push(row);
            assert(jsons(frames@) =~= was.push(told));
            assert(jsons(frames@) =~= frame_list(root, shown.take(d + 1)));
            if k > first {
                let ghost seen_gaps = jsons(between@);
                let a = rows.rows[picks[k - 1]].0;
                let b = rows.rows[at].0;
                assert(shown[d - 1] == within_span[k - 1]);
                assert(shown.take(d + 1)[d - 1] == shown[d - 1]);
                if b as i128 - a as i128 > 15_000 {
                    let gap = Fields::new().number("from", a).number("to", b).text("reason", "gap").object();
                    let ghost told_gap = json_of(gap);
                    between.push(gap);
                    assert(jsons(between@) =~= seen_gaps.push(told_gap));
                }
            }
            k += 1;
        }
        assert(shown.take(k - first) =~= shown);
        Fields::new().put("frames", json::list(frames)).put("gaps", json::list(between)).object()
    }

    /// The newest clipboard texts, newest first.
    pub fn clips(&self, limit: usize) -> (r: Value)
        ensures
            json_of(r) == clips_json(self@, limit as int),
    {
        let n = clamp(limit, 1, 500);
        let clips = self.clip_rows();
        let ghost all = clips@;
        let ghost want = clip_list(all, n as int);
        let mut out: Vec<Value> = Vec::new();
        let mut i: usize = clips.rows.len();
        assert(all.take(i as int) =~= all);
        assert(jsons(out@) + want =~= want);
        while i > 0 && out.len() < n
            invariant
                i <= clips.rows@.len(),
                all == clips@,
                out@.len() <= n,
                want == jsons(out@) + clip_list(all.take(i as int), n - out@.len()),
            decreases i,
        {
            proof {
                assert(all.take(i as int).drop_last() =~= all.take(i - 1));
                assert(all.take(i as int).last() == all[i - 1]);
            }
            let c = &clips.rows[i - 1];
            let row = Fields::new().number("ts", c.0).text("mime", c.1.mime.as_str()).text(
                "content",
                c.1.content.as_str(),
            ).number("bytes", c.1.bytes).object();
            let ghost was = jsons(out@);
            let ghost told = json_of(row);
            let ghost rest = clip_list(all.take(i - 1), n - out@.len() - 1);
            out.push(row);
            assert(jsons(out@) =~= was.push(told));
            assert(was + (seq![told] + rest) =~= was.push(told) + rest);
            i -= 1;
        }
        assert(jsons(out@) + Seq::<Json>::empty() =~= jsons(out@));
        Fields::new().put("clips", json::list(out)).object()
    }

    /// What the archive knows of a moment.
    pub fn moment(&self, ts: i64) -> (r: Moment)
        ensures
            match row_at(self@.frames, ts) {
                Some(f) => r.frame matches Some(x) && x@ == f,
                None => r.frame is None,
            },
            r.clip@ == clip_in(self@, ts),
            match latest(self@.layouts, ts) {
                Some(l) => r.layout matches Some(s) && s@ == l.1.json,
                None => r.layout is None,
            },
            box_rows(r.boxes@) == all_boxes(self@.boxes, ts),
    {
        let boxes = self.boxes();
        let ghost all = boxes@;
        let mut out: Vec<WordBox> = Vec::new();
        let mut i: usize = 0;
        assert(all.take(0) =~= Seq::<(i64, BoxRow)>::empty());
        assert(box_rows(out@) =~= Seq::<BoxRow>::empty());
        while i < boxes.rows.len()
            invariant
                i <= boxes.rows@.len(),
                all == boxes@,
                box_rows(out@) == all_boxes(all.take(i as int), ts),
            decreases boxes.rows@.len() - i,
        {
            assert(all.take(i + 1).drop_last() =~= all.take(i as int));
            assert(all.take(i + 1).last() == all[i as int]);
            if boxes.rows[i].0 == ts {
                let ghost was = box_rows(out@);
                out.push(boxes.rows[i].1.clone());
                assert(box_rows(out@) =~= was.push(all[i as int].1));
            }
            i += 1;
        }
        assert(all.take(i as int) =~= all);
        Moment {
            frame: match self.frames().get(ts) {
                Some(f) => Some(f.clone()),
                None => None,
            },
            clip: self.clip_at(ts),
            layout: self.layout_at(ts),
            boxes: out,
        }
    }

    /// A moment as it is told, with its windows and its words.
    pub fn tell_moment(&self, m: &Moment, windows: Value, boxes: Value) -> (r: Value)
        ensures
            json_of(r) == moment_json(
                match m.frame {
                    Some(f) => Some(f@),
                    None => None,
                },
                self.home(),
                m.clip@,
                json_of(windows),
                json_of(boxes),
            ),
    {
        let frame = match &m.frame {
            Some(f) => self.frame_fields(f).number("width", f.width).number("height", f.height).number(
                "out_w",
                f.out_w,
            ).number("out_h", f.out_h).number("crop_x", f.crop_x).number("crop_y", f.crop_y).number(
                "crop_w",
                f.crop_w,
            ).number("crop_h", f.crop_h).object(),
            None => json::null(),
        };
        Fields::new().put("frame", frame).text("clip", m.clip.as_str()).put("windows", windows).put(
            "boxes",
            boxes,
        ).object()
    }
}

/// The positions of rows in a list.
pub open spec fn picked(all: Seq<(i64, FrameRow)>, picks: Seq<usize>, rows: Seq<(i64, FrameRow)>) -> bool {
    &&& picks.len() == rows.len()
    &&& forall|k: int| 0 <= k < picks.len() ==> #[trigger] picks[k] < all.len() && rows[k] == all[picks[k] as int]
}

impl SearchReply {
    /// What a search answers, as it is told, with the words of each hit.
    pub fn tell(&self, boxes: Vec<Value>) -> (r: Value)
        requires
            boxes@.len() == self.hits@.len(),
        ensures
            json_of(r) == search_json(hit_rows(self.hits@), jsons(boxes@), self.ocr_available, self.query@),
    {
        let ghost given = boxes@;
        let ghost words = jsons(given);
        let ghost hits = hit_rows(self.hits@);
        let ghost want = hit_list(hits, words);
        let mut out: Vec<Value> = Vec::new();
        assert(jsons(out@) =~= want.take(0));
        for b in it: boxes
            invariant
                it.seq() == given,
                given.len() == self.hits@.len(),
                words == jsons(given),
                hits == hit_rows(self.hits@),
                want == hit_list(hits, words),
                jsons(out@) == want.take(it.index() as int),
                out@.len() == it.index(),
        {
            let at: usize = out.len();
            let h = &self.hits[at];
            assert(hits[at as int] == h@);
            assert(words[at as int] == json_of(b));
            let ghost was = jsons(out@);
            let row = Fields::new().number("ts", h.ts).text("path", h.path.as_str()).text("app", h.app.as_str()).text(
                "title",
                h.title.as_str(),
            ).text("snippet", h.snippet.as_str()).put("boxes", b).object();
            assert(json_of(row) == want[at as int]);
            let ghost told = json_of(row);
            out.push(row);
            assert(jsons(out@) =~= was.push(told));
            assert(jsons(out@) =~= want.take(it.index() + 1));
        }
        assert(want.take(want.len() as int) =~= want);
        Fields::new().put("hits", json::list(out)).flag("ocrAvailable", self.ocr_available).text(
            "query",
            self.query.as_str(),
        ).object()
    }
}

/// A timeline shows the newest frames of its span: as many as asked for, within
/// reason, and none older than one that it leaves out.
pub proof fn law_timeline_shows_the_newest(t: Tables, from: i64, to: i64, limit: int, k: i64)
    requires
        t.wf(),
        has_key(t.frames, k),
        in_span(k, from, to),
    ensures
        ({
            let shown = strip(t, from, to, limit);
            let all = span_frames(t.frames, from, to);
            &&& crate::table::sorted(shown)
            &&& shown.len() == (if all.len() <= within(limit, 1, 2000) { all.len() as int } else { within(limit, 1, 2000) })
            &&& has_key(shown, k) || (shown.len() == within(limit, 1, 2000) && forall|i: int|
                0 <= i < shown.len() ==> (#[trigger] shown[i]).0 > k)
        }),
{
    let all = span_frames(t.frames, from, to);
    let n = within(limit, 1, 2000);
    let shown = strip(t, from, to, limit);
    lemma_span(t.frames, from, to);
    assert(has_key(all, k));
    let x = choose|x: int| 0 <= x < all.len() && all[x].0 == k;
    if all.len() > n {
        let d = all.len() - n;
        assert forall|i: int, j: int| 0 <= i < j < shown.len() implies shown[i].0 < shown[j].0 by {
            assert(all[i + d].0 < all[j + d].0);
        }
        if x >= d {
            assert(shown[x - d].0 == k);
        } else {
            assert forall|i: int| 0 <= i < shown.len() implies (#[trigger] shown[i]).0 > k by {
                assert(all[x].0 < all[i + d].0);
            }
        }
    }
}

proof fn lemma_span(frames: Seq<(i64, FrameRow)>, from: i64, to: i64)
    requires
        crate::table::sorted(frames),
    ensures
        crate::table::sorted(span_frames(frames, from, to)),
        forall|k: i64|
            #[trigger] has_key(span_frames(frames, from, to), k) <==> has_key(frames, k) && in_span(k, from, to),
    decreases frames.len(),
{
    let r = span_frames(frames, from, to);
    if frames.len() > 0 {
        let d = frames.drop_last();
        let q = span_frames(d, from, to);
        lemma_span(d, from, to);
        crate::table::lemma_has_key_split(frames);
        if in_span(frames.last().0, from, to) {
            assert(r.drop_last() =~= q);
            crate::table::lemma_has_key_split(r);
            assert forall|i: int, j: int| 0 <= i < j < r.len() implies r[i].0 < r[j].0 by {
                if j == r.len() - 1 {
                    assert(has_key(q, q[i].0));
                    let x = choose|x: int| 0 <= x < d.len() && d[x].0 == q[i].0;
                    assert(frames[x].0 < frames[frames.len() - 1].0);
                }
            }
        }
    }
}

/// A moment has a frame for every frame of the archive, however old: also for
/// one that a search found and the timeline does not show.
pub proof fn law_moment_resolves_any_frame(t: Tables, ts: i64)
    ensures
        row_at(t.frames, ts) is Some <==> has_key(t.frames, ts),
{
    crate::table::lemma_row_at(t.frames, ts);
}

/// A timeline shows frames of its span only, in the order of their stamps, and no
/// more than asked for; a frame of the span is left out only where so many newer
/// ones are shown.
pub proof fn law_what_a_timeline_shows(t: Tables, from: i64, to: i64, limit: int)
    requires
        t.wf(),
    ensures
        ({
            let shown = strip(t, from, to, limit);
            let most = if limit < 1 {
                1
            } else if limit > 2000 {
                2000
            } else {
                limit
            };
            &&& shown.len() <= most
            &&& forall|i: int, j: int| 0 <= i < j < shown.len() ==> (#[trigger] shown[i]).0 < (#[trigger] shown[j]).0
            &&& forall|i: int|
                0 <= i < shown.len() ==> t.frames.contains(#[trigger] shown[i]) && (from == 0 || from <= shown[i].0) && (to
                    == 0 || shown[i].0 <= to)
            &&& forall|k: int|
                0 <= k < t.frames.len() && (from == 0 || from <= (#[trigger] t.frames[k]).0) && (to == 0
                    || t.frames[k].0 <= to) ==> shown.contains(t.frames[k]) || (shown.len() == most && forall|i: int|
                    0 <= i < shown.len() ==> (#[trigger] shown[i]).0 > t.frames[k].0)
        }),
{
    let all = span_frames(t.frames, from, to);
    let shown = strip(t, from, to, limit);
    let most = within(limit, 1, 2000);
    lemma_span_rows(t.frames, from, to);
    let off = all.len() - shown.len();
    assert forall|i: int| 0 <= i < shown.len() implies #[trigger] shown[i] == all[off + i] by {}
    assert forall|i: int| 0 <= i < shown.len() implies t.frames.contains(#[trigger] shown[i]) && (from == 0 || from
        <= shown[i].0) && (to == 0 || shown[i].0 <= to) by {
        assert(shown[i] == all[off + i]);
    }
    assert forall|k: int|
        0 <= k < t.frames.len() && (from == 0 || from <= (#[trigger] t.frames[k]).0) && (to == 0 || t.frames[k].0
            <= to) implies shown.contains(t.frames[k]) || (shown.len() == most && forall|i: int|
        0 <= i < shown.len() ==> (#[trigger] shown[i]).0 > t.frames[k].0) by {
        assert(all.contains(t.frames[k]));
        let p = choose|p: int| 0 <= p < all.len() && all[p] == t.frames[k];
        if p >= off {
            assert(shown[p - off] == t.frames[k]);
        }
    }
}

proof fn lemma_span_rows(frames: Seq<(i64, FrameRow)>, from: i64, to: i64)
    requires
        crate::table::sorted(frames),
    ensures
        ({
            let all = span_frames(frames, from, to);
            &&& crate::table::sorted(all)
            &&& forall|i: int|
                0 <= i < all.len() ==> frames.contains(#[trigger] all[i]) && (from == 0 || from <= all[i].0) && (to == 0
                    || all[i].0 <= to)
            &&& forall|k: int|
                0 <= k < frames.len() && (from == 0 || from <= (#[trigger] frames[k]).0) && (to == 0 || frames[k].0
                    <= to) ==> all.contains(frames[k])
        }),
    decreases frames.len(),
{
    let all = span_frames(frames, from, to);
    if frames.len() > 0 {
        let d = frames.drop_last();
        lemma_span_rows(d, from, to);
        let front = span_frames(d, from, to);
        assert forall|i: int| 0 <= i < all.len() implies frames.contains(#[trigger] all[i]) && (from == 0 || from
            <= all[i].0) && (to == 0 || all[i].0 <= to) by {
            if i < front.len() {
                assert(front[i] == all[i]);
                let k = choose|k: int| 0 <= k < d.len() && d[k] == front[i];
                assert(frames[k] == all[i]);
            } else {
                assert(frames[frames.len() - 1] == all[i]);
            }
        }
        assert forall|i: int, j: int| 0 <= i < j < all.len() implies all[i].0 < all[j].0 by {
            assert(front[i] == all[i]);
            let k = choose|k: int| 0 <= k < d.len() && d[k] == front[i];
            assert(frames[k] == all[i]);
            if j < front.len() {
                assert(front[j] == all[j]);
            }
        }
        assert forall|k: int|
            0 <= k < frames.len() && (from == 0 || from <= (#[trigger] frames[k]).0) && (to == 0 || frames[k].0
                <= to) implies all.contains(frames[k]) by {
            if k < d.len() {
                assert(d[k] == frames[k]);
                let i = choose|i: int| 0 <= i < front.len() && front[i] == frames[k];
                assert(all[i] == frames[k]);
            } else {
                assert(all[all.len() - 1] == frames[k]);
            }
        }
    }
}

/// A gap is told between two frames that follow one another exactly where more
/// than fifteen seconds lie between them.
pub proof fn law_gaps_are_told(frames: Seq<(i64, FrameRow)>, i: int)
    requires
        crate::table::sorted(frames),
        0 <= i,
        i + 1 < frames.len(),
    ensures
        frames[i + 1].0 - frames[i].0 > 15_000 <==> exists|k: int|
            0 <= k < gaps(frames).len() && gap_between(#[trigger] gaps(frames)[k], frames[i].0, frames[i + 1].0),
{
    let all = gaps(frames);
    if exists|k: int| 0 <= k < all.len() && gap_between(#[trigger] all[k], frames[i].0, frames[i + 1].0) {
        let k = choose|k: int| 0 <= k < all.len() && gap_between(#[trigger] all[k], frames[i].0, frames[i + 1].0);
        let j = lemma_gap_from(frames, k);
        if j < i {
            assert(frames[j].0 < frames[i].0);
        }
        if i < j {
            assert(frames[i].0 < frames[j].0);
        }
    }
    if frames[i + 1].0 - frames[i].0 > 15_000 {
        let k = lemma_gap_at(frames, i);
        assert(gap_between(all[k], frames[i].0, frames[i + 1].0));
    }
}

/// A gap is told as one, with its start and its end.
pub open spec fn gap_between(j: Json, a: i64, b: i64) -> bool {
    &&& field_of(j, "from"@) == Some(Json::Int(a as int))
    &&& field_of(j, "to"@) == Some(Json::Int(b as int))
    &&& field_of(j, "reason"@) == Some(Json::Text("gap"@))
}

proof fn lemma_last_gap(frames: Seq<(i64, FrameRow)>)
    requires
        frames.len() >= 2,
    ensures
        ({
            let n = frames.len() - 2;
            let front = gaps(frames.drop_last());
            let all = gaps(frames);
            &&& frames[n + 1].0 - frames[n].0 <= 15_000 ==> all == front
            &&& frames[n + 1].0 - frames[n].0 > 15_000 ==> all == front.push(all.last()) && all.len() == front.len() + 1
                && gap_between(all.last(), frames[n].0, frames[n + 1].0)
        }),
{
    reveal_strlit("from");
    reveal_strlit("to");
    reveal_strlit("reason");
    assert("from"@.len() != "to"@.len());
    assert("from"@.len() != "reason"@.len());
    assert("to"@.len() != "reason"@.len());
}

proof fn lemma_gap_from(frames: Seq<(i64, FrameRow)>, k: int) -> (j: int)
    requires
        0 <= k < gaps(frames).len(),
    ensures
        0 <= j && j + 1 < frames.len(),
        frames[j + 1].0 - frames[j].0 > 15_000,
        gap_between(gaps(frames)[k], frames[j].0, frames[j + 1].0),
    decreases frames.len(),
{
    lemma_last_gap(frames);
    let d = frames.drop_last();
    if k < gaps(d).len() {
        let j = lemma_gap_from(d, k);
        assert(d[j] == frames[j] && d[j + 1] == frames[j + 1]);
        j
    } else {
        frames.len() - 2
    }
}

proof fn lemma_gap_at(frames: Seq<(i64, FrameRow)>, j: int) -> (k: int)
    requires
        0 <= j && j + 1 < frames.len(),
        frames[j + 1].0 - frames[j].0 > 15_000,
    ensures
        0 <= k < gaps(frames).len(),
        gap_between(gaps(frames)[k], frames[j].0, frames[j + 1].0),
    decreases frames.len(),
{
    lemma_last_gap(frames);
    let d = frames.drop_last();
    if j + 1 < d.len() {
        assert(d[j] == frames[j] && d[j + 1] == frames[j + 1]);
        lemma_gap_at(d, j)
    } else {
        gaps(frames).len() - 1
    }
}

/// The clipboard texts are told newest first, with what they say, and as many as
/// asked for where there are as many.
pub proof fn law_copies_are_told_newest_first(clips: Seq<(i64, ClipRow)>, n: int, i: int)
    requires
        n >= 0,
    ensures
        clip_list(clips, n).len() == (if clips.len() <= n { clips.len() as int } else { n }),
        0 <= i < clip_list(clips, n).len() ==> {
            let j = clip_list(clips, n)[i];
            let c = clips[clips.len() - 1 - i];
            &&& field_of(j, "ts"@) == Some(Json::Int(c.0 as int))
            &&& field_of(j, "mime"@) == Some(Json::Text(c.1.mime))
            &&& field_of(j, "content"@) == Some(Json::Text(c.1.content))
            &&& field_of(j, "bytes"@) == Some(Json::Int(c.1.bytes as int))
        },
    decreases clips.len(),
{
    reveal_strlit("ts");
    reveal_strlit("mime");
    reveal_strlit("content");
    reveal_strlit("bytes");
    assert("ts"@.len() != "mime"@.len());
    assert("ts"@.len() != "content"@.len());
    assert("ts"@.len() != "bytes"@.len());
    assert("mime"@.len() != "content"@.len());
    assert("mime"@.len() != "bytes"@.len());
    assert("content"@.len() != "bytes"@.len());
    if clips.len() > 0 && n > 0 {
        law_copies_are_told_newest_first(clips.drop_last(), n - 1, i - 1);
    }
}

/// The clipboard texts are told in one list, at least one and at most five
/// hundred of them.
pub proof fn law_the_list_of_copies(t: Tables, limit: int)
    ensures
        field_of(clips_json(t, limit), "clips"@) == Some(
            Json::List(
                clip_list(
                    t.clips,
                    if limit < 1 {
                        1
                    } else if limit > 500 {
                        500
                    } else {
                        limit
                    },
                ),
            ),
        ),
{
}

/// The recognised words of a frame are all those and only those that stand under
/// its stamp.
pub proof fn law_words_of_a_frame(boxes: Seq<(i64, BoxRow)>, ts: i64, b: BoxRow)
    ensures
        all_boxes(boxes, ts).contains(b) <==> boxes.contains((ts, b)),
        all_boxes(boxes, ts).len() <= boxes.len(),
    decreases boxes.len(),
{
    if boxes.len() > 0 {
        let d = boxes.drop_last();
        law_words_of_a_frame(d, ts, b);
        let front = all_boxes(d, ts);
        let all = all_boxes(boxes, ts);
        if front.contains(b) {
            let i = choose|i: int| 0 <= i < front.len() && front[i] == b;
            assert(all[i] == b);
            let k = choose|k: int| 0 <= k < d.len() && d[k] == (ts, b);
            assert(boxes[k] == (ts, b));
        }
        if boxes.contains((ts, b)) {
            let k = choose|k: int| 0 <= k < boxes.len() && boxes[k] == (ts, b);
            if k < d.len() {
                assert(d[k] == (ts, b));
            } else {
                assert(all[all.len() - 1] == b);
            }
        }
        if all.contains(b) && !front.contains(b) {
            let i = choose|i: int| 0 <= i < all.len() && all[i] == b;
            if i < front.len() {
                assert(front[i] == b);
            }
            assert(boxes[boxes.len() - 1] == (ts, b));
        }
    }
}

/// A frame is told with its stamp, its file below the directory of the archive,
/// and what was on screen; a moment tells the frame, the clipboard, the windows
/// and the words.
pub proof fn law_frames_and_moments_are_told(f: FrameRow, root: Seq<char>, clip: Seq<char>, windows: Json, boxes: Json)
    ensures
        ({
            let j = Json::Object(frame_entries(root, f));
            &&& field_of(j, "ts"@) == Some(Json::Int(f.ts as int))
            &&& field_of(j, "path"@) == Some(Json::Text(joined_path(root, f.path)))
            &&& field_of(j, "app"@) == Some(Json::Text(f.app))
            &&& field_of(j, "title"@) == Some(Json::Text(f.title))
            &&& field_of(j, "workspace"@) == Some(Json::Text(f.workspace))
            &&& field_of(j, "bytes"@) == Some(Json::Int(f.bytes as int))
            &&& field_of(j, "encoder"@) == Some(Json::Text(f.encoder))
        }),
        ({
            let j = moment_frame(root, f);
            &&& field_of(j, "ts"@) == Some(Json::Int(f.ts as int))
            &&& field_of(j, "path"@) == Some(Json::Text(joined_path(root, f.path)))
            &&& field_of(j, "app"@) == Some(Json::Text(f.app))
            &&& field_of(j, "title"@) == Some(Json::Text(f.title))
            &&& field_of(j, "width"@) == Some(Json::Int(f.width as int))
            &&& field_of(j, "height"@) == Some(Json::Int(f.height as int))
            &&& field_of(j, "out_w"@) == Some(Json::Int(f.out_w as int))
            &&& field_of(j, "out_h"@) == Some(Json::Int(f.out_h as int))
            &&& field_of(j, "crop_x"@) == Some(Json::Int(f.crop_x as int))
            &&& field_of(j, "crop_y"@) == Some(Json::Int(f.crop_y as int))
            &&& field_of(j, "crop_w"@) == Some(Json::Int(f.crop_w as int))
            &&& field_of(j, "crop_h"@) == Some(Json::Int(f.crop_h as int))
        }),
        ({
            let j = moment_json(Some(f), root, clip, windows, boxes);
            &&& field_of(j, "frame"@) == Some(moment_frame(root, f))
            &&& field_of(j, "clip"@) == Some(Json::Text(clip))
            &&& field_of(j, "windows"@) == Some(windows)
            &&& field_of(j, "boxes"@) == Some(boxes)
        }),
        field_of(moment_json(None, root, clip, windows, boxes), "frame"@) == Some(Json::Null),
{
    reveal_strlit("ts");
    reveal_strlit("path");
    reveal_strlit("app");
    reveal_strlit("title");
    reveal_strlit("workspace");
    reveal_strlit("bytes");
    reveal_strlit("encoder");
    reveal_strlit("width");
    reveal_strlit("height");
    reveal_strlit("out_w");
    reveal_strlit("out_h");
    reveal_strlit("crop_x");
    reveal_strlit("crop_y");
    reveal_strlit("crop_w");
    reveal_strlit("crop_h");
    assert("ts"@.len() != "path"@.len());
    assert("ts"@.len() != "app"@.len());
    assert("ts"@.len() != "title"@.len());
    assert("ts"@.len() != "workspace"@.len());
    assert("ts"@.len() != "bytes"@.len());
    assert("ts"@.len() != "encoder"@.len());
    assert("ts"@.len() != "width"@.len());
    assert("ts"@.len() != "height"@.len());
    assert("ts"@.len() != "out_w"@.len());
    assert("ts"@.len() != "out_h"@.len());
    assert("ts"@.len() != "crop_x"@.len());
    assert("ts"@.len() != "crop_y"@.len());
    assert("ts"@.len() != "crop_w"@.len());
    assert("ts"@.len() != "crop_h"@.len());
    assert("path"@.len() != "app"@.len());
    assert("path"@.len() != "title"@.len());
    assert("path"@.len() != "workspace"@.len());
    assert("path"@.len() != "bytes"@.len());
    assert("path"@.len() != "encoder"@.len());
    assert("path"@.len() != "width"@.len());
    assert("path"@.len() != "height"@.len());
    assert("path"@.len() != "out_w"@.len());
    assert("path"@.len() != "out_h"@.len());
    assert("path"@.len() != "crop_x"@.len());
    assert("path"@.len() != "crop_y"@.len());
    assert("path"@.len() != "crop_w"@.len());
    assert("path"@.len() != "crop_h"@.len());
    assert("app"@.len() != "title"@.len());
    assert("app"@.len() != "workspace"@.len());
    assert("app"@.len() != "bytes"@.len());
    assert("app"@.len() != "encoder"@.len());
    assert("app"@.len() != "width"@.len());
    assert("app"@.len() != "height"@.len());
    assert("app"@.len() != "out_w"@.len());
    assert("app"@.len() != "out_h"@.len());
    assert("app"@.len() != "crop_x"@.len());
    assert("app"@.len() != "crop_y"@.len());
    assert("app"@.len() != "crop_w"@.len());
    assert("app"@.len() != "crop_h"@.len());
    assert("title"@.len() != "workspace"@.len());
    assert("title"@[0] != "bytes"@[0]);
    assert("title"@.len() != "encoder"@.len());
    assert("title"@[0] != "width"@[0]);
    assert("title"@.len() != "height"@.len());
    assert("title"@[0] != "out_w"@[0]);
    assert("title"@[0] != "out_h"@[0]);
    assert("title"@.len() != "crop_x"@.len());
    assert("title"@.len() != "crop_y"@.len());
    assert("title"@.len() != "crop_w"@.len());
    assert("title"@.len() != "crop_h"@.len());
    assert("workspace"@.len() != "bytes"@.len());
    assert("workspace"@.len() != "encoder"@.len());
    assert("workspace"@.len() != "width"@.len());
    assert("workspace"@.len() != "height"@.len());
    assert("workspace"@.len() != "out_w"@.len());
    assert("workspace"@.len() != "out_h"@.len());
    assert("workspace"@.len() != "crop_x"@.len());
    assert("workspace"@.len() != "crop_y"@.len());
    assert("workspace"@.len() != "crop_w"@.len());
    assert("workspace"@.len() != "crop_h"@.len());
    assert("bytes"@.len() != "encoder"@.len());
    assert("bytes"@[0] != "width"@[0]);
    assert("bytes"@.len() != "height"@.len());
    assert("bytes"@[0] != "out_w"@[0]);
    assert("bytes"@[0] != "out_h"@[0]);
    assert("bytes"@.len() != "crop_x"@.len());
    assert("bytes"@.len() != "crop_y"@.len());
    assert("bytes"@.len() != "crop_w"@.len());
    assert("bytes"@.len() != "crop_h"@.len());
    assert("encoder"@.len() != "width"@.len());
    assert("encoder"@.len() != "height"@.len());
    assert("encoder"@.len() != "out_w"@.len());
    assert("encoder"@.len() != "out_h"@.len());
    assert("encoder"@.len() != "crop_x"@.len());
    assert("encoder"@.len() != "crop_y"@.len());
    assert("encoder"@.len() != "crop_w"@.len());
    assert("encoder"@.len() != "crop_h"@.len());
    assert("width"@.len() != "height"@.len());
    assert("width"@[0] != "out_w"@[0]);
    assert("width"@[0] != "out_h"@[0]);
    assert("width"@.len() != "crop_x"@.len());
    assert("width"@.len() != "crop_y"@.len());
    assert("width"@.len() != "crop_w"@.len());
    assert("width"@.len() != "crop_h"@.len());
    assert("height"@.len() != "out_w"@.len());
    assert("height"@.len() != "out_h"@.len());
    assert("height"@[0] != "crop_x"@[0]);
    assert("height"@[0] != "crop_y"@[0]);
    assert("height"@[0] != "crop_w"@[0]);
    assert("height"@[0] != "crop_h"@[0]);
    assert("out_w"@[4] != "out_h"@[4]);
    assert("out_w"@.len() != "crop_x"@.len());
    assert("out_w"@.len() != "crop_y"@.len());
    assert("out_w"@.len() != "crop_w"@.len());
    assert("out_w"@.len() != "crop_h"@.len());
    assert("out_h"@.len() != "crop_x"@.len());
    assert("out_h"@.len() != "crop_y"@.len());
    assert("out_h"@.len() != "crop_w"@.len());
    assert("out_h"@.len() != "crop_h"@.len());
    assert("crop_x"@[5] != "crop_y"@[5]);
    assert("crop_x"@[5] != "crop_w"@[5]);
    assert("crop_x"@[5] != "crop_h"@[5]);
    assert("crop_y"@[5] != "crop_w"@[5]);
    assert("crop_y"@[5] != "crop_h"@[5]);
    assert("crop_w"@[5] != "crop_h"@[5]);
    reveal_strlit("frame");
    reveal_strlit("clip");
    reveal_strlit("windows");
    reveal_strlit("boxes");
    assert("frame"@.len() != "clip"@.len());
    assert("frame"@.len() != "windows"@.len());
    assert("frame"@[0] != "boxes"@[0]);
    assert("clip"@.len() != "windows"@.len());
    assert("clip"@.len() != "boxes"@.len());
    assert("windows"@.len() != "boxes"@.len());
}

/// A timeline tells each of the frames that it shows, and a search each of its
/// hits, in their order.
pub proof fn law_lists_are_told(t: Tables, root: Seq<char>, from: i64, to: i64, limit: int, hits: Seq<HitRow>, boxes: Seq<Json>, ocr: bool, q: Seq<char>, i: int)
    ensures
        field_of(timeline_json(t, root, from, to, limit), "frames"@) matches Some(Json::List(list)) && list.len() == strip(
            t,
            from,
            to,
            limit,
        ).len() && (0 <= i < list.len() ==> list[i] == Json::Object(
            frame_entries(root, strip(t, from, to, limit)[i].1),
        )),
        field_of(timeline_json(t, root, from, to, limit), "gaps"@) == Some(
            Json::List(gaps(strip(t, from, to, limit))),
        ),
        field_of(search_json(hits, boxes, ocr, q), "hits"@) matches Some(Json::List(list)) && list.len() == hits.len()
            && (0 <= i < list.len() ==> {
            &&& field_of(list[i], "ts"@) == Some(Json::Int(hits[i].ts as int))
            &&& field_of(list[i], "path"@) == Some(Json::Text(hits[i].path))
            &&& field_of(list[i], "app"@) == Some(Json::Text(hits[i].app))
            &&& field_of(list[i], "title"@) == Some(Json::Text(hits[i].title))
            &&& field_of(list[i], "snippet"@) == Some(Json::Text(hits[i].snippet))
            &&& field_of(list[i], "boxes"@) == Some(boxes[i])
        }),
        field_of(search_json(hits, boxes, ocr, q), "ocrAvailable"@) == Some(Json::Bool(ocr)),
        field_of(search_json(hits, boxes, ocr, q), "query"@) == Some(Json::Text(q)),
{
    reveal_strlit("frames");
    reveal_strlit("gaps");
    assert("frames"@.len() != "gaps"@.len());
    reveal_strlit("hits");
    reveal_strlit("ocrAvailable");
    reveal_strlit("query");
    assert("hits"@.len() != "ocrAvailable"@.len());
    assert("hits"@.len() != "query"@.len());
    assert("ocrAvailable"@.len() != "query"@.len());
    reveal_strlit("ts");
    reveal_strlit("path");
    reveal_strlit("app");
    reveal_strlit("title");
    reveal_strlit("snippet");
    reveal_strlit("boxes");
    assert("ts"@.len() != "path"@.len());
    assert("ts"@.len() != "app"@.len());
    assert("ts"@.len() != "title"@.len());
    assert("ts"@.len() != "snippet"@.len());
    assert("ts"@.len() != "boxes"@.len());
    assert("path"@.len() != "app"@.len());
    assert("path"@.len() != "title"@.len());
    assert("path"@.len() != "snippet"@.len());
    assert("path"@.len() != "boxes"@.len());
    assert("app"@.len() != "title"@.len());
    assert("app"@.len() != "snippet"@.len());
    assert("app"@.len() != "boxes"@.len());
    assert("title"@.len() != "snippet"@.len());
    assert("title"@[0] != "boxes"@[0]);
    assert("snippet"@.len() != "boxes"@.len());
}

} // verus!
