//! Search over recognised text, titles, applications and the clipboard.
use crate::archive::Tables;
use crate::lookup::{blank_text, box_rows, filed_under};
use crate::query::{self, snippet, Hit, HitRow};
use crate::rows::{BoxRow, ClipRow, FrameInsert, FrameRow, TextRow, WordBox};
use crate::store::{changed, clip_row, no_capture, Store};
use crate::table::{latest, row_at};
use crate::text::{self, bytes_in, lower, occurs, trim};
use vstd::prelude::*;

verus! {

/// A row of the full-text index that a query matches, and what the index shows
/// of its recognised text.
#[derive(Debug)]
pub struct Match {
    pub ts: i64,
    pub snippet: String,
}

impl View for Match {
    type V = (i64, Seq<char>);

    open spec fn view(&self) -> (i64, Seq<char>) {
        (self.ts, self.snippet@)
    }
}

/// What a list of matches says.
pub open spec fn match_rows(found: Seq<Match>) -> Seq<(i64, Seq<char>)> {
    found.map_values(|m: Match| m@)
}

/// What a search answers.
#[derive(Debug)]
pub struct SearchReply {
    pub hits: Vec<Hit>,
    pub ocr_available: bool,
    pub query: String,
}

/// What a list of hits says.
pub open spec fn hit_rows(hits: Seq<Hit>) -> Seq<HitRow> {
    hits.map_values(|h: Hit| h@)
}

/// A path below a directory. An absolute path stays as it is.
pub open spec fn joined_path(root: Seq<char>, rel: Seq<char>) -> Seq<char> {
    if rel.len() > 0 && rel[0] == '/' {
        rel
    } else if root.len() == 0 || root.last() == '/' {
        root + rel
    } else {
        root.push('/') + rel
    }
}

/// A path below a directory.
pub fn join_path(root: &str, rel: &str) -> (r: String)
    ensures
        r@ == joined_path(root@, rel@),
{
    let a = text::chars_of(root);
    let b = text::chars_of(rel);
    if b.len() > 0 && b[0] == '/' {
        return rel.to_string();
    }
    let mut s = root.to_string();
    if a.len() > 0 && a[a.len() - 1] != '/' {
        s.push('/');
    }
    s.append(rel);
    s
}

/// The part of a text before its first NUL.
pub open spec fn before_nul(s: Seq<char>) -> Seq<char>
    decreases s.len(),
{
    if s.len() == 0 || s[0] == '\0' {
        Seq::empty()
    } else {
        seq![s[0]] + before_nul(s.skip(1))
    }
}

fn until_nul(v: &Vec<char>) -> (r: Vec<char>)
    ensures
        r@ == before_nul(v@),
{
    let mut out: Vec<char> = Vec::new();
    let mut i: usize = 0;
    assert(v@.skip(0) =~= v@);
    assert(out@ + before_nul(v@.skip(0)) =~= before_nul(v@));
    while i < v.len() && v[i] != '\0'
        invariant
            i <= v@.len(),
            out@ + before_nul(v@.skip(i as int)) == before_nul(v@),
        decreases v@.len() - i,
    {
        proof {
            let rest = v@.skip(i as int);
            assert(rest.skip(1) =~= v@.skip(i + 1));
            assert(out@ + (seq![rest[0]] + before_nul(rest.skip(1))) =~= out@.push(rest[0]) + before_nul(
                rest.skip(1),
            ));
        }
        out.push(v[i]);
        i += 1;
    }
    assert(before_nul(v@.skip(i as int)) =~= Seq::<char>::empty());
    assert(out@ + Seq::<char>::empty() =~= out@);
    out
}

/// A text matches a pattern in which `%` stands for any text and `_` for any
/// character.
pub open spec fn like(p: Seq<char>, s: Seq<char>) -> bool
    decreases p.len(), s.len(),
{
    if p.len() == 0 {
        s.len() == 0
    } else if p[0] == '%' {
        like(p.skip(1), s) || (s.len() > 0 && like(p, s.skip(1)))
    } else if p[0] == '_' {
        s.len() > 0 && like(p.skip(1), s.skip(1))
    } else {
        s.len() > 0 && s[0] == p[0] && like(p.skip(1), s.skip(1))
    }
}

fn like_row(p: &Vec<char>, s: &Vec<char>, i: usize, below: &Vec<bool>) -> (row: Vec<bool>)
    requires
        i < p@.len(),
        below@.len() == s@.len() + 1,
        forall|k: int|
            0 <= k <= s@.len() ==> #[trigger] below@[k] == like(p@.skip(i + 1), s@.skip(s@.len() - k)),
    ensures
        row@.len() == s@.len() + 1,
        forall|k: int|
            0 <= k <= s@.len() ==> #[trigger] row@[k] == like(p@.skip(i as int), s@.skip(s@.len() - k)),
{
    let n: usize = s.len();
    let mut row: Vec<bool> = Vec::new();
    let mut k: usize = 0;
    loop
        invariant
            i < p@.len(),
            n == s@.len(),
            k <= n,
            row@.len() == k,
            below@.len() == n + 1,
            forall|j: int| 0 <= j <= n ==> #[trigger] below@[j] == like(p@.skip(i + 1), s@.skip(n - j)),
            forall|j: int| 0 <= j < k ==> #[trigger] row@[j] == like(p@.skip(i as int), s@.skip(n - j)),
        decreases n - k,
    {
        let c = p[i];
        proof {
            let ps = p@.skip(i as int);
            let ss = s@.skip(n - k);
            assert(ps[0] == c);
            assert(ps.skip(1) =~= p@.skip(i + 1));
            if k > 0 {
                assert(ss.skip(1) =~= s@.skip(n - (k - 1)));
                assert(ss[0] == s@[n - k]);
            }
            assert(below@[k as int] == like(ps.skip(1), ss));
        }
        let b = if c == '%' {
            below[k] || (k > 0 && row[k - 1])
        } else if c == '_' {
            k > 0 && below[k - 1]
        } else {
            k > 0 && s[n - k] == c && below[k - 1]
        };
        assert(b == like(p@.skip(i as int), s@.skip(n - k)));
        row.push(b);
        if k == n {
            return row;
        }
        k += 1;
    }
}

/// A text matches a pattern.
pub fn is_like(p: &Vec<char>, s: &Vec<char>) -> (r: bool)
    ensures
        r == like(p@, s@),
{
    let n: usize = s.len();
    let mut row: Vec<bool> = Vec::new();
    let mut k: usize = 0;
    let mut i: usize = p.len();
    row.push(true);
    assert(s@.skip(n as int) =~= Seq::<char>::empty());
    while k < n
        invariant
            k <= n,
            n == s@.len(),
            i == p@.len(),
            row@.len() == k + 1,
            forall|j: int| 0 <= j <= k ==> #[trigger] row@[j] == like(p@.skip(i as int), s@.skip(n - j)),
        decreases n - k,
    {
        row.push(false);
        k += 1;
        assert(s@.skip(n - k).len() == k);
    }
    while i > 0
        invariant
            i <= p@.len(),
            n == s@.len(),
            row@.len() == n + 1,
            forall|j: int| 0 <= j <= n ==> #[trigger] row@[j] == like(p@.skip(i as int), s@.skip(n - j)),
        decreases i,
    {
        let next = like_row(p, s, i - 1, &row);
        row = next;
        i -= 1;
    }
    assert(p@.skip(0) =~= p@);
    assert(s@.skip(0) =~= s@);
    assert(row@[n as int] == like(p@.skip(0), s@.skip(n - n)));
    row[n]
}

/// The pattern of texts that a query stands in.
pub open spec fn pattern_of(q: Seq<char>) -> Seq<char> {
    seq!['%'] + lower(q) + seq!['%']
}

/// A query matches a text, whatever the case of its letters.
pub open spec fn matches_text(s: Seq<char>, q: Seq<char>) -> bool {
    like(before_nul(pattern_of(q)), before_nul(lower(s)))
}

/// A query is too long to be matched against texts.
pub open spec fn too_long(q: Seq<char>) -> bool {
    bytes_in(pattern_of(q)) > 50_000
}

fn pattern(q: &str) -> (r: Vec<char>)
    ensures
        r@ == pattern_of(q@),
{
    let low = text::to_lower(q);
    let mut s = String::new();
    s.push('%');
    s.append(low.as_str());
    s.push('%');
    assert(s@ =~= pattern_of(q@));
    text::chars_of(s.as_str())
}

fn is_match(s: &str, p: &Vec<char>, Ghost(q): Ghost<Seq<char>>) -> (r: bool)
    requires
        p@ == before_nul(pattern_of(q)),
    ensures
        r == matches_text(s@, q),
{
    let low = text::chars_of(text::to_lower(s).as_str());
    let v = until_nul(&low);
    is_like(p, &v)
}

/// A stamp lies in a span; a bound of zero is no bound.
pub open spec fn in_span(ts: i64, from: i64, to: i64) -> bool {
    (from == 0 || ts >= from) && (to == 0 || ts <= to)
}

/// A stamp lies in a span.
pub fn spans(ts: i64, from: i64, to: i64) -> (r: bool)
    ensures
        r == in_span(ts, from, to),
{
    (from == 0 || ts >= from) && (to == 0 || ts <= to)
}

/// `h` among hits that stand newest first, after those of its own stamp.
pub open spec fn placed(hits: Seq<HitRow>, h: HitRow) -> Seq<HitRow>
    decreases hits.len(),
{
    if hits.len() == 0 || hits.last().ts >= h.ts {
        hits.push(h)
    } else {
        placed(hits.drop_last(), h).push(hits.last())
    }
}

/// Hits newest first; those of one stamp stay in their order.
pub open spec fn newest_first(hits: Seq<HitRow>) -> Seq<HitRow>
    decreases hits.len(),
{
    if hits.len() == 0 {
        hits
    } else {
        placed(newest_first(hits.drop_last()), hits.last())
    }
}

/// No more than so many hits.
pub open spec fn at_most(hits: Seq<HitRow>, limit: int) -> Seq<HitRow> {
    if hits.len() <= limit {
        hits
    } else {
        hits.take(limit)
    }
}

/// The hit that a matching row of the full-text index gives: the frame at its
/// stamp or the last one before it, else the row itself.
pub open spec fn index_hit(t: Tables, root: Seq<char>, m: (i64, Seq<char>)) -> HitRow {
    match latest(t.frames, m.0) {
        Some(f) => HitRow {
            ts: f.0,
            path: if f.1.path.len() == 0 {
                Seq::empty()
            } else {
                joined_path(root, f.1.path)
            },
            app: f.1.app,
            title: f.1.title,
            snippet: m.1,
            boxes: Seq::empty(),
        },
        None => {
            let row = match row_at(t.ocr, m.0) {
                Some(r) => r,
                None => blank_text(),
            };
            HitRow {
                ts: m.0,
                path: Seq::empty(),
                app: row.app,
                title: row.title,
                snippet: m.1,
                boxes: Seq::empty(),
            }
        },
    }
}

/// The hits in a span that matching rows of the full-text index give, newest
/// first.
pub open spec fn index_hits(
    t: Tables,
    root: Seq<char>,
    found: Seq<(i64, Seq<char>)>,
    from: i64,
    to: i64,
) -> Seq<HitRow>
    decreases found.len(),
{
    if found.len() == 0 {
        Seq::empty()
    } else {
        let front = index_hits(t, root, found.drop_last(), from, to);
        let h = index_hit(t, root, found.last());
        if in_span(h.ts, from, to) {
            placed(front, h)
        } else {
            front
        }
    }
}

/// The clipboard text that a frame is searched with.
pub open spec fn frame_clip(t: Tables, ts: i64) -> Seq<char> {
    crate::lookup::clip_in(t, ts)
}

/// A frame is found by its title, its application or the clipboard at its time.
pub open spec fn frame_matches(t: Tables, f: FrameRow, ts: i64, q: Seq<char>) -> bool {
    matches_text(f.title, q) || matches_text(f.app, q) || matches_text(frame_clip(t, ts), q)
}

/// The hit that a frame gives.
pub open spec fn frame_hit(t: Tables, root: Seq<char>, f: FrameRow, ts: i64, q: Seq<char>) -> HitRow {
    HitRow {
        ts,
        path: joined_path(root, f.path),
        app: f.app,
        title: f.title,
        snippet: snippet(f.title.push(' ') + frame_clip(t, ts), q),
        boxes: Seq::empty(),
    }
}

/// The frames in a span that a query matches, newest first.
pub open spec fn frame_hits(
    t: Tables,
    root: Seq<char>,
    frames: Seq<(i64, FrameRow)>,
    q: Seq<char>,
    from: i64,
    to: i64,
) -> Seq<HitRow>
    decreases frames.len(),
{
    if frames.len() == 0 {
        Seq::empty()
    } else {
        let older = frame_hits(t, root, frames.drop_last(), q, from, to);
        let ts = frames.last().0;
        let f = frames.last().1;
        if in_span(ts, from, to) && frame_matches(t, f, ts, q) {
            seq![frame_hit(t, root, f, ts, q)] + older
        } else {
            older
        }
    }
}

/// The hit that a clipboard text gives: the frame that its moment belongs to.
pub open spec fn clip_hit(t: Tables, root: Seq<char>, c: ClipRow, ts: i64, q: Seq<char>) -> HitRow {
    let k = filed_under(t, ts);
    let shown = snippet(c.content, q);
    match row_at(t.frames, k) {
        Some(f) => HitRow {
            ts: k,
            path: joined_path(root, f.path),
            app: f.app,
            title: f.title,
            snippet: shown,
            boxes: Seq::empty(),
        },
        None => HitRow {
            ts: k,
            path: Seq::empty(),
            app: Seq::empty(),
            title: Seq::empty(),
            snippet: shown,
            boxes: Seq::empty(),
        },
    }
}

/// The hits that clipboard texts in a span give, newest text first.
pub open spec fn clip_hits(
    t: Tables,
    root: Seq<char>,
    clips: Seq<(i64, ClipRow)>,
    q: Seq<char>,
    from: i64,
    to: i64,
) -> Seq<HitRow>
    decreases clips.len(),
{
    if clips.len() == 0 {
        Seq::empty()
    } else {
        let older = clip_hits(t, root, clips.drop_last(), q, from, to);
        let ts = clips.last().0;
        let c = clips.last().1;
        if matches_text(c.content, q) && in_span(ts, from, to) {
            seq![clip_hit(t, root, c, ts, q)] + older
        } else {
            older
        }
    }
}

/// There is a hit with this stamp.
pub open spec fn has_stamp(hits: Seq<HitRow>, ts: i64) -> bool {
    exists|i: int| 0 <= i < hits.len() && (#[trigger] hits[i]).ts == ts
}

/// Hits with those of another list whose stamps are not among them yet.
pub open spec fn joined_hits(into: Seq<HitRow>, extra: Seq<HitRow>) -> Seq<HitRow>
    decreases extra.len(),
{
    if extra.len() == 0 {
        into
    } else {
        let front = joined_hits(into, extra.drop_last());
        if has_stamp(front, extra.last().ts) {
            front
        } else {
            front.push(extra.last())
        }
    }
}

/// Two lists of hits as one: newest first, no more than so many.
pub open spec fn merged(into: Seq<HitRow>, extra: Seq<HitRow>, limit: int) -> Seq<HitRow> {
    at_most(newest_first(joined_hits(into, extra)), limit)
}

/// A recognised word is part of the query, or the query of it.
pub open spec fn word_matches(word: Seq<char>, q: Seq<char>) -> bool {
    occurs(lower(word), lower(q)) || occurs(lower(q), lower(word))
}

/// The recognised words of the frame at `ts` that a query is about.
pub open spec fn boxes_of(boxes: Seq<(i64, BoxRow)>, ts: i64, q: Seq<char>) -> Seq<BoxRow>
    decreases boxes.len(),
{
    if boxes.len() == 0 {
        Seq::empty()
    } else {
        let front = boxes_of(boxes.drop_last(), ts, q);
        if boxes.last().0 == ts && word_matches(boxes.last().1.word, q) {
            front.push(boxes.last().1)
        } else {
            front
        }
    }
}

/// Hits with the recognised words that the query is about.
pub open spec fn boxed(t: Tables, hits: Seq<HitRow>, q: Seq<char>) -> Seq<HitRow> {
    hits.map_values(|h: HitRow| HitRow { boxes: boxes_of(t.boxes, h.ts, q), ..h })
}

/// Some frame lies in the span.
pub open spec fn some_frame(frames: Seq<(i64, FrameRow)>, from: i64, to: i64) -> bool {
    exists|i: int| 0 <= i < frames.len() && in_span((#[trigger] frames[i]).0, from, to)
}

/// The hits of a search before the clipboard's own. Where the full-text index
/// could not be asked, titles, applications and the clipboard are searched.
pub open spec fn first_hits(
    t: Tables,
    root: Seq<char>,
    q: Seq<char>,
    found: Option<Seq<(i64, Seq<char>)>>,
    limit: int,
    from: i64,
    to: i64,
) -> Option<Seq<HitRow>> {
    match found {
        Some(rows) => Some(at_most(index_hits(t, root, rows, from, to), limit)),
        None => if too_long(q) {
            if some_frame(t.frames, from, to) {
                None
            } else {
                Some(Seq::empty())
            }
        } else {
            Some(at_most(frame_hits(t, root, t.frames, q, from, to), limit))
        },
    }
}

/// The hits that the clipboard gives.
pub open spec fn second_hits(t: Tables, root: Seq<char>, q: Seq<char>, limit: int, from: i64, to: i64) -> Seq<HitRow> {
    if too_long(q) {
        Seq::empty()
    } else {
        at_most(clip_hits(t, root, t.clips, q, from, to), limit)
    }
}

/// The number of hits asked for, within reason.
pub open spec fn search_limit(limit: int) -> int {
    if limit < 1 {
        1
    } else if limit > 200 {
        200
    } else {
        limit
    }
}

/// The hits of a search; nothing where it fails.
pub open spec fn search_hits(
    t: Tables,
    root: Seq<char>,
    q: Seq<char>,
    found: Option<Seq<(i64, Seq<char>)>>,
    limit: int,
    from: i64,
    to: i64,
) -> Option<Seq<HitRow>> {
    let n = search_limit(limit);
    match first_hits(t, root, q, found, n, from, to) {
        Some(hits) => Some(boxed(t, merged(hits, second_hits(t, root, q, n, from, to), n), q)),
        None => None,
    }
}

fn place(hits: &mut Vec<Hit>, h: Hit)
    ensures
        hit_rows(final(hits)@) == placed(hit_rows(old(hits)@), h@),
{
    let ghost all = hit_rows(hits@);
    let mut i: usize = hits.len();
    while i > 0 && hits[i - 1].ts < h.ts
        invariant
            i <= hits@.len(),
            all == hit_rows(hits@),
            forall|j: int| i <= j < all.len() ==> (#[trigger] all[j]).ts < h.ts,
        decreases i,
    {
        i -= 1;
    }
    proof {
        lemma_placed(all, h@, i as int);
    }
    let ghost row = h@;
    hits.insert(i, h);
    assert(hit_rows(hits@) =~= all.insert(i as int, row));
}

proof fn lemma_placed(hits: Seq<HitRow>, h: HitRow, i: int)
    requires
        0 <= i <= hits.len(),
        forall|j: int| i <= j < hits.len() ==> (#[trigger] hits[j]).ts < h.ts,
        i > 0 ==> hits[i - 1].ts >= h.ts,
    ensures
        placed(hits, h) == hits.insert(i, h),
    decreases hits.len(),
{
    if i == hits.len() {
        assert(hits.insert(i, h) =~= hits.push(h));
    } else {
        assert(hits[hits.len() - 1].ts < h.ts);
        lemma_placed(hits.drop_last(), h, i);
        assert(hits.insert(i, h) =~= hits.drop_last().insert(i, h).push(hits.last()));
    }
}

fn sort_newest(hits: Vec<Hit>) -> (r: Vec<Hit>)
    ensures
        hit_rows(r@) == newest_first(hit_rows(hits@)),
{
    let ghost given = hits@;
    let ghost all = hit_rows(given);
    let mut out: Vec<Hit> = Vec::new();
    assert(all.take(0) =~= Seq::<HitRow>::empty());
    assert(hit_rows(out@) =~= Seq::<HitRow>::empty());
    for h in it: hits
        invariant
            it.seq() == given,
            all == hit_rows(given),
            hit_rows(out@) == newest_first(all.take(it.index() as int)),
    {
        assert(all.take(it.index() + 1).drop_last() =~= all.take(it.index() as int));
        assert(all.take(it.index() + 1).last() == all[it.index() as int]);
        place(&mut out, h);
    }
    assert(all.take(all.len() as int) =~= all);
    out
}

fn cut(hits: &mut Vec<Hit>, limit: usize)
    ensures
        hit_rows(final(hits)@) == at_most(hit_rows(old(hits)@), limit as int),
{
    let ghost all = hit_rows(hits@);
    if hits.len() > limit {
        hits.truncate(limit);
    }
    assert(hit_rows(hits@) =~= at_most(all, limit as int));
}

fn stamped(hits: &Vec<Hit>, ts: i64) -> (r: bool)
    ensures
        r == has_stamp(hit_rows(hits@), ts),
{
    let ghost all = hit_rows(hits@);
    let mut i: usize = 0;
    while i < hits.len()
        invariant
            i <= hits@.len(),
            all == hit_rows(hits@),
            forall|j: int| 0 <= j < i ==> (#[trigger] all[j]).ts != ts,
        decreases hits@.len() - i,
    {
        if hits[i].ts == ts {
            assert(all[i as int].ts == ts);
            return true;
        }
        i += 1;
    }
    false
}

/// Two lists of hits as one: newest first, no more than so many.
pub fn merge_hits(into: Vec<Hit>, extra: Vec<Hit>, limit: usize) -> (r: Vec<Hit>)
    ensures
        hit_rows(r@) == merged(hit_rows(into@), hit_rows(extra@), limit as int),
{
    let mut all = into;
    let ghost base = hit_rows(all@);
    let ghost given = extra@;
    let ghost rows = hit_rows(given);
    assert(rows.take(0) =~= Seq::<HitRow>::empty());
    for h in it: extra
        invariant
            it.seq() == given,
            rows == hit_rows(given),
            hit_rows(all@) == joined_hits(base, rows.take(it.index() as int)),
    {
        assert(rows.take(it.index() + 1).drop_last() =~= rows.take(it.index() as int));
        assert(rows.take(it.index() + 1).last() == rows[it.index() as int]);
        if !stamped(&all, h.ts) {
            let ghost was = hit_rows(all@);
            let ghost row = h@;
            all.push(h);
            assert(hit_rows(all@) =~= was.push(row));
        }
    }
    assert(rows.take(rows.len() as int) =~= rows);
    let mut sorted = sort_newest(all);
    cut(&mut sorted, limit);
    sorted
}

fn no_boxes() -> (r: Vec<WordBox>)
    ensures
        box_rows(r@) == Seq::<BoxRow>::empty(),
{
    let v: Vec<WordBox> = Vec::new();
    assert(box_rows(v@) =~= Seq::<BoxRow>::empty());
    v
}

impl Store {
    fn index_hit_of(&self, m: &Match) -> (r: Hit)
        ensures
            r@ == index_hit(self@, self.home(), m@),
    {
        match self.frames().latest(m.ts) {
            Some(f) => {
                let empty = text::byte_len(f.1.path.as_str()) == 0;
                proof {
                    crate::lookup::lemma_bytes_in(f.1.path@);
                }
                let path = if empty {
                    String::new()
                } else {
                    join_path(self.root(), f.1.path.as_str())
                };
                let h = Hit {
                    ts: f.0,
                    path,
                    app: f.1.app.clone(),
                    title: f.1.title.clone(),
                    snippet: m.snippet.clone(),
                    boxes: no_boxes(),
                };
                assert(h@ =~= index_hit(self@, self.home(), m@));
                h
            },
            None => {
                let row = match self.ocr().get(m.ts) {
                    Some(r) => r.clone(),
                    None => crate::lookup::blank(),
                };
                let h = Hit {
                    ts: m.ts,
                    path: String::new(),
                    app: row.app,
                    title: row.title,
                    snippet: m.snippet.clone(),
                    boxes: no_boxes(),
                };
                assert(h@ =~= index_hit(self@, self.home(), m@));
                h
            },
        }
    }

    fn search_fts(&self, found: &Vec<Match>, limit: usize, from: i64, to: i64) -> (r: Vec<Hit>)
        ensures
            hit_rows(r@) == at_most(
                index_hits(self@, self.home(), match_rows(found@), from, to),
                limit as int,
            ),
    {
        let ghost rows = match_rows(found@);
        let mut hits: Vec<Hit> = Vec::new();
        let mut i: usize = 0;
        assert(rows.take(0) =~= Seq::<(i64, Seq<char>)>::empty());
        assert(hit_rows(hits@) =~= Seq::<HitRow>::empty());
        while i < found.len()
            invariant
                i <= found@.len(),
                rows == match_rows(found@),
                hit_rows(hits@) == index_hits(self@, self.home(), rows.take(i as int), from, to),
            decreases found@.len() - i,
        {
            assert(rows.take(i + 1).drop_last() =~= rows.take(i as int));
            assert(rows.take(i + 1).last() == rows[i as int]);
            let h = self.index_hit_of(&found[i]);
            if spans(h.ts, from, to) {
                place(&mut hits, h);
            }
            i += 1;
        }
        assert(rows.take(i as int) =~= rows);
        cut(&mut hits, limit);
        hits
    }

    fn search_like(&self, q: &str, limit: usize, from: i64, to: i64) -> (r: Vec<Hit>)
        ensures
            hit_rows(r@) == at_most(
                frame_hits(self@, self.home(), self@.frames, q@, from, to),
                limit as int,
            ),
    {
        let whole = pattern(q);
        let p = until_nul(&whole);
        let frames = self.frames();
        let ghost all = frames@;
        let ghost want = frame_hits(self@, self.home(), all, q@, from, to);
        let mut hits: Vec<Hit> = Vec::new();
        let mut i: usize = frames.rows.len();
        assert(all.take(i as int) =~= all);
        assert(hit_rows(hits@) =~= Seq::<HitRow>::empty());
        assert(hit_rows(hits@) + want =~= want);
        while i > 0 && hits.len() < limit
            invariant
                i <= frames.rows@.len(),
                all == frames@,
                all == self@.frames,
                p@ == before_nul(pattern_of(q@)),
                want == frame_hits(self@, self.home(), all, q@, from, to),
                hits@.len() <= limit,
                want == hit_rows(hits@) + frame_hits(self@, self.home(), all.take(i as int), q@, from, to),
            decreases i,
        {
            proof {
                assert(all.take(i as int).drop_last() =~= all.take(i - 1));
                assert(all.take(i as int).last() == all[i - 1]);
            }
            let ts = frames.rows[i - 1].0;
            let f = &frames.rows[i - 1].1;
            let ghost rest = frame_hits(self@, self.home(), all.take(i - 1), q@, from, to);
            if spans(ts, from, to) {
                let clip = self.clip_at(ts);
                if is_match(f.title.as_str(), &p, Ghost(q@)) || is_match(f.app.as_str(), &p, Ghost(q@)) || is_match(
                    clip.as_str(),
                    &p,
                    Ghost(q@),
                ) {
                    let mut hay = f.title.clone();
                    hay.push(' ');
                    hay.append(clip.as_str());
                    let h = Hit {
                        ts,
                        path: join_path(self.root(), f.path.as_str()),
                        app: f.app.clone(),
                        title: f.title.clone(),
                        snippet: query::snippet_around(hay.as_str(), q),
                        boxes: no_boxes(),
                    };
                    let ghost row = frame_hit(self@, self.home(), f@, ts, q@);
                    assert(h@ =~= row);
                    let ghost was = hit_rows(hits@);
                    hits.push(h);
                    assert(hit_rows(hits@) =~= was.push(row));
                    assert(was + (seq![row] + rest) =~= was.push(row) + rest);
                }
            }
            i -= 1;
        }
        proof {
            if i == 0 {
                assert(all.take(0) =~= Seq::<(i64, FrameRow)>::empty());
                assert(hit_rows(hits@) + Seq::<HitRow>::empty() =~= hit_rows(hits@));
            }
            assert(hit_rows(hits@) =~= at_most(want, limit as int));
        }
        hits
    }

    fn search_clips(&self, q: &str, limit: usize, from: i64, to: i64) -> (r: Vec<Hit>)
        ensures
            hit_rows(r@) == at_most(clip_hits(self@, self.home(), self@.clips, q@, from, to), limit as int),
    {
        let whole = pattern(q);
        let p = until_nul(&whole);
        let clips = self.clip_rows();
        let ghost all = clips@;
        let ghost want = clip_hits(self@, self.home(), all, q@, from, to);
        let mut hits: Vec<Hit> = Vec::new();
        let mut i: usize = clips.rows.len();
        assert(all.take(i as int) =~= all);
        assert(hit_rows(hits@) =~= Seq::<HitRow>::empty());
        assert(hit_rows(hits@) + want =~= want);
        while i > 0 && hits.len() < limit
            invariant
                i <= clips.rows@.len(),
                all == clips@,
                all == self@.clips,
                p@ == before_nul(pattern_of(q@)),
                want == clip_hits(self@, self.home(), all, q@, from, to),
                hits@.len() <= limit,
                want == hit_rows(hits@) + clip_hits(self@, self.home(), all.take(i as int), q@, from, to),
            decreases i,
        {
            proof {
                assert(all.take(i as int).drop_last() =~= all.take(i - 1));
                assert(all.take(i as int).last() == all[i - 1]);
            }
            let ts = clips.rows[i - 1].0;
            let c = &clips.rows[i - 1].1;
            let ghost rest = clip_hits(self@, self.home(), all.take(i - 1), q@, from, to);
            if spans(ts, from, to) && is_match(c.content.as_str(), &p, Ghost(q@)) {
                let k = match self.nearest_frame_ts(ts) {
                    Some(k) => k,
                    None => ts,
                };
                let shown = query::snippet_around(c.content.as_str(), q);
                let h = match self.frames().get(k) {
                    Some(f) => Hit {
                        ts: k,
                        path: join_path(self.root(), f.path.as_str()),
                        app: f.app.clone(),
                        title: f.title.clone(),
                        snippet: shown,
                        boxes: no_boxes(),
                    },
                    None => Hit {
                        ts: k,
                        path: String::new(),
                        app: String::new(),
                        title: String::new(),
                        snippet: shown,
                        boxes: no_boxes(),
                    },
                };
                let ghost row = clip_hit(self@, self.home(), c@, ts, q@);
                assert(h@ =~= row);
                let ghost was = hit_rows(hits@);
                hits.push(h);
                assert(hit_rows(hits@) =~= was.push(row));
                assert(was + (seq![row] + rest) =~= was.push(row) + rest);
            }
            i -= 1;
        }
        proof {
            if i == 0 {
                assert(all.take(0) =~= Seq::<(i64, ClipRow)>::empty());
                assert(hit_rows(hits@) + Seq::<HitRow>::empty() =~= hit_rows(hits@));
            }
            assert(hit_rows(hits@) =~= at_most(want, limit as int));
        }
        hits
    }

    fn boxes_for(&self, ts: i64, q: &str) -> (r: Vec<WordBox>)
        ensures
            box_rows(r@) == boxes_of(self@.boxes, ts, q@),
    {
        let needle = text::to_lower(q);
        let boxes = self.boxes();
        let ghost all = boxes@;
        let mut out: Vec<WordBox> = Vec::new();
        let mut i: usize = 0;
        assert(all.take(0) =~= Seq::<(i64, BoxRow)>::empty());
        assert(box_rows(out@) =~= Seq::<BoxRow>::empty());
        while i < boxes.rows.len()
            invariant
                i <= boxes.rows@.len(),
                all == boxes@,
                needle@ == lower(q@),
                box_rows(out@) == boxes_of(all.take(i as int), ts, q@),
            decreases boxes.rows@.len() - i,
        {
            assert(all.take(i + 1).drop_last() =~= all.take(i as int));
            assert(all.take(i + 1).last() == all[i as int]);
            if boxes.rows[i].0 == ts {
                let b = &boxes.rows[i].1;
                let word = text::to_lower(b.word.as_str());
                if text::has(word.as_str(), needle.as_str()) || text::has(needle.as_str(), word.as_str()) {
                    let ghost was = box_rows(out@);
                    out.push(b.clone());
                    assert(box_rows(out@) =~= was.push(b@));
                }
            }
            i += 1;
        }
        assert(all.take(i as int) =~= all);
        out
    }

    fn any_frame(&self, from: i64, to: i64) -> (r: bool)
        ensures
            r == some_frame(self@.frames, from, to),
    {
        let frames = self.frames();
        let ghost all = frames@;
        let mut i: usize = 0;
        while i < frames.rows.len()
            invariant
                i <= frames.rows@.len(),
                all == frames@,
                all == self@.frames,
                forall|j: int| 0 <= j < i ==> !in_span((#[trigger] all[j]).0, from, to),
            decreases frames.rows@.len() - i,
        {
            if spans(frames.rows[i].0, from, to) {
                assert(in_span(all[i as int].0, from, to));
                return true;
            }
            i += 1;
        }
        false
    }

    /// Search. `found` are the rows of the full-text index that the query
    /// matches; without them, as where there is no such index, titles,
    /// applications and the clipboard are searched. Clipboard texts are found
    /// either way.
    pub fn search(
        &self,
        q: &str,
        limit: usize,
        from: i64,
        to: i64,
        found: &Option<Vec<Match>>,
        ocr_available: bool,
    ) -> (r: Result<SearchReply, String>)
        ensures
            ({
                let query = trim(q@);
                let rows = match *found {
                    Some(v) => Some(match_rows(v@)),
                    None => None,
                };
                if query.len() == 0 {
                    r matches Ok(reply) && reply.hits@.len() == 0 && !reply.ocr_available && reply.query@.len() == 0
                } else {
                    match search_hits(self@, self.home(), query, rows, limit as int, from, to) {
                        Some(hits) => r matches Ok(reply) && hit_rows(reply.hits@) == hits && reply.ocr_available
                            == ocr_available && reply.query@ == query,
                        None => r matches Err(m) && m@ == "LIKE or GLOB pattern too complex"@,
                    }
                }
            }),
    {
        let n: usize = if limit < 1 {
            1
        } else if limit > 200 {
            200
        } else {
            limit
        };
        let query = text::trimmed(q);
        proof {
            crate::lookup::lemma_bytes_in(query@);
        }
        if text::byte_len(query.as_str()) == 0 {
            return Ok(SearchReply { hits: Vec::new(), ocr_available: false, query: String::new() });
        }
        let whole = text::string_of(&pattern(query.as_str()));
        let long = text::byte_len(whole.as_str()) > 50_000;
        let hits = match found {
            Some(rows) => self.search_fts(rows, n, from, to),
            None => if long {
                if self.any_frame(from, to) {
                    return Err("LIKE or GLOB pattern too complex".to_string());
                }
                let none: Vec<Hit> = Vec::new();
                assert(hit_rows(none@) =~= Seq::<HitRow>::empty());
                none
            } else {
                self.search_like(query.as_str(), n, from, to)
            },
        };
        let extra = if long {
            let none: Vec<Hit> = Vec::new();
            assert(hit_rows(none@) =~= Seq::<HitRow>::empty());
            none
        } else {
            self.search_clips(query.as_str(), n, from, to)
        };
        let all = merge_hits(hits, extra, n);
        let ghost rows = hit_rows(all@);
        let ghost given = all@;
        let ghost want = boxed(self@, rows, query@);
        let mut out: Vec<Hit> = Vec::new();
        assert(hit_rows(out@) =~= want.take(0));
        for h in it: all
            invariant
                it.seq() == given,
                rows == hit_rows(given),
                want == boxed(self@, rows, query@),
                hit_rows(out@) == want.take(it.index() as int),
        {
            let ghost was = hit_rows(out@);
            let boxes = self.boxes_for(h.ts, query.as_str());
            let full = Hit { ts: h.ts, path: h.path, app: h.app, title: h.title, snippet: h.snippet, boxes };
            assert(rows[it.index() as int] == h@);
            assert(full@ =~= want[it.index() as int]);
            let ghost row = full@;
            out.push(full);
            assert(hit_rows(out@) =~= was.push(row));
            assert(hit_rows(out@) =~= want.take(it.index() + 1));
        }
        assert(want.take(want.len() as int) =~= want);
        Ok(SearchReply { hits: out, ocr_available, query })
    }
}

proof fn lemma_placed_sorted(hits: Seq<HitRow>, h: HitRow)
    requires
        forall|i: int, j: int| 0 <= i < j < hits.len() ==> (#[trigger] hits[i]).ts >= (#[trigger] hits[j]).ts,
    ensures
        forall|i: int, j: int|
            0 <= i < j < placed(hits, h).len() ==> (#[trigger] placed(hits, h)[i]).ts >= (#[trigger] placed(
                hits,
                h,
            )[j]).ts,
        placed(hits, h).len() == hits.len() + 1,
        forall|ts: i64| #[trigger] has_stamp(placed(hits, h), ts) <==> ts == h.ts || has_stamp(hits, ts),
    decreases hits.len(),
{
    let r = placed(hits, h);
    if hits.len() == 0 || hits.last().ts >= h.ts {
        assert forall|i: int, j: int| 0 <= i < j < r.len() implies (#[trigger] r[i]).ts >= (#[trigger] r[j]).ts by {
            if j == hits.len() {
                assert(hits[i].ts >= hits.last().ts);
            }
        }
        lemma_stamp_push(hits, h);
    } else {
        let f = hits.drop_last();
        let q = placed(f, h);
        lemma_placed_sorted(f, h);
        lemma_stamp_push(q, hits.last());
        lemma_stamp_push(f, hits.last());
        assert(f.push(hits.last()) =~= hits);
        assert forall|i: int, j: int| 0 <= i < j < r.len() implies (#[trigger] r[i]).ts >= (#[trigger] r[j]).ts by {
            if j == q.len() {
                assert(has_stamp(q, q[i].ts));
                if q[i].ts != h.ts {
                    let x = choose|x: int| 0 <= x < f.len() && (#[trigger] f[x]).ts == q[i].ts;
                    assert(hits[x].ts >= hits[hits.len() - 1].ts);
                }
            }
        }
    }
}

proof fn lemma_stamp_push(hits: Seq<HitRow>, h: HitRow)
    ensures
        forall|ts: i64| #[trigger] has_stamp(hits.push(h), ts) <==> ts == h.ts || has_stamp(hits, ts),
{
    let r = hits.push(h);
    assert forall|ts: i64| #[trigger] has_stamp(r, ts) <==> ts == h.ts || has_stamp(hits, ts) by {
        assert(r[hits.len() as int] == h);
        if has_stamp(hits, ts) {
            let i = choose|i: int| 0 <= i < hits.len() && (#[trigger] hits[i]).ts == ts;
            assert(r[i].ts == ts);
        }
        if has_stamp(r, ts) && ts != h.ts {
            let i = choose|i: int| 0 <= i < r.len() && (#[trigger] r[i]).ts == ts;
            assert(hits[i].ts == ts);
        }
    }
}

proof fn lemma_newest_first(hits: Seq<HitRow>)
    ensures
        forall|i: int, j: int|
            0 <= i < j < newest_first(hits).len() ==> (#[trigger] newest_first(hits)[i]).ts >= (
            #[trigger] newest_first(hits)[j]).ts,
        newest_first(hits).len() == hits.len(),
        forall|ts: i64| #[trigger] has_stamp(newest_first(hits), ts) <==> has_stamp(hits, ts),
    decreases hits.len(),
{
    if hits.len() > 0 {
        let f = hits.drop_last();
        lemma_newest_first(f);
        lemma_placed_sorted(newest_first(f), hits.last());
        lemma_stamp_push(f, hits.last());
        assert(f.push(hits.last()) =~= hits);
    }
}

/// The hits of two lists as one stand newest first, are no more than asked for,
/// and have stamps of the two lists only; where no more were found than asked
/// for, no stamp of theirs is missing.
pub proof fn law_hits_are_newest_first(into: Seq<HitRow>, extra: Seq<HitRow>, limit: int)
    requires
        limit >= 0,
    ensures
        ({
            let r = merged(into, extra, limit);
            &&& r.len() <= limit
            &&& forall|i: int, j: int| 0 <= i < j < r.len() ==> (#[trigger] r[i]).ts >= (#[trigger] r[j]).ts
            &&& forall|ts: i64| #[trigger] has_stamp(r, ts) ==> has_stamp(into, ts) || has_stamp(extra, ts)
            &&& into.len() + extra.len() <= limit ==> forall|ts: i64|
                has_stamp(into, ts) || has_stamp(extra, ts) ==> #[trigger] has_stamp(r, ts)
        }),
{
    let all = joined_hits(into, extra);
    lemma_joined(into, extra);
    lemma_newest_first(all);
    let s = newest_first(all);
    let r = merged(into, extra, limit);
    assert forall|ts: i64| #[trigger] has_stamp(r, ts) implies has_stamp(into, ts) || has_stamp(extra, ts) by {
        let i = choose|i: int| 0 <= i < r.len() && (#[trigger] r[i]).ts == ts;
        assert(s[i].ts == ts);
        assert(has_stamp(s, ts));
        assert(has_stamp(all, ts));
    }
    if into.len() + extra.len() <= limit {
        assert(r == s);
        assert forall|ts: i64| has_stamp(into, ts) || has_stamp(extra, ts) implies #[trigger] has_stamp(r, ts) by {
            assert(has_stamp(all, ts));
        }
    }
}

proof fn lemma_joined(into: Seq<HitRow>, extra: Seq<HitRow>)
    ensures
        forall|ts: i64|
            #[trigger] has_stamp(joined_hits(into, extra), ts) <==> has_stamp(into, ts) || has_stamp(extra, ts),
        joined_hits(into, extra).len() <= into.len() + extra.len(),
    decreases extra.len(),
{
    if extra.len() > 0 {
        let d = extra.drop_last();
        lemma_joined(into, d);
        lemma_stamp_push(joined_hits(into, d), extra.last());
        lemma_stamp_push(d, extra.last());
        assert(d.push(extra.last()) =~= extra);
    }
}

proof fn lemma_like_prefix(q: Seq<char>, s: Seq<char>)
    requires
        q.len() <= s.len(),
        s.take(q.len() as int) == q,
    ensures
        like(q + seq!['%'], s),
    decreases q.len(),
{
    let p = q + seq!['%'];
    if q.len() == 0 {
        assert(p =~= seq!['%']);
        lemma_like_rest(s);
    } else {
        assert(p[0] == q[0]);
        assert(s[0] == s.take(q.len() as int)[0]);
        assert(p.skip(1) =~= q.skip(1) + seq!['%']);
        assert(s.skip(1).take(q.skip(1).len() as int) =~= s.take(q.len() as int).skip(1));
        lemma_like_prefix(q.skip(1), s.skip(1));
        if q[0] == '%' {
            assert(like(p.skip(1), s.skip(1)));
            assert(like(p, s.skip(1)));
        }
    }
}

proof fn lemma_like_rest(s: Seq<char>)
    ensures
        like(seq!['%'], s),
    decreases s.len(),
{
    let p = seq!['%'];
    assert(p.skip(1) =~= Seq::<char>::empty());
    if s.len() > 0 {
        lemma_like_rest(s.skip(1));
    } else {
        assert(like(p.skip(1), s));
    }
}

proof fn lemma_like_within(q: Seq<char>, s: Seq<char>, i: int)
    requires
        text::occurs_at(s, q, i),
    ensures
        like(seq!['%'] + q + seq!['%'], s),
    decreases i,
{
    let p = seq!['%'] + q + seq!['%'];
    assert(p.skip(1) =~= q + seq!['%']);
    if i == 0 {
        assert(s.take(q.len() as int) =~= s.subrange(0, q.len() as int));
        lemma_like_prefix(q, s);
    } else {
        assert(s.skip(1).subrange(i - 1, i - 1 + q.len()) =~= s.subrange(i, i + q.len()));
        lemma_like_within(q, s.skip(1), i - 1);
    }
}

proof fn lemma_no_nul(s: Seq<char>)
    requires
        !s.contains('\0'),
    ensures
        before_nul(s) == s,
    decreases s.len(),
{
    if s.len() > 0 {
        assert(s[0] != '\0');
        assert(!s.skip(1).contains('\0')) by {
            if s.skip(1).contains('\0') {
                let rest = s.skip(1);
                let i = choose|i: int| 0 <= i < rest.len() && rest[i] == '\0';
                assert(s[i + 1] == '\0');
            }
        }
        lemma_no_nul(s.skip(1));
        assert(seq![s[0]] + s.skip(1) =~= s);
    } else {
        assert(before_nul(s) =~= s);
    }
}

/// A query matches every text that it stands in, whatever the case of its
/// letters.
pub proof fn law_query_matches_where_it_stands(s: Seq<char>, q: Seq<char>)
    requires
        occurs(lower(s), lower(q)),
        !lower(s).contains('\0'),
        !lower(q).contains('\0'),
    ensures
        matches_text(s, q),
{
    let p = pattern_of(q);
    let l = lower(q);
    assert(!p.contains('\0')) by {
        if p.contains('\0') {
            let i = choose|i: int| 0 <= i < p.len() && p[i] == '\0';
            assert(l[i - 1] == '\0');
        }
    }
    lemma_no_nul(p);
    lemma_no_nul(lower(s));
    let i = choose|i: int| text::occurs_at(lower(s), l, i);
    lemma_like_within(l, lower(s), i);
}

proof fn lemma_clip_hit(t: Tables, root: Seq<char>, clips: Seq<(i64, ClipRow)>, q: Seq<char>, k: i64)
    requires
        row_at(clips, k) matches Some(c) && matches_text(c.content, q),
    ensures
        has_stamp(clip_hits(t, root, clips, q, 0, 0), filed_under(t, k)),
        clip_hits(t, root, clips, q, 0, 0).len() <= clips.len(),
    decreases clips.len(),
{
    let r = clip_hits(t, root, clips, q, 0, 0);
    let d = clips.drop_last();
    let older = clip_hits(t, root, d, q, 0, 0);
    lemma_clip_hit_count(t, root, d, q);
    if clips.last().0 == k {
        assert(r[0].ts == filed_under(t, k));
    } else {
        lemma_clip_hit(t, root, d, q, k);
        let i = choose|i: int| 0 <= i < older.len() && (#[trigger] older[i]).ts == filed_under(t, k);
        if r.len() > older.len() {
            assert(r[i + 1] == older[i]);
        } else {
            assert(r[i] == older[i]);
        }
    }
}

proof fn lemma_clip_hit_count(t: Tables, root: Seq<char>, clips: Seq<(i64, ClipRow)>, q: Seq<char>)
    ensures
        clip_hits(t, root, clips, q, 0, 0).len() <= clips.len(),
    decreases clips.len(),
{
    if clips.len() > 0 {
        lemma_clip_hit_count(t, root, clips.drop_last(), q);
    }
}

proof fn lemma_index_hit_count(t: Tables, root: Seq<char>, found: Seq<(i64, Seq<char>)>)
    ensures
        index_hits(t, root, found, 0, 0).len() <= found.len(),
    decreases found.len(),
{
    if found.len() > 0 {
        lemma_index_hit_count(t, root, found.drop_last());
        lemma_placed_count(index_hits(t, root, found.drop_last(), 0, 0), index_hit(t, root, found.last()));
    }
}

proof fn lemma_placed_count(hits: Seq<HitRow>, h: HitRow)
    ensures
        placed(hits, h).len() == hits.len() + 1,
    decreases hits.len(),
{
    if hits.len() > 0 && hits.last().ts < h.ts {
        lemma_placed_count(hits.drop_last(), h);
    }
}

/// A search finds what was copied: the frame that a matching clipboard text
/// belongs to is among its hits, whatever the full-text index found, as long as
/// there are no more candidates than hits are asked for.
pub proof fn law_copied_text_is_found(
    t: Tables,
    root: Seq<char>,
    q: Seq<char>,
    found: Seq<(i64, Seq<char>)>,
    limit: int,
    k: i64,
)
    requires
        row_at(t.clips, k) matches Some(c) && matches_text(c.content, q),
        !too_long(q),
        found.len() + t.clips.len() <= search_limit(limit),
    ensures
        search_hits(t, root, q, Some(found), limit, 0, 0) matches Some(hits) && has_stamp(hits, filed_under(t, k)),
{
    let n = search_limit(limit);
    lemma_clip_hit(t, root, t.clips, q, k);
    lemma_index_hit_count(t, root, found);
    let a = at_most(index_hits(t, root, found, 0, 0), n);
    let b = second_hits(t, root, q, n, 0, 0);
    law_hits_are_newest_first(a, b, n);
    let m = merged(a, b, n);
    assert(has_stamp(m, filed_under(t, k)));
    let i = choose|i: int| 0 <= i < m.len() && (#[trigger] m[i]).ts == filed_under(t, k);
    assert(boxed(t, m, q)[i].ts == filed_under(t, k));
}

proof fn lemma_frame_hit(t: Tables, root: Seq<char>, frames: Seq<(i64, FrameRow)>, q: Seq<char>, k: i64)
    requires
        row_at(frames, k) matches Some(f) && frame_matches(t, f, k, q),
    ensures
        has_stamp(frame_hits(t, root, frames, q, 0, 0), k),
    decreases frames.len(),
{
    let r = frame_hits(t, root, frames, q, 0, 0);
    let d = frames.drop_last();
    let older = frame_hits(t, root, d, q, 0, 0);
    if frames.last().0 == k {
        assert(r[0].ts == k);
    } else {
        lemma_frame_hit(t, root, d, q, k);
        let i = choose|i: int| 0 <= i < older.len() && (#[trigger] older[i]).ts == k;
        if r.len() > older.len() {
            assert(r[i + 1] == older[i]);
        } else {
            assert(r[i] == older[i]);
        }
    }
}

proof fn lemma_frame_hit_count(t: Tables, root: Seq<char>, frames: Seq<(i64, FrameRow)>, q: Seq<char>)
    ensures
        frame_hits(t, root, frames, q, 0, 0).len() <= frames.len(),
    decreases frames.len(),
{
    if frames.len() > 0 {
        lemma_frame_hit_count(t, root, frames.drop_last(), q);
    }
}

/// Without a full-text index a search finds every frame by its title, by its
/// application and by the clipboard text of its time, as long as there are no
/// more candidates than hits are asked for.
pub proof fn law_frames_are_found_without_an_index(
    t: Tables,
    root: Seq<char>,
    q: Seq<char>,
    limit: int,
    k: i64,
)
    requires
        row_at(t.frames, k) matches Some(f) && frame_matches(t, f, k, q),
        !too_long(q),
        t.frames.len() + t.clips.len() <= search_limit(limit),
    ensures
        search_hits(t, root, q, None, limit, 0, 0) matches Some(hits) && has_stamp(hits, k),
{
    let n = search_limit(limit);
    lemma_frame_hit(t, root, t.frames, q, k);
    lemma_frame_hit_count(t, root, t.frames, q);
    lemma_clip_hit_count(t, root, t.clips, q);
    let a = at_most(frame_hits(t, root, t.frames, q, 0, 0), n);
    let b = second_hits(t, root, q, n, 0, 0);
    law_hits_are_newest_first(a, b, n);
    let m = merged(a, b, n);
    assert(has_stamp(m, k));
    let i = choose|i: int| 0 <= i < m.len() && (#[trigger] m[i]).ts == k;
    assert(boxed(t, m, q)[i].ts == k);
}

/// Where a frame matches, a search without a full-text index finds something.
proof fn lemma_some_hit(t: Tables, root: Seq<char>, q: Seq<char>, limit: int, k: i64)
    requires
        row_at(t.frames, k) matches Some(f) && frame_matches(t, f, k, q),
        !too_long(q),
    ensures
        search_hits(t, root, q, None, limit, 0, 0) matches Some(hits) && hits.len() > 0,
{
    let n = search_limit(limit);
    lemma_frame_hit(t, root, t.frames, q, k);
    let a = at_most(frame_hits(t, root, t.frames, q, 0, 0), n);
    let b = second_hits(t, root, q, n, 0, 0);
    lemma_joined(a, b);
    lemma_newest_first(joined_hits(a, b));
    assert(has_stamp(a, a[0].ts));
    let m = newest_first(joined_hits(a, b));
    assert(has_stamp(joined_hits(a, b), a[0].ts));
    assert(has_stamp(m, a[0].ts));
}

proof fn lemma_plain(s: Seq<char>)
    requires
        forall|i: int| 0 <= i < s.len() ==> ' ' <= #[trigger] s[i] && s[i] <= '~' && !('A' <= s[i] && s[i] <= 'Z'),
        s.len() <= 40,
    ensures
        lower(s) == s,
        !lower(s).contains('\0'),
        !too_long(s),
{
    assert(lower(s) =~= s);
    lemma_short(pattern_of(s));
}

proof fn lemma_short(s: Seq<char>)
    ensures
        bytes_in(s) <= 4 * s.len(),
    decreases s.len(),
{
    if s.len() > 0 {
        lemma_short(s.drop_last());
        text::lemma_bytes_push(s.drop_last(), s.last());
        assert(s.drop_last().push(s.last()) =~= s);
    } else {
        assert(s =~= Seq::empty());
    }
}

/// The frame that a search is tried on.
pub open spec fn trial_frame() -> FrameRow {
    FrameRow {
        ts: 1_700_000_000_000,
        path: "frames/t.png"@,
        app: "kitty"@,
        title: "demo phrase unique-xyz"@,
        workspace: "1"@,
        output: "eDP-1"@,
        width: 1280,
        height: 720,
        out_w: 1920,
        out_h: 1080,
        crop_x: 0,
        crop_y: 0,
        crop_w: 800,
        crop_h: 600,
        bytes: 40_000,
        dhash: 1,
        encoder: "png"@,
        crop_path: None,
        crop_bytes: 0,
    }
}

/// An archive that a search was tried on: the frame, and what was copied then.
pub open spec fn tried_on(t: Tables) -> Tables {
    let f = trial_frame();
    t.with_frame(f).with_clip(f.ts, clip_row("text/plain"@, "abc123deadbeef"@)).indexed_with(
        f.ts,
        TextRow { text: ""@, app: f.app, title: f.title, clip: "abc123deadbeef"@ },
    )
}

impl Store {
    /// A frame is found by its title, and by what was copied then. Both stay in
    /// the archive.
    pub fn self_test(&mut self) -> (r: Result<(), String>)
        requires
            old(self).wf(),
        ensures
            changed(*old(self), *final(self), tried_on(old(self)@), r, no_capture()),
    {
        let f = FrameInsert {
            ts: 1_700_000_000_000,
            path: "frames/t.png".to_string(),
            app: "kitty".to_string(),
            title: "demo phrase unique-xyz".to_string(),
            workspace: "1".to_string(),
            output: "eDP-1".to_string(),
            width: 1280,
            height: 720,
            out_w: 1920,
            out_h: 1080,
            crop_x: 0,
            crop_y: 0,
            crop_w: 800,
            crop_h: 600,
            bytes: 40_000,
            dhash: 1,
            encoder: "png".to_string(),
            crop_path: None,
            crop_bytes: 0,
        };
        assert(f@ =~= trial_frame());
        let copied = "abc123deadbeef";
        let ghost was = self@;
        if let Err(e) = self.insert_frame(&f) {
            return Err(e);
        }
        if let Err(e) = self.insert_clip(f.ts, "text/plain", copied) {
            return Err(e);
        }
        if let Err(e) = self.index_search_row(f.ts, "", f.app.as_str(), f.title.as_str(), copied) {
            return Err(e);
        }
        proof {
            self.lemma_found(was);
        }
        match self.search("unique-xyz", 10, 0, 0, &None, false) {
            Ok(found) => {
                assert(hit_rows(found.hits@).len() == found.hits@.len());
                if found.hits.len() == 0 {
                    return Err("title search missed".to_string());
                }
            },
            Err(e) => {
                return Err(e);
            },
        }
        match self.search(copied, 10, 0, 0, &None, false) {
            Ok(found) => {
                assert(hit_rows(found.hits@).len() == found.hits@.len());
                if found.hits.len() == 0 {
                    return Err("clipboard search missed".to_string());
                }
            },
            Err(e) => {
                return Err(e);
            },
        }
        Ok(())
    }

    proof fn lemma_found(self, was: Tables)
        requires
            was.wf(),
            self@ == tried_on(was),
        ensures
            trim("unique-xyz"@) == "unique-xyz"@,
            trim("abc123deadbeef"@) == "abc123deadbeef"@,
            "unique-xyz"@.len() > 0,
            "abc123deadbeef"@.len() > 0,
            search_hits(self@, self.home(), "unique-xyz"@, None, 10, 0, 0) matches Some(hits) && hits.len() > 0,
            search_hits(self@, self.home(), "abc123deadbeef"@, None, 10, 0, 0) matches Some(hits) && hits.len() > 0,
    {
        let f = trial_frame();
        let title = "demo phrase unique-xyz"@;
        let a = "unique-xyz"@;
        let b = "abc123deadbeef"@;
        reveal_strlit("demo phrase unique-xyz");
        reveal_strlit("unique-xyz");
        reveal_strlit("abc123deadbeef");
        let c = clip_row("text/plain"@, b);
        crate::table::lemma_put(was.frames, f.ts, f);
        crate::table::lemma_put(was.clips, f.ts, c);
        crate::table::lemma_latest(self@.clips, f.ts);
        assert(crate::table::has_key(self@.clips, f.ts));
        lemma_plain(title);
        lemma_plain(a);
        lemma_plain(b);
        assert(title.subrange(12, 22) =~= a);
        assert(text::occurs_at(lower(title), lower(a), 12));
        law_query_matches_where_it_stands(title, a);
        assert(b.subrange(0, 14) =~= b);
        assert(text::occurs_at(lower(b), lower(b), 0));
        law_query_matches_where_it_stands(b, b);
        lemma_some_hit(self@, self.home(), a, 10, f.ts);
        lemma_some_hit(self@, self.home(), b, 10, f.ts);
    }
}

/// A query stands in a text, whatever the case of the letters of both, and there
/// is no NUL in either.
pub open spec fn stands_in(q: Seq<char>, s: Seq<char>) -> bool {
    occurs(lower(s), lower(q)) && !lower(s).contains('\0') && !lower(q).contains('\0')
}

proof fn lemma_pattern_bytes(q: Seq<char>)
    ensures
        bytes_in(pattern_of(q)) == bytes_in(q) + 2,
{
    lemma_percent_bytes(q);
    text::lemma_bytes_push(seq!['%'] + lower(q), '%');
    assert((seq!['%'] + lower(q)).push('%') =~= pattern_of(q));
}

proof fn lemma_percent_bytes(q: Seq<char>)
    ensures
        bytes_in(seq!['%'] + lower(q)) == bytes_in(q) + 1,
    decreases q.len(),
{
    let none = Seq::<char>::empty();
    if q.len() == 0 {
        assert(q =~= none);
        assert(bytes_in(none) == 0);
        text::lemma_bytes_push(none, '%');
        assert(seq!['%'] + lower(q) =~= none.push('%'));
    } else {
        let d = q.drop_last();
        lemma_percent_bytes(d);
        text::lemma_bytes_push(d, q.last());
        assert(d.push(q.last()) =~= q);
        text::lemma_bytes_push(seq!['%'] + lower(d), text::lower_char(q.last()));
        assert((seq!['%'] + lower(d)).push(text::lower_char(q.last())) =~= seq!['%'] + lower(q));
    }
}

proof fn lemma_placed_holds(hits: Seq<HitRow>, h: HitRow, x: HitRow)
    requires
        x == h || hits.contains(x),
    ensures
        placed(hits, h).contains(x),
    decreases hits.len(),
{
    let r = placed(hits, h);
    if hits.len() == 0 || hits.last().ts >= h.ts {
        assert(r[hits.len() as int] == h);
        if x != h {
            let i = choose|i: int| 0 <= i < hits.len() && hits[i] == x;
            assert(r[i] == x);
        }
    } else {
        let d = placed(hits.drop_last(), h);
        assert(r[d.len() as int] == hits.last());
        if x == h || hits.drop_last().contains(x) {
            lemma_placed_holds(hits.drop_last(), h, x);
            let i = choose|i: int| 0 <= i < d.len() && d[i] == x;
            assert(r[i] == x);
        } else {
            let i = choose|i: int| 0 <= i < hits.len() && hits[i] == x;
            assert(i == hits.len() - 1 || hits.drop_last()[i] == x);
        }
    }
}

proof fn lemma_newest_holds(hits: Seq<HitRow>, x: HitRow)
    requires
        hits.contains(x),
    ensures
        newest_first(hits).contains(x),
    decreases hits.len(),
{
    let d = hits.drop_last();
    let i = choose|i: int| 0 <= i < hits.len() && hits[i] == x;
    if i < d.len() {
        assert(d[i] == x);
        lemma_newest_holds(d, x);
    }
    lemma_placed_holds(newest_first(d), hits.last(), x);
}

proof fn lemma_joined_holds(into: Seq<HitRow>, extra: Seq<HitRow>, x: HitRow)
    requires
        into.contains(x),
    ensures
        joined_hits(into, extra).contains(x),
    decreases extra.len(),
{
    if extra.len() > 0 {
        let front = joined_hits(into, extra.drop_last());
        lemma_joined_holds(into, extra.drop_last(), x);
        let i = choose|i: int| 0 <= i < front.len() && front[i] == x;
        assert(front.push(extra.last())[i] == x);
    }
}

proof fn lemma_frame_hit_there(
    t: Tables,
    root: Seq<char>,
    frames: Seq<(i64, FrameRow)>,
    q: Seq<char>,
    from: i64,
    to: i64,
    i: int,
)
    requires
        0 <= i < frames.len(),
        in_span(frames[i].0, from, to),
        frame_matches(t, frames[i].1, frames[i].0, q),
    ensures
        frame_hits(t, root, frames, q, from, to).contains(frame_hit(t, root, frames[i].1, frames[i].0, q)),
    decreases frames.len(),
{
    let r = frame_hits(t, root, frames, q, from, to);
    let d = frames.drop_last();
    let older = frame_hits(t, root, d, q, from, to);
    let x = frame_hit(t, root, frames[i].1, frames[i].0, q);
    if i == d.len() {
        assert(r[0] == x);
    } else {
        lemma_frame_hit_there(t, root, d, q, from, to, i);
        let j = choose|j: int| 0 <= j < older.len() && older[j] == x;
        if r.len() > older.len() {
            assert(r[j + 1] == older[j]);
        } else {
            assert(r[j] == older[j]);
        }
    }
}

proof fn lemma_hit_counts(
    t: Tables,
    root: Seq<char>,
    frames: Seq<(i64, FrameRow)>,
    clips: Seq<(i64, ClipRow)>,
    q: Seq<char>,
    from: i64,
    to: i64,
)
    ensures
        frame_hits(t, root, frames, q, from, to).len() <= frames.len(),
        clip_hits(t, root, clips, q, from, to).len() <= clips.len(),
    decreases frames.len() + clips.len(),
{
    if frames.len() > 0 {
        lemma_hit_counts(t, root, frames.drop_last(), clips, q, from, to);
    }
    if clips.len() > 0 {
        lemma_hit_counts(t, root, frames, clips.drop_last(), q, from, to);
    }
}

/// Without a full-text index a search finds every frame of its span whose title
/// the query stands in, every one whose application it stands in, and every one
/// where it stands in the last text that was copied until then, as long as there
/// are no more candidates than hits are asked for.
pub proof fn law_titles_applications_and_copies_are_searched(
    t: Tables,
    root: Seq<char>,
    q: Seq<char>,
    limit: int,
    from: i64,
    to: i64,
    i: int,
)
    requires
        t.wf(),
        0 <= i < t.frames.len(),
        bytes_in(q) < 49_999,
        t.frames.len() + t.clips.len() <= limit <= 200,
        from == 0 || from <= t.frames[i].0,
        to == 0 || t.frames[i].0 <= to,
        ({
            ||| stands_in(q, t.frames[i].1.title)
            ||| stands_in(q, t.frames[i].1.app)
            ||| exists|j: int|
                0 <= j < t.clips.len() && (#[trigger] t.clips[j]).0 <= t.frames[i].0 && (j + 1 < t.clips.len()
                    ==> t.clips[j + 1].0 > t.frames[i].0) && stands_in(q, t.clips[j].1.content)
        }),
    ensures
        search_hits(t, root, q, None, limit, from, to) matches Some(hits) && exists|h: int|
            0 <= h < hits.len() && (#[trigger] hits[h]).ts == t.frames[i].0 && hits[h].title == t.frames[i].1.title
                && hits[h].app == t.frames[i].1.app && hits[h].path == joined_path(root, t.frames[i].1.path),
{
    let k = t.frames[i].0;
    let f = t.frames[i].1;
    lemma_pattern_bytes(q);
    if stands_in(q, f.title) {
        law_query_matches_where_it_stands(f.title, q);
    } else if stands_in(q, f.app) {
        law_query_matches_where_it_stands(f.app, q);
    } else {
        let j = choose|j: int|
            0 <= j < t.clips.len() && (#[trigger] t.clips[j]).0 <= k && (j + 1 < t.clips.len() ==> t.clips[j + 1].0
                > k) && stands_in(q, t.clips[j].1.content);
        law_query_matches_where_it_stands(t.clips[j].1.content, q);
        lemma_latest_at(t.clips, k, j);
    }
    lemma_frame_hit_there(t, root, t.frames, q, from, to, i);
    lemma_hit_counts(t, root, t.frames, t.clips, q, from, to);
    let x = frame_hit(t, root, f, k, q);
    let a = frame_hits(t, root, t.frames, q, from, to);
    let b = clip_hits(t, root, t.clips, q, from, to);
    lemma_joined(a, b);
    lemma_joined_holds(a, b, x);
    lemma_newest_holds(joined_hits(a, b), x);
    lemma_newest_count(joined_hits(a, b));
    let m = newest_first(joined_hits(a, b));
    let h = choose|h: int| 0 <= h < m.len() && m[h] == x;
    assert(search_limit(limit) == limit);
    assert(!too_long(q));
    assert(first_hits(t, root, q, None, limit, from, to) == Some(a));
    assert(second_hits(t, root, q, limit, from, to) == b);
    assert(merged(a, b, limit) == m);
    let hits = boxed(t, m, q);
    let r = search_hits(t, root, q, None, limit, from, to);
    assert(r == Some(hits));
    let all = r.unwrap();
    assert(all[h].ts == k && all[h].title == f.title && all[h].app == f.app);
    assert(all[h].path == joined_path(root, f.path));
}

proof fn lemma_newest_count(hits: Seq<HitRow>)
    ensures
        newest_first(hits).len() == hits.len(),
    decreases hits.len(),
{
    if hits.len() > 0 {
        lemma_newest_count(hits.drop_last());
        lemma_placed_count(newest_first(hits.drop_last()), hits.last());
    }
}

proof fn lemma_latest_at<V>(s: Seq<(i64, V)>, k: i64, j: int)
    requires
        crate::table::sorted(s),
        0 <= j < s.len(),
        s[j].0 <= k,
        j + 1 < s.len() ==> s[j + 1].0 > k,
    ensures
        latest(s, k) == Some(s[j]),
    decreases s.len(),
{
    if j < s.len() - 1 {
        let d = s.drop_last();
        assert(s.last().0 > k);
        if j + 1 < d.len() {
            assert(d[j + 1] == s[j + 1]);
        }
        lemma_latest_at(d, k, j);
    }
}

/// A query matches only texts that it stands in, whatever the case of its
/// letters, where none of its characters stands for others.
pub proof fn law_a_plain_query_matches_only_where_it_stands(s: Seq<char>, q: Seq<char>)
    requires
        matches_text(s, q),
        !lower(s).contains('\0'),
        !lower(q).contains('\0'),
        !lower(q).contains('%'),
        !lower(q).contains('_'),
    ensures
        occurs(lower(s), lower(q)),
{
    let p = pattern_of(q);
    let l = lower(q);
    assert(!p.contains('\0')) by {
        if p.contains('\0') {
            let i = choose|i: int| 0 <= i < p.len() && p[i] == '\0';
            assert(l[i - 1] == '\0');
        }
    }
    lemma_no_nul(p);
    lemma_no_nul(lower(s));
    lemma_plain_within(l, lower(s));
}

proof fn lemma_plain_within(q: Seq<char>, s: Seq<char>)
    requires
        like(seq!['%'] + q + seq!['%'], s),
        !q.contains('%'),
        !q.contains('_'),
    ensures
        occurs(s, q),
    decreases s.len(),
{
    let p = seq!['%'] + q + seq!['%'];
    assert(p.skip(1) =~= q + seq!['%']);
    if like(p.skip(1), s) {
        lemma_plain_first(q, s);
        assert(s.subrange(0, q.len() as int) =~= s.take(q.len() as int));
        assert(text::occurs_at(s, q, 0));
    } else {
        lemma_plain_within(q, s.skip(1));
        let i = choose|i: int| text::occurs_at(s.skip(1), q, i);
        assert(s.subrange(i + 1, i + 1 + q.len()) =~= s.skip(1).subrange(i, i + q.len()));
        assert(text::occurs_at(s, q, i + 1));
    }
}

proof fn lemma_plain_first(q: Seq<char>, s: Seq<char>)
    requires
        like(q + seq!['%'], s),
        !q.contains('%'),
        !q.contains('_'),
    ensures
        q.len() <= s.len(),
        s.take(q.len() as int) == q,
    decreases q.len(),
{
    if q.len() == 0 {
        assert(s.take(0) =~= q);
    } else {
        let p = q + seq!['%'];
        assert(p[0] == q[0]);
        assert(q.contains(q[0]));
        let r = q.skip(1);
        assert(!r.contains('%') && !r.contains('_')) by {
            if r.contains('%') {
                let i = choose|i: int| 0 <= i < r.len() && r[i] == '%';
                assert(q[i + 1] == '%');
            }
            if r.contains('_') {
                let i = choose|i: int| 0 <= i < r.len() && r[i] == '_';
                assert(q[i + 1] == '_');
            }
        }
        assert(p.skip(1) =~= r + seq!['%']);
        lemma_plain_first(r, s.skip(1));
        assert(s.take(q.len() as int) =~= seq![s[0]] + s.skip(1).take(r.len() as int));
        assert(seq![q[0]] + r =~= q);
    }
}

proof fn lemma_placed_from(hits: Seq<HitRow>, h: HitRow, i: int)
    requires
        0 <= i < placed(hits, h).len(),
    ensures
        placed(hits, h)[i] == h || hits.contains(placed(hits, h)[i]),
    decreases hits.len(),
{
    let r = placed(hits, h);
    if hits.len() == 0 || hits.last().ts >= h.ts {
        if i < hits.len() {
            assert(hits[i] == r[i]);
        }
    } else {
        let d = placed(hits.drop_last(), h);
        if i < d.len() {
            lemma_placed_from(hits.drop_last(), h, i);
            if r[i] != h {
                let j = choose|j: int| 0 <= j < hits.drop_last().len() && hits.drop_last()[j] == r[i];
                assert(hits[j] == r[i]);
            }
        } else {
            assert(hits[hits.len() - 1] == r[i]);
        }
    }
}

proof fn lemma_newest_from(hits: Seq<HitRow>, i: int)
    requires
        0 <= i < newest_first(hits).len(),
    ensures
        hits.contains(newest_first(hits)[i]),
    decreases hits.len(),
{
    if hits.len() > 0 {
        let d = hits.drop_last();
        let front = newest_first(d);
        let x = newest_first(hits)[i];
        lemma_placed_from(front, hits.last(), i);
        if x == hits.last() {
            assert(hits[hits.len() - 1] == x);
        } else {
            let j = choose|j: int| 0 <= j < front.len() && front[j] == x;
            lemma_newest_from(d, j);
            let k = choose|k: int| 0 <= k < d.len() && d[k] == x;
            assert(hits[k] == x);
        }
    }
}

proof fn lemma_joined_from(into: Seq<HitRow>, extra: Seq<HitRow>, i: int)
    requires
        0 <= i < joined_hits(into, extra).len(),
    ensures
        into.contains(joined_hits(into, extra)[i]) || extra.contains(joined_hits(into, extra)[i]),
    decreases extra.len(),
{
    let r = joined_hits(into, extra);
    if extra.len() == 0 {
        assert(into[i] == r[i]);
    } else {
        let d = extra.drop_last();
        let front = joined_hits(into, d);
        if i < front.len() {
            lemma_joined_from(into, d, i);
            if d.contains(r[i]) {
                let j = choose|j: int| 0 <= j < d.len() && d[j] == r[i];
                assert(extra[j] == r[i]);
            }
        } else {
            assert(extra[extra.len() - 1] == r[i]);
        }
    }
}

proof fn lemma_merged_from(into: Seq<HitRow>, extra: Seq<HitRow>, limit: int, i: int)
    requires
        limit >= 0,
        0 <= i < merged(into, extra, limit).len(),
    ensures
        into.contains(merged(into, extra, limit)[i]) || extra.contains(merged(into, extra, limit)[i]),
{
    let j = joined_hits(into, extra);
    lemma_newest_from(j, i);
    let k = choose|k: int| 0 <= k < j.len() && j[k] == newest_first(j)[i];
    lemma_joined_from(into, extra, k);
}

proof fn lemma_frame_hit_from(
    t: Tables,
    root: Seq<char>,
    frames: Seq<(i64, FrameRow)>,
    q: Seq<char>,
    from: i64,
    to: i64,
    h: int,
) -> (i: int)
    requires
        0 <= h < frame_hits(t, root, frames, q, from, to).len(),
    ensures
        0 <= i < frames.len(),
        in_span(frames[i].0, from, to),
        frame_matches(t, frames[i].1, frames[i].0, q),
        frame_hits(t, root, frames, q, from, to)[h] == frame_hit(t, root, frames[i].1, frames[i].0, q),
    decreases frames.len(),
{
    let d = frames.drop_last();
    let last = frames.last();
    let n = frames.len() - 1;
    if in_span(last.0, from, to) && frame_matches(t, last.1, last.0, q) {
        if h == 0 {
            n
        } else {
            let r = frame_hits(t, root, frames, q, from, to);
            assert(r[h] == frame_hits(t, root, d, q, from, to)[h - 1]);
            let i = lemma_frame_hit_from(t, root, d, q, from, to, h - 1);
            assert(d[i] == frames[i]);
            i
        }
    } else {
        let i = lemma_frame_hit_from(t, root, d, q, from, to, h);
        assert(d[i] == frames[i]);
        i
    }
}

proof fn lemma_clip_hit_from(
    t: Tables,
    root: Seq<char>,
    clips: Seq<(i64, ClipRow)>,
    q: Seq<char>,
    from: i64,
    to: i64,
    h: int,
) -> (i: int)
    requires
        0 <= h < clip_hits(t, root, clips, q, from, to).len(),
    ensures
        0 <= i < clips.len(),
        in_span(clips[i].0, from, to),
        matches_text(clips[i].1.content, q),
        clip_hits(t, root, clips, q, from, to)[h] == clip_hit(t, root, clips[i].1, clips[i].0, q),
    decreases clips.len(),
{
    let d = clips.drop_last();
    let last = clips.last();
    let n = clips.len() - 1;
    if matches_text(last.1.content, q) && in_span(last.0, from, to) {
        if h == 0 {
            n
        } else {
            let r = clip_hits(t, root, clips, q, from, to);
            assert(r[h] == clip_hits(t, root, d, q, from, to)[h - 1]);
            let i = lemma_clip_hit_from(t, root, d, q, from, to, h - 1);
            assert(d[i] == clips[i]);
            i
        }
    } else {
        let i = lemma_clip_hit_from(t, root, d, q, from, to, h);
        assert(d[i] == clips[i]);
        i
    }
}

/// There is a frame of the span that a hit is about, and the query stands in its
/// title, in its application or in what was copied last by then.
pub open spec fn hit_by_frame(t: Tables, x: HitRow, q: Seq<char>, from: i64, to: i64) -> bool {
    exists|i: int|
        0 <= i < t.frames.len() && (#[trigger] t.frames[i]).0 == x.ts && t.frames[i].1.title == x.title
            && t.frames[i].1.app == x.app && (from == 0 || from <= x.ts) && (to == 0 || x.ts <= to) && (occurs(
            lower(t.frames[i].1.title),
            lower(q),
        ) || occurs(lower(t.frames[i].1.app), lower(q)) || occurs(lower(crate::lookup::clip_in(t, x.ts)), lower(q)))
}

/// There is a text that was copied in the span and that the query stands in, and a
/// hit is about the frame that it is filed under.
pub open spec fn hit_by_copy(t: Tables, x: HitRow, q: Seq<char>, from: i64, to: i64) -> bool {
    exists|i: int|
        0 <= i < t.clips.len() && filed_under(t, (#[trigger] t.clips[i]).0) == x.ts && (from == 0 || from <= t.clips[i].0)
            && (to == 0 || t.clips[i].0 <= to) && occurs(lower(t.clips[i].1.content), lower(q))
}

/// No character of the archive's texts is a NUL.
pub open spec fn no_nul(t: Tables) -> bool {
    &&& forall|i: int|
        0 <= i < t.frames.len() ==> !lower((#[trigger] t.frames[i]).1.title).contains('\0') && !lower(
            t.frames[i].1.app,
        ).contains('\0')
    &&& forall|i: int| 0 <= i < t.clips.len() ==> !lower((#[trigger] t.clips[i]).1.content).contains('\0')
}

/// Without a full-text index a search for plain words gives only frames of its
/// span that the query stands in, and frames that belong to texts copied in the
/// span that the query stands in.
pub proof fn law_a_search_gives_nothing_else(
    t: Tables,
    root: Seq<char>,
    q: Seq<char>,
    limit: int,
    from: i64,
    to: i64,
    h: int,
)
    requires
        t.wf(),
        no_nul(t),
        bytes_in(q) < 49_999,
        !lower(q).contains('\0'),
        !lower(q).contains('%'),
        !lower(q).contains('_'),
        search_hits(t, root, q, None, limit, from, to) matches Some(hits) && 0 <= h < hits.len(),
    ensures
        ({
            let x = search_hits(t, root, q, None, limit, from, to).unwrap()[h];
            hit_by_frame(t, x, q, from, to) || hit_by_copy(t, x, q, from, to)
        }),
{
    let n = search_limit(limit);
    let all = frame_hits(t, root, t.frames, q, from, to);
    let a = at_most(all, n);
    let every = clip_hits(t, root, t.clips, q, from, to);
    let b = at_most(every, n);
    lemma_pattern_bytes(q);
    let m = merged(a, b, n);
    lemma_merged_from(a, b, n, h);
    let x = search_hits(t, root, q, None, limit, from, to).unwrap()[h];
    let y = m[h];
    assert(x == (HitRow { boxes: boxes_of(t.boxes, y.ts, q), ..y }));
    if a.contains(y) {
        let j = choose|j: int| 0 <= j < a.len() && a[j] == y;
        assert(all[j] == y);
        let i = lemma_frame_hit_from(t, root, t.frames, q, from, to, j);
        let f = t.frames[i].1;
        let k = t.frames[i].0;
        if matches_text(f.title, q) {
            law_a_plain_query_matches_only_where_it_stands(f.title, q);
        } else if matches_text(f.app, q) {
            law_a_plain_query_matches_only_where_it_stands(f.app, q);
        } else {
            lemma_clip_plain(t, k);
            law_a_plain_query_matches_only_where_it_stands(frame_clip(t, k), q);
        }
        assert(t.frames[i].0 == x.ts);
        assert(hit_by_frame(t, x, q, from, to));
    } else {
        let j = choose|j: int| 0 <= j < b.len() && b[j] == y;
        assert(every[j] == y);
        let i = lemma_clip_hit_from(t, root, t.clips, q, from, to, j);
        law_a_plain_query_matches_only_where_it_stands(t.clips[i].1.content, q);
        assert(filed_under(t, t.clips[i].0) == x.ts);
        assert(hit_by_copy(t, x, q, from, to));
    }
}

proof fn lemma_clip_plain(t: Tables, k: i64)
    requires
        t.wf(),
        no_nul(t),
    ensures
        !lower(frame_clip(t, k)).contains('\0'),
{
    crate::table::lemma_latest(t.clips, k);
    if let Some(r) = latest(t.clips, k) {
        let i = choose|i: int| 0 <= i < t.clips.len() && t.clips[i].0 == r.0;
        crate::lookup::lemma_row_here(t.clips, i);
        assert(r.1 == t.clips[i].1);
    }
}

/// A text that was copied is found wherever the query stands in it: the frame it
/// is filed under is among the hits, whatever the full-text index found, as long
/// as there are no more candidates than hits are asked for.
pub proof fn law_copied_texts_are_searched(
    t: Tables,
    root: Seq<char>,
    q: Seq<char>,
    found: Seq<(i64, Seq<char>)>,
    limit: int,
    j: int,
)
    requires
        t.wf(),
        0 <= j < t.clips.len(),
        stands_in(q, t.clips[j].1.content),
        bytes_in(q) < 49_999,
        found.len() + t.clips.len() <= limit <= 200,
    ensures
        search_hits(t, root, q, Some(found), limit, 0, 0) matches Some(hits) && exists|h: int|
            0 <= h < hits.len() && (#[trigger] hits[h]).ts == filed_under(t, t.clips[j].0),
{
    lemma_pattern_bytes(q);
    law_query_matches_where_it_stands(t.clips[j].1.content, q);
    crate::lookup::lemma_row_here(t.clips, j);
    law_copied_text_is_found(t, root, q, found, limit, t.clips[j].0);
}

proof fn lemma_index_hit_there(
    t: Tables,
    root: Seq<char>,
    found: Seq<(i64, Seq<char>)>,
    from: i64,
    to: i64,
    k: int,
)
    requires
        0 <= k < found.len(),
        in_span(index_hit(t, root, found[k]).ts, from, to),
    ensures
        index_hits(t, root, found, from, to).contains(index_hit(t, root, found[k])),
        index_hits(t, root, found, from, to).len() <= found.len(),
    decreases found.len(),
{
    let d = found.drop_last();
    let x = index_hit(t, root, found[k]);
    let front = index_hits(t, root, d, from, to);
    let h = index_hit(t, root, found.last());
    lemma_index_count(t, root, d, from, to);
    if k < d.len() {
        lemma_index_hit_there(t, root, d, from, to, k);
    }
    if in_span(h.ts, from, to) {
        lemma_placed_count(front, h);
        lemma_placed_holds(front, h, x);
    }
}

proof fn lemma_index_count(t: Tables, root: Seq<char>, found: Seq<(i64, Seq<char>)>, from: i64, to: i64)
    ensures
        index_hits(t, root, found, from, to).len() <= found.len(),
    decreases found.len(),
{
    if found.len() > 0 {
        lemma_index_count(t, root, found.drop_last(), from, to);
        lemma_placed_count(index_hits(t, root, found.drop_last(), from, to), index_hit(t, root, found.last()));
    }
}

/// What the full-text index finds is shown with the frame at its moment or the
/// last one before it, and with the words that the index gave, as long as that
/// frame lies in the span and there are no more candidates than hits are asked
/// for.
pub proof fn law_what_the_index_finds_is_shown(
    t: Tables,
    root: Seq<char>,
    q: Seq<char>,
    found: Seq<(i64, Seq<char>)>,
    limit: int,
    from: i64,
    to: i64,
    k: int,
    j: int,
)
    requires
        t.wf(),
        0 <= k < found.len(),
        0 <= j < t.frames.len(),
        t.frames[j].0 <= found[k].0,
        j + 1 < t.frames.len() ==> t.frames[j + 1].0 > found[k].0,
        from == 0 || from <= t.frames[j].0,
        to == 0 || t.frames[j].0 <= to,
        found.len() + t.clips.len() <= limit <= 200,
    ensures
        search_hits(t, root, q, Some(found), limit, from, to) matches Some(hits) && exists|h: int|
            0 <= h < hits.len() && (#[trigger] hits[h]).ts == t.frames[j].0 && hits[h].title == t.frames[j].1.title
                && hits[h].app == t.frames[j].1.app && hits[h].snippet == found[k].1,
{
    lemma_latest_at(t.frames, found[k].0, j);
    lemma_index_hit_there(t, root, found, from, to, k);
    lemma_hit_counts(t, root, t.frames, t.clips, q, from, to);
    let x = index_hit(t, root, found[k]);
    let a = index_hits(t, root, found, from, to);
    let b = second_hits(t, root, q, limit, from, to);
    lemma_joined(a, b);
    lemma_joined_holds(a, b, x);
    lemma_newest_holds(joined_hits(a, b), x);
    lemma_newest_count(joined_hits(a, b));
    let m = newest_first(joined_hits(a, b));
    let h = choose|h: int| 0 <= h < m.len() && m[h] == x;
    assert(search_limit(limit) == limit);
    assert(first_hits(t, root, q, Some(found), limit, from, to) == Some(a));
    assert(merged(a, b, limit) == m);
    let r = search_hits(t, root, q, Some(found), limit, from, to);
    assert(r == Some(boxed(t, m, q)));
    let all = r.unwrap();
    assert(all[h].ts == x.ts && all[h].title == x.title && all[h].app == x.app && all[h].snippet == x.snippet);
}

/// The words that are marked in a hit are those of its own frame in which the
/// query stands or that stand in the query, whatever the case of the letters.
pub proof fn law_words_that_are_marked(boxes: Seq<(i64, BoxRow)>, ts: i64, q: Seq<char>, b: BoxRow)
    ensures
        boxes_of(boxes, ts, q).contains(b) <==> (occurs(lower(b.word), lower(q)) || occurs(lower(q), lower(b.word)))
            && boxes.contains((ts, b)),
    decreases boxes.len(),
{
    if boxes.len() > 0 {
        let d = boxes.drop_last();
        let front = boxes_of(d, ts, q);
        let r = boxes_of(boxes, ts, q);
        law_words_that_are_marked(d, ts, q, b);
        if boxes.contains((ts, b)) {
            let i = choose|i: int| 0 <= i < boxes.len() && boxes[i] == (ts, b);
            if i < d.len() {
                assert(d[i] == (ts, b));
            }
        }
        if d.contains((ts, b)) {
            let i = choose|i: int| 0 <= i < d.len() && d[i] == (ts, b);
            assert(boxes[i] == (ts, b));
        }
        if boxes.last() == (ts, b) {
            assert(boxes[boxes.len() - 1] == (ts, b));
        }
        if front.contains(b) {
            let i = choose|i: int| 0 <= i < front.len() && front[i] == b;
            assert(r[i] == b);
        }
        if r.contains(b) {
            let i = choose|i: int| 0 <= i < r.len() && r[i] == b;
            if i < front.len() {
                assert(front[i] == b);
            }
        }
        if r.len() > front.len() {
            assert(r[front.len() as int] == boxes.last().1);
        }
    }
}

/// A search gives between one and two hundred hits at most: as many as were asked
/// for, where that lies in between.
pub proof fn law_how_many_hits(limit: int)
    ensures
        1 <= search_limit(limit) <= 200,
        1 <= limit <= 200 ==> search_limit(limit) == limit,
        limit < 1 ==> search_limit(limit) == 1,
        limit > 200 ==> search_limit(limit) == 200,
{
}

/// A path below a directory is the directory, one slash and the path; a path from
/// the root is itself.
pub proof fn law_paths_are_joined(root: Seq<char>, rel: Seq<char>)
    requires
        root.len() > 0,
        root.last() != '/',
    ensures
        rel.len() > 0 && rel[0] == '/' ==> joined_path(root, rel) == rel,
        rel.len() == 0 || rel[0] != '/' ==> joined_path(root, rel) == root + seq!['/'] + rel && joined_path(
            root.push('/'),
            rel,
        ) == root + seq!['/'] + rel,
{
    assert(root.push('/') =~= root + seq!['/']);
    assert(root.push('/').last() == '/');
}

/// Where more hits were found than asked for, the newest are kept: a stamp that is
/// missing is older than every one that is there, and as many are there as were
/// asked for.
pub proof fn law_the_newest_hits_are_kept(into: Seq<HitRow>, extra: Seq<HitRow>, limit: int, ts: i64)
    requires
        limit >= 0,
        has_stamp(into, ts) || has_stamp(extra, ts),
        !has_stamp(merged(into, extra, limit), ts),
    ensures
        merged(into, extra, limit).len() == limit,
        forall|i: int| 0 <= i < limit ==> (#[trigger] merged(into, extra, limit)[i]).ts > ts,
{
    let j = joined_hits(into, extra);
    let s = newest_first(j);
    let r = merged(into, extra, limit);
    lemma_joined(into, extra);
    lemma_newest_first(j);
    assert(has_stamp(j, ts));
    assert(has_stamp(s, ts));
    let k = choose|k: int| 0 <= k < s.len() && (#[trigger] s[k]).ts == ts;
    if k < r.len() {
        assert(r[k].ts == ts);
    }
    assert forall|i: int| 0 <= i < limit implies (#[trigger] r[i]).ts > ts by {
        assert(r[i] == s[i]);
        assert(s[i].ts >= s[k].ts);
        if r[i].ts == ts {
            assert(has_stamp(r, ts));
        }
    }
}

proof fn lemma_newest_of_sorted(hits: Seq<HitRow>)
    requires
        forall|i: int, j: int| 0 <= i < j < hits.len() ==> (#[trigger] hits[i]).ts >= (#[trigger] hits[j]).ts,
    ensures
        newest_first(hits) == hits,
    decreases hits.len(),
{
    if hits.len() > 0 {
        let d = hits.drop_last();
        assert forall|i: int, j: int| 0 <= i < j < d.len() implies (#[trigger] d[i]).ts >= (#[trigger] d[j]).ts by {
            assert(d[i] == hits[i] && d[j] == hits[j]);
        }
        lemma_newest_of_sorted(d);
        if d.len() > 0 {
            assert(hits[d.len() - 1].ts >= hits[hits.len() - 1].ts);
            assert(d.last() == hits[d.len() - 1]);
        }
        assert(d.push(hits.last()) =~= hits);
    }
}

proof fn lemma_frame_hits_sorted(
    t: Tables,
    root: Seq<char>,
    frames: Seq<(i64, FrameRow)>,
    q: Seq<char>,
    from: i64,
    to: i64,
)
    requires
        crate::table::sorted(frames),
    ensures
        forall|i: int, j: int|
            0 <= i < j < frame_hits(t, root, frames, q, from, to).len() ==> (#[trigger] frame_hits(
                t,
                root,
                frames,
                q,
                from,
                to,
            )[i]).ts > (#[trigger] frame_hits(t, root, frames, q, from, to)[j]).ts,
    decreases frames.len(),
{
    if frames.len() > 0 {
        let d = frames.drop_last();
        let older = frame_hits(t, root, d, q, from, to);
        let all = frame_hits(t, root, frames, q, from, to);
        lemma_frame_hits_sorted(t, root, d, q, from, to);
        if all.len() > older.len() {
            assert forall|i: int, j: int| 0 <= i < j < all.len() implies (#[trigger] all[i]).ts > (#[trigger] all[j]).ts by {
                assert(all[j] == older[j - 1]);
                if i > 0 {
                    assert(all[i] == older[i - 1]);
                } else {
                    let k = lemma_frame_hit_from(t, root, d, q, from, to, j - 1);
                    assert(d[k] == frames[k]);
                    assert(frames[k].0 < frames[frames.len() - 1].0);
                }
            }
        }
    }
}

/// Without a full-text index and without copied texts, a search that finds more
/// frames than it may give gives the newest: a frame of the span whose title or
/// application the query stands in is left out only where as many newer ones are
/// given as were asked for.
pub proof fn law_a_search_prefers_newer_frames(
    t: Tables,
    root: Seq<char>,
    q: Seq<char>,
    limit: int,
    from: i64,
    to: i64,
    i: int,
)
    requires
        t.wf(),
        t.clips.len() == 0,
        0 <= i < t.frames.len(),
        bytes_in(q) < 49_999,
        1 <= limit <= 200,
        from == 0 || from <= t.frames[i].0,
        to == 0 || t.frames[i].0 <= to,
        stands_in(q, t.frames[i].1.title) || stands_in(q, t.frames[i].1.app),
    ensures
        search_hits(t, root, q, None, limit, from, to) matches Some(hits) && (has_stamp(hits, t.frames[i].0) || (hits.len()
            == limit && forall|h: int| 0 <= h < limit ==> (#[trigger] hits[h]).ts > t.frames[i].0)),
{
    let k = t.frames[i].0;
    let f = t.frames[i].1;
    lemma_pattern_bytes(q);
    if stands_in(q, f.title) {
        law_query_matches_where_it_stands(f.title, q);
    } else {
        law_query_matches_where_it_stands(f.app, q);
    }
    let x = frame_hit(t, root, f, k, q);
    let all = frame_hits(t, root, t.frames, q, from, to);
    lemma_frame_hit_there(t, root, t.frames, q, from, to, i);
    lemma_frame_hits_sorted(t, root, t.frames, q, from, to);
    let a = at_most(all, limit);
    let none = Seq::<HitRow>::empty();
    assert(second_hits(t, root, q, limit, from, to) =~= none);
    assert(joined_hits(a, none) == a);
    assert forall|u: int, v: int| 0 <= u < v < a.len() implies (#[trigger] a[u]).ts >= (#[trigger] a[v]).ts by {
        assert(a[u] == all[u] && a[v] == all[v]);
    }
    lemma_newest_of_sorted(a);
    assert(merged(a, none, limit) =~= a);
    let r = search_hits(t, root, q, None, limit, from, to);
    assert(r == Some(boxed(t, a, q)));
    let hits = r.unwrap();
    let p = choose|p: int| 0 <= p < all.len() && all[p] == x;
    if p < a.len() {
        assert(hits[p].ts == k);
    } else {
        assert forall|h: int| 0 <= h < limit implies (#[trigger] hits[h]).ts > k by {
            assert(hits[h].ts == a[h].ts && a[h] == all[h]);
            assert(all[h].ts > all[p].ts);
        }
    }
}

} // verus!
