//! Deleting: the files of rows that are gone, and the rows of a stretch of time.
use crate::archive::{forgotten, Change, Tables};
use crate::json::{field_of, json_of, no_entries, Fields, Json};
use crate::pixel::{self, day_start, in_reach};
use crate::rows::{option_view, FrameRow};
use crate::store::{count, counted, read_only, refused, Store};
use crate::table::{has_key, inside, lemma_outside, row_at};
use crate::text;
use serde_json::Value;
use vstd::prelude::*;

verus! {

/// What became of a file that was to be deleted.
#[derive(Debug, Clone, Copy, PartialEq, Eq, Structural)]
pub enum Unlink {
    Removed,
    /// There was no such file.
    Missing,
    /// The file is still there.
    Failed,
}

impl Unlink {
    /// The file is not there any more.
    pub open spec fn gone(self) -> bool {
        self != Unlink::Failed
    }
}

/// The files that could not be deleted.
pub open spec fn stuck(paths: Seq<Seq<char>>, outcomes: Seq<Unlink>) -> Seq<Seq<char>>
    decreases paths.len(),
{
    if paths.len() == 0 {
        paths
    } else {
        let front = stuck(paths.drop_last(), outcomes);
        if outcomes[paths.len() - 1].gone() {
            front
        } else {
            front.push(paths.last())
        }
    }
}

/// A frame refers to the file.
pub open spec fn shown(frames: Seq<(i64, FrameRow)>, path: Seq<char>) -> bool {
    exists|i: int| 0 <= i < frames.len() && frames[i].1.path == path
}

/// A frame refers to the file as its crop.
pub open spec fn cropped_to(frames: Seq<(i64, FrameRow)>, path: Seq<char>) -> bool {
    exists|i: int| 0 <= i < frames.len() && frames[i].1.crop_path == Some(path)
}

/// The files of a list that no frame refers to.
pub open spec fn orphans(files: Seq<Seq<char>>, frames: Seq<(i64, FrameRow)>, crops: bool) -> Seq<Seq<char>>
    decreases files.len(),
{
    if files.len() == 0 {
        files
    } else {
        let front = orphans(files.drop_last(), frames, crops);
        let kept = if crops {
            cropped_to(frames, files.last())
        } else {
            shown(frames, files.last())
        };
        if kept {
            front
        } else {
            front.push(files.last())
        }
    }
}

/// The numbers of outcomes in which a file was deleted and in which it was not.
pub open spec fn tally(outcomes: Seq<Unlink>) -> (nat, nat)
    decreases outcomes.len(),
{
    if outcomes.len() == 0 {
        (0, 0)
    } else {
        let front = tally(outcomes.drop_last());
        if outcomes.last() == Unlink::Removed {
            (front.0 + 1, front.1)
        } else {
            (front.0, front.1 + 1)
        }
    }
}

/// The numbers of files that a sweep deleted and that it could not delete.
pub fn swept(outcomes: &Vec<Unlink>) -> (r: (usize, usize))
    ensures
        r.0 == tally(outcomes@).0,
        r.1 == tally(outcomes@).1,
{
    let mut removed: usize = 0;
    let mut residual: usize = 0;
    let mut i: usize = 0;
    assert(outcomes@.take(0) =~= Seq::<Unlink>::empty());
    while i < outcomes.len()
        invariant
            i <= outcomes@.len(),
            removed == tally(outcomes@.take(i as int)).0,
            residual == tally(outcomes@.take(i as int)).1,
            removed + residual == i,
        decreases outcomes@.len() - i,
    {
        assert(outcomes@.take(i + 1).drop_last() =~= outcomes@.take(i as int));
        if outcomes[i] == Unlink::Removed {
            removed += 1;
        } else {
            residual += 1;
        }
        i += 1;
    }
    assert(outcomes@.take(i as int) =~= outcomes@);
    (removed, residual)
}

/// The stretch of time that a wipe clears, and how many frames it held.
#[derive(Debug, Clone, Copy)]
pub struct Wiped {
    pub frames: i64,
    pub from: i64,
    pub to: i64,
}

/// The stretch of time that a scope names.
pub open spec fn scope_of(scope: Seq<char>, from: i64, to: i64, now: i64, midnight: Option<i64>) -> Option<(int, int)> {
    if scope == "all"@ {
        Some((0, i64::MAX as int))
    } else if scope == "today"@ {
        let start = day_start(now as int, midnight);
        Some((start, if now >= start { now as int } else { start }))
    } else if scope == "range"@ {
        Some((from as int, if to == 0 { now as int } else { to as int }))
    } else {
        None
    }
}

impl Store {
    /// The number of files that are still to be deleted.
    pub fn pending_unlink_count(&self) -> (r: i64)
        ensures
            r == counted(self@.doomed.len()),
    {
        let d = self.doomed();
        assert(text::texts(d@).len() == d@.len());
        count(d.len())
    }

    /// Take note of what became of the files that were to be deleted, in their
    /// order. A file is forgotten once it is gone. The number of files that are
    /// still there.
    pub fn flush_unlinks(&mut self, outcomes: &Vec<Unlink>) -> (r: usize)
        requires
            old(self).wf(),
            outcomes@.len() == old(self)@.doomed.len(),
        ensures
            final(self).wf(),
            final(self).like(old(self)),
            r == stuck(old(self)@.doomed, outcomes@).len(),
            final(self)@ == (if old(self).open_for_writing() {
                Tables { doomed: stuck(old(self)@.doomed, outcomes@), ..old(self)@ }
            } else {
                old(self)@
            }),
    {
        let ghost t = self@;
        let ghost d = t.doomed;
        let mut gone: Vec<String> = Vec::new();
        let mut left: usize = 0;
        let mut i: usize = 0;
        assert(d.take(0) =~= Seq::<Seq<char>>::empty());
        while i < outcomes.len()
            invariant
                i <= outcomes@.len(),
                outcomes@.len() == d.len(),
                self@ == t,
                self.wf(),
                d == t.doomed,
                self.like(old(self)),
                left == stuck(d.take(i as int), outcomes@).len(),
                left <= i,
                all_forgotten(d, text::texts(gone@)) == stuck(d.take(i as int), outcomes@) + d.skip(i as int),
                forall|j: int| i <= j < d.len() ==> !text::texts(gone@).contains(#[trigger] d[j]),
            decreases outcomes@.len() - i,
        {
            proof {
                assert(d.take(i + 1).drop_last() =~= d.take(i as int));
                assert(d.skip(i as int) =~= seq![d[i as int]] + d.skip(i + 1));
            }
            let ghost kept = stuck(d.take(i as int), outcomes@);
            if outcomes[i] == Unlink::Failed {
                left += 1;
                proof {
                    assert(kept + d.skip(i as int) =~= kept.push(d[i as int]) + d.skip(i + 1));
                }
            } else {
                let ghost was = gone@;
                let p = self.doomed()[i].clone();
                assert(p@ == d[i as int]);
                gone.push(p);
                proof {
                    assert(text::texts(gone@) =~= text::texts(was).push(d[i as int]));
                    assert(text::texts(gone@).drop_last() =~= text::texts(was));
                    lemma_stuck_unique(d, outcomes@, i as int);
                    lemma_forget_middle(kept, d[i as int], d.skip(i + 1));
                    assert(kept + seq![d[i as int]] + d.skip(i + 1) =~= kept + d.skip(i as int));
                    assert forall|j: int| i + 1 <= j < d.len() implies !text::texts(gone@).contains(#[trigger] d[j]) by {
                        if text::texts(gone@).contains(d[j]) {
                            let x = choose|x: int| 0 <= x < gone@.len() && text::texts(gone@)[x] == d[j];
                            if x < was.len() {
                                assert(text::texts(was)[x] == d[j]);
                            }
                        }
                    }
                }
            }
            i += 1;
        }
        proof {
            assert(d.take(i as int) =~= d);
            assert(stuck(d, outcomes@) + d.skip(i as int) =~= stuck(d, outcomes@));
        }
        if self.is_writable() {
            let mut k: usize = 0;
            let ghost names = text::texts(gone@);
            assert(names.take(0) =~= Seq::<Seq<char>>::empty());
            while k < gone.len()
                invariant
                    k <= gone@.len(),
                    names == text::texts(gone@),
                    self.wf(),
                    self.like(old(self)),
                    d == t.doomed,
                    self@ == (Tables { doomed: all_forgotten(d, names.take(k as int)), ..t }),
                decreases gone@.len() - k,
            {
                assert(names.take(k + 1).drop_last() =~= names.take(k as int));
                assert(names.take(k + 1).last() == names[k as int]);
                let path = gone[k].clone();
                self.apply(Change::Forget { path });
                k += 1;
            }
            assert(names.take(k as int) =~= names);
        }
        left
    }

    /// The crop of the frame at `ts`.
    pub fn crop_path(&self, ts: i64) -> (r: Option<String>)
        ensures
            option_view(r) == (match row_at(self@.frames, ts) {
                Some(f) => f.crop_path,
                None => None,
            }),
    {
        match self.frames().get(ts) {
            Some(f) => crate::rows::copy_option(&f.crop_path),
            None => None,
        }
    }

    /// Take note that the crop of the frame at `ts` was to be deleted. The frame
    /// loses its crop only where the file is gone; else it goes on to refer to
    /// it, so that the file can still be found.
    pub fn clear_crop(&mut self, ts: i64, outcome: Unlink) -> (r: Result<(), String>)
        requires
            old(self).wf(),
        ensures
            final(self).wf(),
            final(self).like(old(self)),
            ({
                let has_crop = row_at(old(self)@.frames, ts) matches Some(f) && f.crop_path is Some;
                if has_crop && !outcome.gone() {
                    r is Ok && final(self)@ == old(self)@
                } else if old(self).open_for_writing() {
                    r is Ok && final(self)@ == old(self)@.crop_cleared(ts)
                } else {
                    &&& r matches Err(m) && m@ == read_only()
                    &&& final(self)@ == old(self)@
                }
            }),
    {
        let gone = match self.crop_path(ts) {
            Some(_) => outcome != Unlink::Failed,
            None => true,
        };
        if !gone {
            return Ok(());
        }
        if !self.is_writable() {
            return Err(refused());
        }
        self.apply(Change::ClearCrop { ts });
        Ok(())
    }

    fn refers(&self, path: &str, crops: bool) -> (r: bool)
        ensures
            r == (if crops {
                cropped_to(self@.frames, path@)
            } else {
                shown(self@.frames, path@)
            }),
    {
        let frames = self.frames();
        let ghost all = frames@;
        let mut i: usize = 0;
        while i < frames.rows.len()
            invariant
                i <= frames.rows@.len(),
                all == frames@,
                all == self@.frames,
                crops ==> forall|j: int| 0 <= j < i ==> (#[trigger] all[j]).1.crop_path != Some(path@),
                !crops ==> forall|j: int| 0 <= j < i ==> (#[trigger] all[j]).1.path != path@,
            decreases frames.rows@.len() - i,
        {
            let f = &frames.rows[i].1;
            assert(all[i as int].1 == f@);
            if crops {
                if let Some(c) = &f.crop_path {
                    if text::same(c.as_str(), path) {
                        return true;
                    }
                }
            } else if text::same(f.path.as_str(), path) {
                return true;
            }
            i += 1;
        }
        false
    }

    fn unreferenced(&self, files: &Vec<String>, crops: bool) -> (r: Vec<String>)
        ensures
            text::texts(r@) == orphans(text::texts(files@), self@.frames, crops),
    {
        let mut out: Vec<String> = Vec::new();
        let ghost all = text::texts(files@);
        let mut i: usize = 0;
        assert(all.take(0) =~= Seq::<Seq<char>>::empty());
        assert(text::texts(out@) =~= Seq::<Seq<char>>::empty());
        while i < files.len()
            invariant
                i <= files@.len(),
                all == text::texts(files@),
                text::texts(out@) == orphans(all.take(i as int), self@.frames, crops),
            decreases files@.len() - i,
        {
            assert(all.take(i + 1).drop_last() =~= all.take(i as int));
            assert(all.take(i + 1).last() == files@[i as int]@);
            if !self.refers(files[i].as_str(), crops) {
                let ghost was = text::texts(out@);
                out.push(files[i].clone());
                assert(text::texts(out@) =~= was.push(files@[i as int]@));
            }
            i += 1;
        }
        assert(all.take(i as int) =~= all);
        out
    }

    /// Of the crop files that were found, those that no frame refers to and that
    /// are to be deleted.
    pub fn sweep_orphan_crops(&self, found: &Vec<String>) -> (r: Vec<String>)
        ensures
            text::texts(r@) == orphans(text::texts(found@), self@.frames, true),
    {
        self.unreferenced(found, true)
    }

    /// Of the picture files that were found, those that no frame refers to and
    /// that are to be deleted.
    pub fn sweep_orphan_frames(&self, found: &Vec<String>) -> (r: Vec<String>)
        ensures
            text::texts(r@) == orphans(text::texts(found@), self@.frames, false),
    {
        self.unreferenced(found, false)
    }

    /// Clear a stretch of time: everything, the current day, or a range that ends
    /// now where its end is zero.
    pub fn wipe(&mut self, scope: &str, from: i64, to: i64, now: i64, midnight: Option<i64>) -> (r: Result<
        Wiped,
        String,
    >)
        requires
            old(self).wf(),
            in_reach(midnight),
        ensures
            final(self).wf(),
            final(self).like(old(self)),
            wiped(old(self)@, final(self)@, old(self).open_for_writing(), scope_of(scope@, from, to, now, midnight), r),
            match scope_of(scope@, from, to, now, midnight) {
                None => {
                    &&& r matches Err(m) && m@ == "unknown wipe scope: "@ + scope@
                    &&& final(self)@ == old(self)@
                },
                Some(b) => if old(self).open_for_writing() {
                    &&& r matches Ok(w) && w.from == b.0 && w.to == b.1 && w.frames == counted(
                        inside(old(self)@.frames, b.0, b.1).len(),
                    )
                    &&& final(self)@ == old(self)@.cleared(b.0, b.1)
                } else {
                    &&& r matches Err(m) && m@ == read_only()
                    &&& final(self)@ == old(self)@
                },
            },
    {
        let bounds = wipe_bounds(scope, from, to, now, midnight);
        match bounds {
            None => {
                let mut m = "unknown wipe scope: ".to_string();
                m.append(scope);
                Err(m)
            },
            Some(b) => match self.delete_range(b.0, b.1) {
                Ok(frames) => Ok(Wiped { frames, from: b.0, to: b.1 }),
                Err(e) => Err(e),
            },
        }
    }
}

/// The stretch of time that a scope names.
pub fn wipe_bounds(scope: &str, from: i64, to: i64, now: i64, midnight: Option<i64>) -> (r: Option<(i64, i64)>)
    requires
        in_reach(midnight),
    ensures
        match scope_of(scope@, from, to, now, midnight) {
            Some(b) => r matches Some(x) && x.0 == b.0 && x.1 == b.1,
            None => r is None,
        },
{
    if text::same(scope, "all") {
        Some((0, i64::MAX))
    } else if text::same(scope, "today") {
        Some(pixel::local_day_bounds(now, midnight))
    } else if text::same(scope, "range") {
        Some((from, if to == 0 { now } else { to }))
    } else {
        None
    }
}

/// What a wipe answers. It is in order only where no file was left behind.
pub open spec fn wipe_json(w: Wiped, scope: Seq<char>, residual: int) -> Json {
    Json::Object(
        no_entries().insert("wiped"@, Json::Int(w.frames as int)).insert("scope"@, Json::Text(scope)).insert(
            "from"@,
            Json::Int(w.from as int),
        ).insert("to"@, Json::Int(w.to as int)).insert("ok"@, Json::Bool(residual == 0)).insert(
            "residual"@,
            Json::Int(residual),
        ),
    )
}

impl Wiped {
    /// What a wipe answers; `residual` is the number of files left behind.
    pub fn report(&self, scope: &str, residual: usize) -> (r: Value)
        ensures
            json_of(r) == wipe_json(*self, scope@, counted(residual as nat)),
    {
        let left = count(residual);
        Fields::new().number("wiped", self.frames).text("scope", scope).number("from", self.from).number(
            "to",
            self.to,
        ).flag("ok", left == 0).number("residual", left).object()
    }
}

/// `paths` without any of `gone`.
pub open spec fn all_forgotten(paths: Seq<Seq<char>>, gone: Seq<Seq<char>>) -> Seq<Seq<char>>
    decreases gone.len(),
{
    if gone.len() == 0 {
        paths
    } else {
        forgotten(all_forgotten(paths, gone.drop_last()), gone.last())
    }
}

proof fn lemma_forget_none(paths: Seq<Seq<char>>, p: Seq<char>)
    requires
        !paths.contains(p),
    ensures
        forgotten(paths, p) == paths,
    decreases paths.len(),
{
    if paths.len() > 0 {
        let d = paths.drop_last();
        assert(!d.contains(p)) by {
            if d.contains(p) {
                let i = choose|i: int| 0 <= i < d.len() && d[i] == p;
                assert(paths[i] == p);
            }
        }
        assert(paths[paths.len() - 1] != p);
        lemma_forget_none(d, p);
        assert(d.push(paths.last()) =~= paths);
    }
}

proof fn lemma_forget_middle(a: Seq<Seq<char>>, p: Seq<char>, b: Seq<Seq<char>>)
    requires
        !a.contains(p),
        !b.contains(p),
    ensures
        forgotten(a + seq![p] + b, p) == a + b,
    decreases b.len(),
{
    let all = a + seq![p] + b;
    if b.len() == 0 {
        assert(all.drop_last() =~= a);
        assert(a + b =~= a);
        lemma_forget_none(a, p);
    } else {
        let d = b.drop_last();
        assert(!d.contains(p)) by {
            if d.contains(p) {
                let i = choose|i: int| 0 <= i < d.len() && d[i] == p;
                assert(b[i] == p);
            }
        }
        assert(b[b.len() - 1] != p);
        lemma_forget_middle(a, p, d);
        assert(all.drop_last() =~= a + seq![p] + d);
        assert((a + d).push(b.last()) =~= a + b);
    }
}

proof fn lemma_stuck_unique(d: Seq<Seq<char>>, outcomes: Seq<Unlink>, i: int)
    requires
        d.no_duplicates(),
        0 <= i < d.len(),
    ensures
        !stuck(d.take(i), outcomes).contains(d[i]),
        !d.skip(i + 1).contains(d[i]),
{
    lemma_stuck_from(d.take(i), outcomes);
    if stuck(d.take(i), outcomes).contains(d[i]) {
        assert(d.take(i).contains(d[i]));
        let front = d.take(i);
        let j = choose|j: int| 0 <= j < front.len() && front[j] == d[i];
        assert(d[j] == d[i]);
    }
    if d.skip(i + 1).contains(d[i]) {
        let rest = d.skip(i + 1);
        let j = choose|j: int| 0 <= j < rest.len() && rest[j] == d[i];
        assert(d[j + i + 1] == d[i]);
    }
}

proof fn lemma_stuck_from(paths: Seq<Seq<char>>, outcomes: Seq<Unlink>)
    ensures
        forall|p: Seq<char>| #[trigger] stuck(paths, outcomes).contains(p) ==> paths.contains(p),
    decreases paths.len(),
{
    if paths.len() > 0 {
        let d = paths.drop_last();
        lemma_stuck_from(d, outcomes);
        assert forall|p: Seq<char>| #[trigger] stuck(paths, outcomes).contains(p) implies paths.contains(p) by {
            let s = stuck(paths, outcomes);
            let f = stuck(d, outcomes);
            let i = choose|i: int| 0 <= i < s.len() && s[i] == p;
            if i < f.len() {
                assert(f[i] == p);
                assert(f.contains(p));
                let j = choose|j: int| 0 <= j < d.len() && d[j] == p;
                assert(paths[j] == p);
            } else {
                assert(paths[paths.len() - 1] == p);
            }
        }
    }
}

/// A file stays on the list of files to delete exactly where it could not be
/// deleted.
pub proof fn law_only_stuck_files_stay(paths: Seq<Seq<char>>, outcomes: Seq<Unlink>, i: int)
    requires
        paths.no_duplicates(),
        outcomes.len() == paths.len(),
        0 <= i < paths.len(),
    ensures
        stuck(paths, outcomes).contains(paths[i]) <==> !outcomes[i].gone(),
    decreases paths.len(),
{
    let d = paths.drop_last();
    let n = paths.len() - 1;
    let s = stuck(paths, outcomes);
    let f = stuck(d, outcomes);
    assert(d =~= paths.take(n));
    lemma_stuck_unique(paths, outcomes, n);
    if i == n {
        if !outcomes[n].gone() {
            assert(s[s.len() - 1] == paths[n]);
        }
    } else {
        assert(d.no_duplicates()) by {
            assert forall|a: int, b: int| 0 <= a < d.len() && 0 <= b < d.len() && a != b implies d[a] != d[b] by {
                assert(paths[a] != paths[b]);
            }
        }
        lemma_stuck_same(d, outcomes, outcomes.drop_last());
        law_only_stuck_files_stay(d, outcomes.drop_last(), i);
        assert(f.contains(paths[i]) <==> !outcomes[i].gone());
        if f.contains(paths[i]) {
            let x = choose|x: int| 0 <= x < f.len() && f[x] == paths[i];
            assert(s[x] == paths[i]);
        }
        if s.contains(paths[i]) {
            let x = choose|x: int| 0 <= x < s.len() && s[x] == paths[i];
            assert(paths[i] != paths[n]);
            if x < f.len() {
                assert(f[x] == paths[i]);
            }
        }
    }
}

proof fn lemma_stuck_same(paths: Seq<Seq<char>>, a: Seq<Unlink>, b: Seq<Unlink>)
    requires
        forall|i: int| 0 <= i < paths.len() ==> #[trigger] a[i] == b[i],
    ensures
        stuck(paths, a) == stuck(paths, b),
    decreases paths.len(),
{
    if paths.len() > 0 {
        lemma_stuck_same(paths.drop_last(), a, b);
        assert(a[paths.len() - 1] == b[paths.len() - 1]);
    }
}

/// A sweep takes the files that no frame refers to, and no others.
pub proof fn law_sweep_takes_orphans(files: Seq<Seq<char>>, frames: Seq<(i64, FrameRow)>, p: Seq<char>)
    ensures
        orphans(files, frames, false).contains(p) <==> files.contains(p) && !shown(frames, p),
        orphans(files, frames, true).contains(p) <==> files.contains(p) && !cropped_to(frames, p),
    decreases files.len(),
{
    if files.len() > 0 {
        let d = files.drop_last();
        law_sweep_takes_orphans(d, frames, p);
        lemma_push_contains(d, files.last(), p);
        assert(d.push(files.last()) =~= files);
        lemma_push_contains(orphans(d, frames, false), files.last(), p);
        lemma_push_contains(orphans(d, frames, true), files.last(), p);
    }
}

proof fn lemma_push_contains(s: Seq<Seq<char>>, x: Seq<char>, p: Seq<char>)
    ensures
        s.push(x).contains(p) <==> p == x || s.contains(p),
{
    let r = s.push(x);
    assert(r[s.len() as int] == x);
    if s.contains(p) {
        let i = choose|i: int| 0 <= i < s.len() && s[i] == p;
        assert(r[i] == p);
    }
    if r.contains(p) && p != x {
        let i = choose|i: int| 0 <= i < r.len() && r[i] == p;
        assert(s[i] == p);
    }
}

/// Wiping the current day keeps every observation before it and after now, and
/// takes away all the others.
pub proof fn law_wipe_today_keeps_older(t: Tables, now: i64, midnight: Option<i64>, k: i64)
    requires
        t.wf(),
        in_reach(midnight),
    ensures
        ({
            let b = scope_of("today"@, 0, 0, now, midnight).unwrap();
            t.cleared(b.0, b.1).observed_at(k) <==> t.observed_at(k) && (k < day_start(now as int, midnight) || k > b.1)
        }),
{
    reveal_strlit("all");
    reveal_strlit("today");
    assert("all"@.len() != "today"@.len());
    let b = scope_of("today"@, 0, 0, now, midnight).unwrap();
    crate::archive::lemma_cleared(t, b.0, b.1);
}

/// Wiping everything leaves no observation from the epoch on.
pub proof fn law_wipe_all_forgets(t: Tables, now: i64, midnight: Option<i64>, k: i64)
    requires
        t.wf(),
        in_reach(midnight),
        k >= 0,
    ensures
        ({
            let b = scope_of("all"@, 0, 0, now, midnight).unwrap();
            !t.cleared(b.0, b.1).observed_at(k)
        }),
{
    let b = scope_of("all"@, 0, 0, now, midnight).unwrap();
    crate::archive::lemma_cleared(t, b.0, b.1);
}

/// Wiping a range takes away what was observed from its start to its end, and
/// nothing else; without an end the range ends now. So it is with frames,
/// clipboard texts, layouts, events, search texts and recognised words alike.
pub proof fn law_wipe_range_takes_the_range(t: Tables, from: i64, to: i64, now: i64, midnight: Option<i64>, k: i64)
    requires
        t.wf(),
    ensures
        scope_of("range"@, from, to, now, midnight) matches Some(b) && {
            let u = t.cleared(b.0, b.1);
            let gone = from <= k && k <= (if to != 0 {
                to
            } else {
                now
            });
            &&& u.observed_at(k) <==> t.observed_at(k) && !gone
            &&& row_at(u.frames, k) == (if gone { None } else { row_at(t.frames, k) })
            &&& row_at(u.clips, k) == (if gone { None } else { row_at(t.clips, k) })
            &&& row_at(u.layouts, k) == (if gone { None } else { row_at(t.layouts, k) })
            &&& row_at(u.ocr, k) == (if gone { None } else { row_at(t.ocr, k) })
            &&& row_at(u.plain, k) == (if gone { None } else { row_at(t.plain, k) })
            &&& has_key(u.events, k) <==> has_key(t.events, k) && !gone
            &&& has_key(u.boxes, k) <==> has_key(t.boxes, k) && !gone
        },
{
    reveal_strlit("all");
    reveal_strlit("today");
    reveal_strlit("range");
    assert("all"@.len() != "range"@.len());
    assert("today"@[0] != "range"@[0]);
    let b = scope_of("range"@, from, to, now, midnight).unwrap();
    crate::archive::lemma_cleared(t, b.0, b.1);
    lemma_outside(t.frames, b.0, b.1);
    lemma_outside(t.clips, b.0, b.1);
    lemma_outside(t.layouts, b.0, b.1);
    lemma_outside(t.events, b.0, b.1);
    lemma_outside(t.ocr, b.0, b.1);
    lemma_outside(t.plain, b.0, b.1);
    lemma_outside(t.boxes, b.0, b.1);
}

/// Wiping the current day takes away what was observed from the local midnight
/// until now, and nothing else.
pub proof fn law_wipe_today_takes_the_day(t: Tables, now: i64, midnight: i64, k: i64)
    requires
        t.wf(),
        0 <= midnight,
        midnight * 1000 <= now,
        now > 0,
    ensures
        scope_of("today"@, 0, 0, now, Some(midnight)) matches Some(b) && (t.cleared(b.0, b.1).observed_at(k)
            <==> t.observed_at(k) && !(midnight * 1000 <= k <= now)),
        scope_of("today"@, 0, 0, now, None) matches Some(b) && (t.cleared(b.0, b.1).observed_at(k)
            <==> t.observed_at(k) && !(now - now % 86_400_000 <= k <= now)),
{
    reveal_strlit("all");
    reveal_strlit("today");
    assert("all"@.len() != "today"@.len());
    let b = scope_of("today"@, 0, 0, now, Some(midnight)).unwrap();
    crate::archive::lemma_cleared(t, b.0, b.1);
    let c = scope_of("today"@, 0, 0, now, None).unwrap();
    crate::archive::lemma_cleared(t, c.0, c.1);
}

/// Wiping everything leaves an observation only where it lies before the epoch,
/// and only what is named today, all or range can be wiped.
pub proof fn law_what_can_be_wiped(t: Tables, scope: Seq<char>, from: i64, to: i64, now: i64, midnight: Option<i64>, k: i64)
    requires
        t.wf(),
    ensures
        scope_of(scope, from, to, now, midnight) is Some <==> scope == "today"@ || scope == "all"@ || scope == "range"@,
        scope_of("all"@, from, to, now, midnight) matches Some(b) && (t.cleared(b.0, b.1).observed_at(k)
            <==> t.observed_at(k) && k < 0),
{
    let b = scope_of("all"@, from, to, now, midnight).unwrap();
    crate::archive::lemma_cleared(t, b.0, b.1);
}

/// What a wipe tells: how many frames went, over which stretch, and whether every
/// file went too.
pub proof fn law_a_wipe_is_told(w: Wiped, scope: Seq<char>, residual: int)
    ensures
        ({
            let j = wipe_json(w, scope, residual);
            &&& field_of(j, "wiped"@) == Some(Json::Int(w.frames as int))
            &&& field_of(j, "scope"@) == Some(Json::Text(scope))
            &&& field_of(j, "from"@) == Some(Json::Int(w.from as int))
            &&& field_of(j, "to"@) == Some(Json::Int(w.to as int))
            &&& field_of(j, "ok"@) == Some(Json::Bool(residual == 0))
            &&& field_of(j, "residual"@) == Some(Json::Int(residual))
        }),
{
    reveal_strlit("wiped");
    reveal_strlit("scope");
    reveal_strlit("from");
    reveal_strlit("to");
    reveal_strlit("ok");
    reveal_strlit("residual");
    assert("wiped"@[0] != "scope"@[0]);
    assert("wiped"@.len() != "from"@.len());
    assert("wiped"@.len() != "to"@.len());
    assert("wiped"@.len() != "ok"@.len());
    assert("wiped"@.len() != "residual"@.len());
    assert("scope"@.len() != "from"@.len());
    assert("scope"@.len() != "to"@.len());
    assert("scope"@.len() != "ok"@.len());
    assert("scope"@.len() != "residual"@.len());
    assert("from"@.len() != "to"@.len());
    assert("from"@.len() != "ok"@.len());
    assert("from"@.len() != "residual"@.len());
    assert("to"@[0] != "ok"@[0]);
    assert("to"@.len() != "residual"@.len());
    assert("ok"@.len() != "residual"@.len());
}

/// Every outcome is counted once: as a deletion, or as none.
pub proof fn law_every_outcome_is_counted(outcomes: Seq<Unlink>, one: Unlink)
    ensures
        tally(outcomes).0 + tally(outcomes).1 == outcomes.len(),
        one == Unlink::Removed ==> tally(outcomes.push(one)) == (tally(outcomes).0 + 1, tally(outcomes).1),
        one != Unlink::Removed ==> tally(outcomes.push(one)) == (tally(outcomes).0, tally(outcomes).1 + 1),
    decreases outcomes.len(),
{
    assert(outcomes.push(one).drop_last() =~= outcomes);
    if outcomes.len() > 0 {
        law_every_outcome_is_counted(outcomes.drop_last(), one);
    }
}

/// Only a deletion that failed leaves its file there.
pub proof fn law_what_is_gone(u: Unlink)
    ensures
        u.gone() <==> u == Unlink::Removed || u == Unlink::Missing,
{
}

/// The files that are gone are forgotten, and no others.
pub proof fn law_gone_files_are_forgotten(paths: Seq<Seq<char>>, gone: Seq<Seq<char>>, p: Seq<char>)
    ensures
        all_forgotten(paths, gone).contains(p) <==> paths.contains(p) && !gone.contains(p),
    decreases gone.len(),
{
    if gone.len() > 0 {
        let d = gone.drop_last();
        law_gone_files_are_forgotten(paths, d, p);
        crate::archive::law_a_gone_file_is_forgotten(all_forgotten(paths, d), gone.last(), p);
        if gone.contains(p) {
            let i = choose|i: int| 0 <= i < gone.len() && gone[i] == p;
            if i < d.len() {
                assert(d[i] == p);
            }
        }
        if d.contains(p) {
            let i = choose|i: int| 0 <= i < d.len() && d[i] == p;
            assert(gone[i] == p);
        }
        if p == gone.last() {
            assert(gone[gone.len() - 1] == p);
        }
    }
}

/// The outcome of a wipe of a stretch of time.
pub open spec fn wiped(
    t: Tables,
    u: Tables,
    writable: bool,
    stretch: Option<(int, int)>,
    r: Result<Wiped, String>,
) -> bool {
    match stretch {
        Some(b) => if writable {
            &&& r matches Ok(w) && w.from == b.0 && w.to == b.1 && w.frames == counted(inside(t.frames, b.0, b.1).len())
            &&& u == t.cleared(b.0, b.1)
        } else {
            r is Err && u == t
        },
        None => r is Err && u == t,
    }
}

/// A wipe tells how many frames are gone and from when to when, and nothing is
/// gone where it fails.
pub proof fn law_what_a_wipe_does(
    t: Tables,
    u: Tables,
    writable: bool,
    stretch: Option<(int, int)>,
    r: Result<Wiped, String>,
    k: i64,
)
    requires
        wiped(t, u, writable, stretch, r),
        t.frames.len() <= i64::MAX,
    ensures
        r is Ok <==> writable && stretch is Some,
        r is Err ==> u == t,
        r matches Ok(w) ==> {
            &&& t.frames.len() == u.frames.len() + w.frames
            &&& row_at(u.frames, k) == (if w.from <= k <= w.to { None } else { row_at(t.frames, k) })
            &&& row_at(u.clips, k) == (if w.from <= k <= w.to { None } else { row_at(t.clips, k) })
            &&& row_at(u.layouts, k) == (if w.from <= k <= w.to { None } else { row_at(t.layouts, k) })
            &&& row_at(u.ocr, k) == (if w.from <= k <= w.to { None } else { row_at(t.ocr, k) })
            &&& row_at(u.plain, k) == (if w.from <= k <= w.to { None } else { row_at(t.plain, k) })
        },
{
    if let Some(b) = stretch {
        lemma_outside(t.frames, b.0, b.1);
        lemma_outside(t.clips, b.0, b.1);
        lemma_outside(t.layouts, b.0, b.1);
        lemma_outside(t.ocr, b.0, b.1);
        lemma_outside(t.plain, b.0, b.1);
    }
}

} // verus!
