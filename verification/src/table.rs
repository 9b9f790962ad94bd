//! Rows kept under a time stamp, in the order of their stamps.
use vstd::prelude::*;

verus! {

/// The rows stand in the order of their stamps, one to a stamp.
pub open spec fn sorted<V>(s: Seq<(i64, V)>) -> bool {
    forall|i: int, j: int| 0 <= i < j < s.len() ==> s[i].0 < s[j].0
}

/// There is a row at `k`.
pub open spec fn has_key<V>(s: Seq<(i64, V)>, k: i64) -> bool {
    exists|i: int| 0 <= i < s.len() && s[i].0 == k
}

/// `s` with `v` as its row at `k`, in place of the row that was there.
pub open spec fn put<V>(s: Seq<(i64, V)>, k: i64, v: V) -> Seq<(i64, V)>
    decreases s.len(),
{
    if s.len() == 0 || s.last().0 < k {
        s.push((k, v))
    } else if s.last().0 == k {
        s.drop_last().push((k, v))
    } else {
        put(s.drop_last(), k, v).push(s.last())
    }
}

/// The rows of `s` whose stamps do not lie in `lo..=hi`.
pub open spec fn outside<V>(s: Seq<(i64, V)>, lo: int, hi: int) -> Seq<(i64, V)>
    decreases s.len(),
{
    if s.len() == 0 {
        s
    } else if lo <= s.last().0 <= hi {
        outside(s.drop_last(), lo, hi)
    } else {
        outside(s.drop_last(), lo, hi).push(s.last())
    }
}

/// The rows of `s` whose stamps lie in `lo..=hi`.
pub open spec fn inside<V>(s: Seq<(i64, V)>, lo: int, hi: int) -> Seq<(i64, V)>
    decreases s.len(),
{
    if s.len() == 0 {
        s
    } else if lo <= s.last().0 <= hi {
        inside(s.drop_last(), lo, hi).push(s.last())
    } else {
        inside(s.drop_last(), lo, hi)
    }
}

/// The row at `k`.
pub open spec fn row_at<V>(s: Seq<(i64, V)>, k: i64) -> Option<V>
    decreases s.len(),
{
    if s.len() == 0 {
        None
    } else if s.last().0 == k {
        Some(s.last().1)
    } else {
        row_at(s.drop_last(), k)
    }
}

/// The last row at or before `k`.
pub open spec fn latest<V>(s: Seq<(i64, V)>, k: i64) -> Option<(i64, V)>
    decreases s.len(),
{
    if s.len() == 0 {
        None
    } else if s.last().0 <= k {
        Some(s.last())
    } else {
        latest(s.drop_last(), k)
    }
}

/// The first row of `s` at or after `k`.
pub open spec fn earliest<V>(s: Seq<(i64, V)>, k: i64) -> Option<(i64, V)>
    decreases s.len(),
{
    if s.len() == 0 {
        None
    } else if s[0].0 >= k {
        Some(s[0])
    } else {
        earliest(s.skip(1), k)
    }
}

/// The least stamp in `s` that is greater than `after`; every stamp is greater
/// than no stamp.
pub open spec fn least_after<V>(s: Seq<(i64, V)>, after: Option<i64>) -> Option<i64>
    decreases s.len(),
{
    if s.len() == 0 {
        None
    } else {
        lesser(least_after(s.drop_last(), after), if beyond(s.last().0, after) { Some(s.last().0) } else { None })
    }
}

/// `k` comes after the given stamp, if there is one.
pub open spec fn beyond(k: i64, after: Option<i64>) -> bool {
    match after {
        Some(a) => k > a,
        None => true,
    }
}

/// The lesser of two stamps, of which either may be missing.
pub open spec fn lesser(a: Option<i64>, b: Option<i64>) -> Option<i64> {
    match (a, b) {
        (Some(x), Some(y)) => if x <= y { Some(x) } else { Some(y) },
        (Some(x), None) => Some(x),
        (None, y) => y,
    }
}

/// The lesser of two stamps, of which either may be missing.
pub fn lesser_of(a: Option<i64>, b: Option<i64>) -> (r: Option<i64>)
    ensures
        r == lesser(a, b),
{
    match (a, b) {
        (Some(x), Some(y)) => if x <= y { Some(x) } else { Some(y) },
        (Some(x), None) => Some(x),
        (None, y) => y,
    }
}

/// What of a row is weighed.
#[derive(Clone, Copy)]
pub enum Share {
    /// What the row itself holds.
    Own,
    /// The file that the row keeps beside it.
    Side,
}

/// A row that counts against a byte budget.
pub trait Weighed: View {
    /// The bytes that a share of such a row counts for.
    spec fn weight(row: Self::V, share: Share) -> int;

    /// The bytes that a share of it counts for.
    fn weigh(&self, share: Share) -> (r: i128)
        ensures
            r == Self::weight(self@, share),
            -0x40_0000_0000_0000_0000i128 <= r <= 0x40_0000_0000_0000_0000i128,
    ;
}

/// The weights of one share of the rows, added up in their order; nothing where
/// a running total leaves the range of `i64`.
pub open spec fn sum_of<R: Weighed>(s: Seq<(i64, R::V)>, share: Share) -> Option<int>
    decreases s.len(),
{
    if s.len() == 0 {
        Some(0)
    } else {
        match sum_of::<R>(s.drop_last(), share) {
            Some(a) => {
                let b = a + R::weight(s.last().1, share);
                if i64::MIN <= b <= i64::MAX {
                    Some(b)
                } else {
                    None
                }
            },
            None => None,
        }
    }
}

/// The total weight of the rows; none where it cannot be added up.
pub open spec fn total_of<R: Weighed>(s: Seq<(i64, R::V)>) -> int {
    match (sum_of::<R>(s, Share::Own), sum_of::<R>(s, Share::Side)) {
        (Some(a), Some(b)) => if i64::MIN <= a + b <= i64::MAX {
            a + b
        } else {
            0
        },
        _ => 0,
    }
}

/// Rows under time stamps.
pub struct Table<R> {
    pub rows: Vec<(i64, R)>,
}

/// What a list of rows says.
pub open spec fn rows_view<R: View>(rows: Seq<(i64, R)>) -> Seq<(i64, R::V)> {
    rows.map_values(|r: (i64, R)| (r.0, r.1@))
}

impl<R: View> View for Table<R> {
    type V = Seq<(i64, R::V)>;

    open spec fn view(&self) -> Seq<(i64, R::V)> {
        rows_view(self.rows@)
    }
}

proof fn lemma_put_at<V>(s: Seq<(i64, V)>, k: i64, v: V, i: int)
    requires
        sorted(s),
        0 <= i <= s.len(),
        forall|j: int| 0 <= j < i ==> s[j].0 < k,
        forall|j: int| i <= j < s.len() ==> s[j].0 >= k,
    ensures
        i < s.len() && s[i].0 == k ==> put(s, k, v) == s.update(i, (k, v)),
        !(i < s.len() && s[i].0 == k) ==> put(s, k, v) == s.insert(i, (k, v)),
    decreases s.len(),
{
    if s.len() == 0 || s.last().0 < k {
        assert(i == s.len());
        assert(s.insert(i, (k, v)) =~= s.push((k, v)));
    } else if s.last().0 == k {
        assert(s[s.len() - 1].0 == k);
        if i < s.len() - 1 {
            assert(s[i].0 < s[s.len() - 1].0);
        }
        assert(i == s.len() - 1);
        assert(s.update(i, (k, v)) =~= s.drop_last().push((k, v)));
    } else {
        lemma_put_at(s.drop_last(), k, v, i);
        if i < s.len() && s[i].0 == k {
            assert(s.update(i, (k, v)) =~= s.drop_last().update(i, (k, v)).push(s.last()));
        } else {
            assert(s.insert(i, (k, v)) =~= s.drop_last().insert(i, (k, v)).push(s.last()));
        }
    }
}

/// A row put at `k` is the one found there; the rows elsewhere stay, in order.
pub proof fn lemma_put<V>(s: Seq<(i64, V)>, k: i64, v: V)
    requires
        sorted(s),
    ensures
        sorted(put(s, k, v)),
        row_at(put(s, k, v), k) == Some(v),
        forall|m: i64| m != k ==> #[trigger] row_at(put(s, k, v), m) == row_at(s, m),
        forall|m: i64| #[trigger] has_key(put(s, k, v), m) <==> m == k || has_key(s, m),
        put(s, k, v).len() == (if has_key(s, k) { s.len() } else { s.len() + 1 }),
    decreases s.len(),
{
    let r = put(s, k, v);
    assert(s.len() > 0 && s.last().0 > k ==> put(s.drop_last(), k, v) =~= r.drop_last());
    if s.len() > 0 && s.last().0 > k {
        lemma_put(s.drop_last(), k, v);
    }
    assert forall|m: i64| m != k implies #[trigger] row_at(r, m) == row_at(s, m) by {
        if s.len() == 0 || s.last().0 < k {
            assert(r.drop_last() =~= s);
        } else if s.last().0 == k {
            assert(r.drop_last() =~= s.drop_last());
        } else {
            assert(row_at(r.drop_last(), m) == row_at(s.drop_last(), m));
        }
    }
    if s.len() == 0 || s.last().0 < k {
        assert(r.drop_last() =~= s);
        assert(r[s.len() as int] == (k, v));
        assert forall|m: i64| #[trigger] has_key(r, m) <==> m == k || has_key(s, m) by {
            if has_key(s, m) {
                let i = choose|i: int| 0 <= i < s.len() && s[i].0 == m;
                assert(r[i].0 == m);
            }
            if has_key(r, m) && m != k {
                let i = choose|i: int| 0 <= i < r.len() && r[i].0 == m;
                assert(s[i].0 == m);
            }
        }
        if has_key(s, k) {
            let i = choose|i: int| 0 <= i < s.len() && s[i].0 == k;
            assert(s[i].0 <= s.last().0);
        }
    } else if s.last().0 == k {
        assert(r.drop_last() =~= s.drop_last());
        assert(s[s.len() - 1].0 == k);
        assert forall|m: i64| #[trigger] has_key(r, m) <==> m == k || has_key(s, m) by {
            if has_key(s, m) {
                let i = choose|i: int| 0 <= i < s.len() && s[i].0 == m;
                assert(r[i].0 == m);
            }
            if has_key(r, m) {
                let i = choose|i: int| 0 <= i < r.len() && r[i].0 == m;
                assert(s[i].0 == m);
            }
            assert(r[s.len() - 1].0 == k);
        }
    } else {
        let f = s.drop_last();
        let q = put(f, k, v);
        assert(r.drop_last() =~= q);
        assert forall|i: int, j: int| 0 <= i < j < r.len() implies r[i].0 < r[j].0 by {
            if j == r.len() - 1 {
                assert(has_key(q, q[i].0));
                if q[i].0 != k {
                    let x = choose|x: int| 0 <= x < f.len() && f[x].0 == q[i].0;
                    assert(s[x].0 < s.last().0);
                }
            }
        }
        assert forall|m: i64| #[trigger] has_key(r, m) <==> m == k || has_key(s, m) by {
            if has_key(r, m) {
                let i = choose|i: int| 0 <= i < r.len() && r[i].0 == m;
                if i < q.len() {
                    assert(q[i].0 == m);
                    assert(has_key(q, m));
                    if m != k {
                        let x = choose|x: int| 0 <= x < f.len() && f[x].0 == m;
                        assert(s[x].0 == m);
                    }
                } else {
                    assert(s[s.len() - 1].0 == m);
                }
            }
            if m == k || has_key(s, m) {
                if m == s.last().0 {
                    assert(r[r.len() - 1].0 == m);
                } else {
                    if m != k {
                        let x = choose|x: int| 0 <= x < s.len() && s[x].0 == m;
                        assert(f[x].0 == m);
                    }
                    assert(has_key(q, m));
                    let i = choose|i: int| 0 <= i < q.len() && q[i].0 == m;
                    assert(r[i].0 == m);
                }
            }
        }
        assert(has_key(s, k) <==> has_key(f, k)) by {
            if has_key(s, k) {
                let x = choose|x: int| 0 <= x < s.len() && s[x].0 == k;
                assert(f[x].0 == k);
            }
            if has_key(f, k) {
                let x = choose|x: int| 0 <= x < f.len() && f[x].0 == k;
                assert(s[x].0 == k);
            }
        }
    }
}

impl<R: View> Table<R> {
    /// A table without rows.
    pub fn new() -> (r: Self)
        ensures
            r@ == Seq::<(i64, R::V)>::empty(),
    {
        let t = Table { rows: Vec::new() };
        assert(t@ =~= Seq::<(i64, R::V)>::empty());
        t
    }

    /// Make `v` the row at `k`.
    pub fn put(&mut self, k: i64, v: R)
        requires
            sorted(old(self)@),
        ensures
            final(self)@ == put(old(self)@, k, v@),
    {
        let mut i: usize = 0;
        let ghost was = self@;
        let ghost row = (k, v@);
        while i < self.rows.len() && self.rows[i].0 < k
            invariant
                i <= self.rows@.len(),
                self@ == was,
                forall|j: int| 0 <= j < i ==> (#[trigger] was[j]).0 < k,
            decreases self.rows@.len() - i,
        {
            i += 1;
        }
        proof {
            assert forall|j: int| i <= j < was.len() implies (#[trigger] was[j]).0 >= k by {
                if j > i {
                    assert(was[i as int].0 < was[j].0);
                }
            }
            lemma_put_at(was, k, v@, i as int);
        }
        if i < self.rows.len() && self.rows[i].0 == k {
            self.rows.set(i, (k, v));
            assert(self@ =~= was.update(i as int, row));
        } else {
            self.rows.insert(i, (k, v));
            assert(self@ =~= was.insert(i as int, row));
        }
    }

    /// Add `v` as the last row, whatever its stamp.
    pub fn push(&mut self, k: i64, v: R)
        ensures
            final(self)@ == old(self)@.push((k, v@)),
    {
        self.rows.push((k, v));
        assert(self@ =~= old(self)@.push((k, v@)));
    }

    /// Remove the rows with a stamp in `lo..=hi`; the number of rows removed.
    pub fn drop_range(&mut self, lo: i64, hi: i64) -> (n: usize)
        ensures
            final(self)@ == outside(old(self)@, lo as int, hi as int),
            n == old(self)@.len() - final(self)@.len(),
    {
        let mut taken: Vec<(i64, R)> = Vec::new();
        std::mem::swap(&mut taken, &mut self.rows);
        let ghost rows = old(self).rows@;
        let ghost all = old(self)@;
        let mut kept: Vec<(i64, R)> = Vec::new();
        let count: usize = taken.len();
        assert(all.take(0) =~= Seq::<(i64, R::V)>::empty());
        assert(rows_view(kept@) =~= Seq::<(i64, R::V)>::empty());
        for r in it: taken
            invariant
                it.seq() == rows,
                all == rows_view(rows),
                rows_view(kept@) == outside(all.take(it.index() as int), lo as int, hi as int),
                kept@.len() <= it.index(),
        {
            assert(all.take(it.index() + 1).drop_last() =~= all.take(it.index() as int));
            assert(all.take(it.index() + 1).last() == all[it.index() as int]);
            if !(lo <= r.0 && r.0 <= hi) {
                let ghost was = rows_view(kept@);
                kept.push(r);
                assert(rows_view(kept@) =~= was.push((r.0, r.1@)));
            }
        }
        assert(all.take(all.len() as int) =~= all);
        let n: usize = count - kept.len();
        self.rows = kept;
        n
    }
}

/// Removing a range takes away the rows in it and keeps the others, in order.
pub proof fn lemma_outside<V>(s: Seq<(i64, V)>, lo: int, hi: int)
    ensures
        sorted(s) ==> sorted(outside(s, lo, hi)),
        outside(s, lo, hi).len() + inside(s, lo, hi).len() == s.len(),
        forall|m: i64| #[trigger] has_key(outside(s, lo, hi), m) <==> has_key(s, m) && !(lo <= m <= hi),
        forall|m: i64|
            #[trigger] row_at(outside(s, lo, hi), m) == (if lo <= m <= hi { None } else { row_at(s, m) }),
    decreases s.len(),
{
    let r = outside(s, lo, hi);
    if s.len() > 0 {
        let f = s.drop_last();
        let q = outside(f, lo, hi);
        lemma_outside(f, lo, hi);
        lemma_has_key_split(s);
        assert forall|m: i64| #[trigger] row_at(r, m) == (if lo <= m <= hi { None } else { row_at(s, m) }) by {
            assert(row_at(q, m) == (if lo <= m <= hi { None } else { row_at(f, m) }));
            if !(lo <= s.last().0 <= hi) {
                assert(r.drop_last() =~= q);
            }
        }
        if !(lo <= s.last().0 <= hi) {
            assert(r.drop_last() =~= q);
            lemma_has_key_split(r);
            if sorted(s) {
                assert forall|i: int, j: int| 0 <= i < j < r.len() implies r[i].0 < r[j].0 by {
                    if j == r.len() - 1 {
                        assert(has_key(q, q[i].0));
                        let x = choose|x: int| 0 <= x < f.len() && f[x].0 == q[i].0;
                        assert(s[x].0 < s[s.len() - 1].0);
                    }
                }
            }
        }
    }
}

/// A stamp is in a list if it is the last one or among those before it.
pub proof fn lemma_has_key_split<V>(s: Seq<(i64, V)>)
    requires
        s.len() > 0,
    ensures
        forall|m: i64| #[trigger] has_key(s, m) <==> m == s.last().0 || has_key(s.drop_last(), m),
{
    assert forall|m: i64| #[trigger] has_key(s, m) <==> m == s.last().0 || has_key(s.drop_last(), m) by {
        if has_key(s, m) {
            let i = choose|i: int| 0 <= i < s.len() && s[i].0 == m;
            if i < s.len() - 1 {
                assert(s.drop_last()[i].0 == m);
            }
        }
        if m == s.last().0 {
            assert(s[s.len() - 1].0 == m);
        }
        if has_key(s.drop_last(), m) {
            let i = choose|i: int| 0 <= i < s.drop_last().len() && s.drop_last()[i].0 == m;
            assert(s[i].0 == m);
        }
    }
}

/// A stamp has a row where it is in the list.
pub proof fn lemma_row_at<V>(s: Seq<(i64, V)>, k: i64)
    ensures
        row_at(s, k) is Some <==> has_key(s, k),
    decreases s.len(),
{
    if s.len() > 0 {
        lemma_row_at(s.drop_last(), k);
        lemma_has_key_split(s);
    }
}

/// The least stamp after another is in the list, and no other one lies between.
pub proof fn lemma_least_after<V>(s: Seq<(i64, V)>, after: Option<i64>)
    ensures
        match least_after(s, after) {
            Some(k) => {
                &&& has_key(s, k)
                &&& beyond(k, after)
                &&& forall|m: i64| #[trigger] has_key(s, m) && beyond(m, after) ==> k <= m
            },
            None => forall|m: i64| #[trigger] has_key(s, m) ==> !beyond(m, after),
        },
    decreases s.len(),
{
    if s.len() > 0 {
        lemma_least_after(s.drop_last(), after);
        lemma_has_key_split(s);
    }
}

/// The latest row at or before a stamp is in the list, and none lies between.
pub proof fn lemma_latest<V>(s: Seq<(i64, V)>, k: i64)
    requires
        sorted(s),
    ensures
        match latest(s, k) {
            Some(r) => {
                &&& has_key(s, r.0)
                &&& r.0 <= k
                &&& row_at(s, r.0) == Some(r.1)
                &&& forall|m: i64| #[trigger] has_key(s, m) && m <= k ==> m <= r.0
            },
            None => forall|m: i64| #[trigger] has_key(s, m) ==> m > k,
        },
    decreases s.len(),
{
    if s.len() > 0 {
        lemma_latest(s.drop_last(), k);
        lemma_has_key_split(s);
        assert forall|m: i64| #[trigger] has_key(s, m) implies m <= s.last().0 by {
            let i = choose|i: int| 0 <= i < s.len() && s[i].0 == m;
            assert(i < s.len() - 1 ==> s[i].0 < s[s.len() - 1].0);
        }
        if s.last().0 > k && latest(s.drop_last(), k) is Some {
            let r = latest(s.drop_last(), k).unwrap();
            assert(has_key(s.drop_last(), r.0));
            assert(r.0 != s.last().0);
        }
    }
}

impl<R: View> Table<R> {
    /// The row at `k`.
    pub fn get(&self, k: i64) -> (r: Option<&R>)
        ensures
            match row_at(self@, k) {
                Some(v) => r matches Some(x) && x@ == v,
                None => r is None,
            },
    {
        let mut i: usize = self.rows.len();
        assert(self@.take(i as int) =~= self@);
        while i > 0
            invariant
                i <= self.rows@.len(),
                row_at(self@, k) == row_at(self@.take(i as int), k),
            decreases i,
        {
            assert(self@.take(i as int).drop_last() =~= self@.take(i - 1));
            assert(self@.take(i as int).last() == self@[i - 1]);
            if self.rows[i - 1].0 == k {
                return Some(&self.rows[i - 1].1);
            }
            i -= 1;
        }
        None
    }

    /// There is a row at `k`.
    pub fn contains(&self, k: i64) -> (r: bool)
        ensures
            r == has_key(self@, k),
    {
        proof {
            lemma_row_at(self@, k);
        }
        self.get(k).is_some()
    }

    /// The last row at or before `k`.
    pub fn latest(&self, k: i64) -> (r: Option<&(i64, R)>)
        ensures
            match latest(self@, k) {
                Some(v) => r matches Some(x) && x.0 == v.0 && x.1@ == v.1,
                None => r is None,
            },
    {
        let mut i: usize = self.rows.len();
        assert(self@.take(i as int) =~= self@);
        while i > 0
            invariant
                i <= self.rows@.len(),
                latest(self@, k) == latest(self@.take(i as int), k),
            decreases i,
        {
            assert(self@.take(i as int).drop_last() =~= self@.take(i - 1));
            assert(self@.take(i as int).last() == self@[i - 1]);
            if self.rows[i - 1].0 <= k {
                return Some(&self.rows[i - 1]);
            }
            i -= 1;
        }
        None
    }

    /// The first row at or after `k`.
    pub fn earliest(&self, k: i64) -> (r: Option<&(i64, R)>)
        ensures
            match earliest(self@, k) {
                Some(v) => r matches Some(x) && x.0 == v.0 && x.1@ == v.1,
                None => r is None,
            },
    {
        let mut i: usize = 0;
        assert(self@.skip(0) =~= self@);
        while i < self.rows.len()
            invariant
                i <= self.rows@.len(),
                earliest(self@, k) == earliest(self@.skip(i as int), k),
            decreases self.rows@.len() - i,
        {
            assert(self@.skip(i as int).skip(1) =~= self@.skip(i + 1));
            assert(self@.skip(i as int)[0] == self@[i as int]);
            if self.rows[i].0 >= k {
                return Some(&self.rows[i]);
            }
            i += 1;
        }
        None
    }

    /// The least stamp greater than `after`.
    pub fn least_after(&self, after: Option<i64>) -> (r: Option<i64>)
        ensures
            r == least_after(self@, after),
    {
        let mut best: Option<i64> = None;
        let mut i: usize = 0;
        assert(self@.take(0) =~= Seq::<(i64, R::V)>::empty());
        while i < self.rows.len()
            invariant
                i <= self.rows@.len(),
                best == least_after(self@.take(i as int), after),
            decreases self.rows@.len() - i,
        {
            assert(self@.take(i + 1).drop_last() =~= self@.take(i as int));
            let k = self.rows[i].0;
            let counts = match after {
                Some(a) => k > a,
                None => true,
            };
            best = lesser_of(best, if counts { Some(k) } else { None });
            i += 1;
        }
        assert(self@.take(self.rows@.len() as int) =~= self@);
        best
    }
}

impl<R: View + Clone> Table<R> {
    /// A copy of the table, of rows whose clones say the same.
    pub fn copy(&self) -> (r: Self)
        requires
            forall|a: R, b: R| #[trigger] cloned(a, b) ==> a@ == b@,
        ensures
            r@ == self@,
    {
        let mut rows: Vec<(i64, R)> = Vec::new();
        let mut i: usize = 0;
        assert(rows_view(rows@) =~= self@.take(0));
        while i < self.rows.len()
            invariant
                i <= self.rows@.len(),
                rows_view(rows@) == self@.take(i as int),
                forall|a: R, b: R| #[trigger] cloned(a, b) ==> a@ == b@,
            decreases self.rows@.len() - i,
        {
            let v = self.rows[i].1.clone();
            assert(cloned(self.rows@[i as int].1, v));
            let ghost was = rows_view(rows@);
            rows.push((self.rows[i].0, v));
            assert(rows_view(rows@) =~= was.push((self.rows@[i as int].0, v@)));
            i += 1;
            assert(rows_view(rows@) =~= self@.take(i as int));
        }
        assert(self@.take(i as int) =~= self@);
        Table { rows }
    }
}

impl<R: Weighed> Table<R> {
    fn sum(&self, share: Share) -> (r: Option<i64>)
        ensures
            match sum_of::<R>(self@, share) {
                Some(n) => r matches Some(x) && x == n,
                None => r is None,
            },
    {
        let mut sum: i128 = 0;
        let mut i: usize = 0;
        assert(self@.take(0) =~= Seq::<(i64, R::V)>::empty());
        while i < self.rows.len()
            invariant
                i <= self.rows@.len(),
                i64::MIN <= sum <= i64::MAX,
                sum_of::<R>(self@.take(i as int), share) == Some(sum as int),
            decreases self.rows@.len() - i,
        {
            assert(self@.take(i + 1).drop_last() =~= self@.take(i as int));
            assert(self@.take(i + 1).last() == self@[i as int]);
            let next: i128 = sum + self.rows[i].1.weigh(share);
            if next < i64::MIN as i128 || next > i64::MAX as i128 {
                proof {
                    lemma_sum_lost::<R>(self@, share, i + 1);
                }
                return None;
            }
            sum = next;
            i += 1;
        }
        assert(self@.take(self.rows@.len() as int) =~= self@);
        Some(sum as i64)
    }

    /// The total weight of the rows; none where it cannot be added up.
    pub fn total(&self) -> (r: i64)
        ensures
            r == total_of::<R>(self@),
    {
        match (self.sum(Share::Own), self.sum(Share::Side)) {
            (Some(a), Some(b)) => {
                let n: i128 = a as i128 + b as i128;
                if n < i64::MIN as i128 || n > i64::MAX as i128 {
                    0
                } else {
                    n as i64
                }
            },
            _ => 0,
        }
    }
}

proof fn lemma_sum_lost<R: Weighed>(s: Seq<(i64, R::V)>, share: Share, k: int)
    requires
        0 <= k <= s.len(),
        sum_of::<R>(s.take(k), share) is None,
    ensures
        sum_of::<R>(s, share) is None,
    decreases s.len() - k,
{
    if k < s.len() {
        assert(s.take(k + 1).drop_last() =~= s.take(k));
        lemma_sum_lost::<R>(s, share, k + 1);
    } else {
        assert(s.take(k) =~= s);
    }
}

/// One more row after the others adds both of its shares to the total weight, as
/// long as the numbers fit.
pub proof fn law_one_more_row_weighs<R: Weighed>(s: Seq<(i64, R::V)>, k: i64, v: R::V)
    requires
        sum_of::<R>(s, Share::Own) is Some,
        sum_of::<R>(s, Share::Side) is Some,
        ({
            let a = sum_of::<R>(s, Share::Own).unwrap();
            let b = sum_of::<R>(s, Share::Side).unwrap();
            let c = R::weight(v, Share::Own);
            let d = R::weight(v, Share::Side);
            &&& i64::MIN <= a + c <= i64::MAX
            &&& i64::MIN <= b + d <= i64::MAX
            &&& i64::MIN <= a + b <= i64::MAX
            &&& i64::MIN <= a + b + c + d <= i64::MAX
        }),
    ensures
        total_of::<R>(s.push((k, v))) == total_of::<R>(s) + R::weight(v, Share::Own) + R::weight(v, Share::Side),
        total_of::<R>(Seq::<(i64, R::V)>::empty()) == 0,
{
    assert(s.push((k, v)).drop_last() =~= s);
}

/// Of the rows in order, the latest at or before a stamp is the one after which
/// the next row comes later; there is none where the first comes later.
pub proof fn law_the_latest_row<V>(s: Seq<(i64, V)>, k: i64, j: int)
    requires
        sorted(s),
    ensures
        0 <= j < s.len() && s[j].0 <= k && (j + 1 < s.len() ==> s[j + 1].0 > k) ==> latest(s, k) == Some(s[j]),
        s.len() > 0 && s[0].0 > k ==> latest(s, k) is None,
        s.len() == 0 ==> latest(s, k) is None,
    decreases s.len(),
{
    if s.len() > 0 {
        let d = s.drop_last();
        law_the_latest_row(d, k, j);
        let last = s.len() - 1;
        if 0 <= j < last && (j + 1 < s.len() ==> s[j + 1].0 > k) {
            assert(j + 1 == last || s[j + 1].0 < s[last].0);
        }
        if s[0].0 > k {
            assert(last == 0 || s[0].0 < s[last].0);
        }
    }
}

} // verus!
