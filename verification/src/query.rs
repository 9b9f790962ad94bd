//! What a search asks for and what it shows of a text that it found.
use crate::rows::BoxRow;
pub use crate::rows::WordBox;
use crate::text::{
    self, bytes_in, joined, lemma_bytes_prefix, lemma_bytes_push, lemma_pieces_run, lower, occurs_at, pieces,
    views, words, Separator,
};
use vstd::prelude::*;

verus! {

/// A frame that a search found.
#[derive(Debug)]
pub struct Hit {
    pub ts: i64,
    pub path: String,
    pub app: String,
    pub title: String,
    pub snippet: String,
    pub boxes: Vec<WordBox>,
}

/// What a frame that a search found says.
#[verifier::ext_equal]
pub struct HitRow {
    pub ts: i64,
    pub path: Seq<char>,
    pub app: Seq<char>,
    pub title: Seq<char>,
    pub snippet: Seq<char>,
    pub boxes: Seq<BoxRow>,
}

impl View for Hit {
    type V = HitRow;

    open spec fn view(&self) -> HitRow {
        HitRow {
            ts: self.ts,
            path: self.path@,
            app: self.app@,
            title: self.title@,
            snippet: self.snippet@,
            boxes: crate::lookup::box_rows(self.boxes@),
        }
    }
}

/// A character that may stand in a search term.
pub open spec fn is_term_char(c: char) -> bool {
    ||| 'a' <= c && c <= 'z'
    ||| 'A' <= c && c <= 'Z'
    ||| '0' <= c && c <= '9'
    ||| c == '-'
    ||| c == '_'
}

/// The characters of a word that may stand in a search term.
pub open spec fn cleaned(s: Seq<char>) -> Seq<char>
    decreases s.len(),
{
    if s.len() == 0 {
        s
    } else if is_term_char(s.last()) {
        cleaned(s.drop_last()).push(s.last())
    } else {
        cleaned(s.drop_last())
    }
}

/// A word in quotes.
pub open spec fn quoted(s: Seq<char>) -> Seq<char> {
    seq!['"'] + s + seq!['"']
}

/// The search terms that words give.
pub open spec fn terms(ws: Seq<Seq<char>>) -> Seq<Seq<char>>
    decreases ws.len(),
{
    if ws.len() == 0 {
        ws
    } else {
        let front = terms(ws.drop_last());
        let c = cleaned(ws.last());
        if c.len() == 0 {
            front
        } else {
            front.push(quoted(c))
        }
    }
}

/// A query as the full-text index takes it: all terms must be there.
pub open spec fn fts_query(q: Seq<char>) -> Seq<char> {
    let ts = terms(words(q));
    if ts.len() == 0 {
        seq!['"', '"']
    } else {
        joined(ts, " AND "@)
    }
}

fn term_char(c: char) -> (r: bool)
    ensures
        r == is_term_char(c),
{
    ('a' <= c && c <= 'z') || ('A' <= c && c <= 'Z') || ('0' <= c && c <= '9') || c == '-' || c == '_'
}

fn clean(w: &Vec<char>) -> (r: Vec<char>)
    ensures
        r@ == cleaned(w@),
{
    let mut out: Vec<char> = Vec::new();
    let mut i: usize = 0;
    assert(w@.take(0) =~= Seq::<char>::empty());
    while i < w.len()
        invariant
            i <= w@.len(),
            out@ == cleaned(w@.take(i as int)),
        decreases w@.len() - i,
    {
        assert(w@.take(i + 1).drop_last() =~= w@.take(i as int));
        if term_char(w[i]) {
            out.push(w[i]);
        }
        i += 1;
    }
    assert(w@.take(i as int) =~= w@);
    out
}

fn quote(w: &Vec<char>) -> (r: Vec<char>)
    ensures
        r@ == quoted(w@),
{
    let mut out: Vec<char> = Vec::new();
    out.push('"');
    let mut i: usize = 0;
    while i < w.len()
        invariant
            i <= w@.len(),
            out@ == seq!['"'] + w@.take(i as int),
        decreases w@.len() - i,
    {
        out.push(w[i]);
        i += 1;
        assert(out@ =~= seq!['"'] + w@.take(i as int));
    }
    assert(w@.take(i as int) =~= w@);
    out.push('"');
    assert(out@ =~= quoted(w@));
    out
}

/// A query as the full-text index takes it.
pub fn to_fts(q: &str) -> (r: String)
    ensures
        r@ == fts_query(q@),
{
    let ws = text::words_of(q);
    let ghost all = words(q@);
    let mut parts: Vec<Vec<char>> = Vec::new();
    let mut i: usize = 0;
    assert(all.take(0) =~= Seq::<Seq<char>>::empty());
    assert(views(parts@) =~= Seq::<Seq<char>>::empty());
    while i < ws.len()
        invariant
            i <= ws@.len(),
            all == views(ws@),
            views(parts@) == terms(all.take(i as int)),
        decreases ws@.len() - i,
    {
        assert(all.take(i + 1).drop_last() =~= all.take(i as int));
        assert(all.take(i + 1).last() == ws@[i as int]@);
        let c = clean(&ws[i]);
        if c.len() > 0 {
            let ghost was = views(parts@);
            let t = quote(&c);
            let ghost added = t@;
            parts.push(t);
            assert(views(parts@) =~= was.push(added));
        }
        i += 1;
    }
    assert(all.take(i as int) =~= all);
    assert(views(parts@).len() == parts@.len());
    if parts.len() == 0 {
        let mut s = String::new();
        s.push('"');
        s.push('"');
        assert(s@ =~= seq!['"', '"']);
        s
    } else {
        text::join(&parts, " AND ")
    }
}

/// Every term of a query is a quoted word of letters, digits, hyphens and
/// underscores, so that nothing in it is taken for an operator.
pub proof fn law_terms_are_plain(ws: Seq<Seq<char>>, i: int)
    requires
        0 <= i < terms(ws).len(),
    ensures
        exists|w: Seq<char>|
            #[trigger] quoted(w) == terms(ws)[i] && w.len() > 0 && forall|j: int|
                0 <= j < w.len() ==> is_term_char(#[trigger] w[j]),
    decreases ws.len(),
{
    let front = terms(ws.drop_last());
    if i < front.len() {
        law_terms_are_plain(ws.drop_last(), i);
    } else {
        let c = cleaned(ws.last());
        lemma_cleaned(ws.last());
        assert(quoted(c) == terms(ws)[i]);
    }
}

proof fn lemma_cleaned(s: Seq<char>)
    ensures
        forall|j: int| 0 <= j < cleaned(s).len() ==> is_term_char(#[trigger] cleaned(s)[j]),
    decreases s.len(),
{
    if s.len() > 0 {
        let f = cleaned(s.drop_last());
        lemma_cleaned(s.drop_last());
        assert forall|j: int| 0 <= j < cleaned(s).len() implies is_term_char(#[trigger] cleaned(s)[j]) by {
            if j < f.len() {
                assert(cleaned(s)[j] == f[j]);
            }
        }
    }
}

/// A character of a text may stand in a search term.
pub open spec fn has_term_char(s: Seq<char>) -> bool {
    exists|i: int| 0 <= i < s.len() && is_term_char(#[trigger] s[i])
}

/// A text without the characters that neither stand in a search term nor part
/// one word from the next.
pub open spec fn plain(q: Seq<char>) -> Seq<char>
    decreases q.len(),
{
    if q.len() == 0 {
        q
    } else if is_term_char(q.last()) || text::is_space(q.last()) {
        plain(q.drop_last()).push(q.last())
    } else {
        plain(q.drop_last())
    }
}

/// Two queries with a space between them ask for what both of them ask for.
pub proof fn law_both_queries_must_match(a: Seq<char>, b: Seq<char>)
    requires
        has_term_char(a),
        has_term_char(b),
    ensures
        fts_query(a.push(' ') + b) == fts_query(a) + " AND "@ + fts_query(b),
{
    text::lemma_pieces_joined(a, ' ', b, Separator::Space);
    lemma_terms_of_pieces(a);
    lemma_terms_of_pieces(b);
    lemma_terms_of_pieces(a.push(' ') + b);
    lemma_terms_both(pieces(a, Separator::Space), pieces(b, Separator::Space));
    lemma_term_found(a);
    lemma_term_found(b);
    text::lemma_joined_both(terms(words(a)), terms(words(b)), " AND "@);
}

/// Characters that cannot stand in a search term do not matter: no quote and no
/// operator gets through. A query without any character that can is empty.
pub proof fn law_other_characters_do_not_matter(q: Seq<char>)
    ensures
        fts_query(plain(q)) == fts_query(q),
        !has_term_char(q) ==> fts_query(q) == seq!['"', '"'],
{
    lemma_terms_of_pieces(q);
    lemma_terms_of_pieces(plain(q));
    lemma_plain_pieces(q);
    let ps = pieces(q, Separator::Space);
    lemma_terms_cleaned(ps);
    if !has_term_char(q) {
        assert forall|i: int| 0 <= i < ps.len() implies cleaned(#[trigger] ps[i]).len() == 0 by {
            assert forall|j: int| 0 <= j < ps[i].len() implies !is_term_char(#[trigger] ps[i][j]) by {
                text::lemma_pieces_hold(q, Separator::Space, i, j);
                let k = choose|k: int| 0 <= k < q.len() && q[k] == ps[i][j];
                assert(!is_term_char(q[k]));
            }
            lemma_nothing_cleaned(ps[i]);
        }
        lemma_no_terms(ps);
    }
}

proof fn lemma_nothing_cleaned(s: Seq<char>)
    requires
        forall|j: int| 0 <= j < s.len() ==> !is_term_char(#[trigger] s[j]),
    ensures
        cleaned(s).len() == 0,
    decreases s.len(),
{
    if s.len() > 0 {
        let d = s.drop_last();
        assert forall|j: int| 0 <= j < d.len() implies !is_term_char(#[trigger] d[j]) by {
            assert(d[j] == s[j]);
        }
        lemma_nothing_cleaned(d);
        assert(!is_term_char(s[s.len() - 1]));
    }
}

proof fn lemma_no_terms(ps: Seq<Seq<char>>)
    requires
        forall|i: int| 0 <= i < ps.len() ==> cleaned(#[trigger] ps[i]).len() == 0,
    ensures
        terms(ps).len() == 0,
    decreases ps.len(),
{
    if ps.len() > 0 {
        let d = ps.drop_last();
        assert forall|i: int| 0 <= i < d.len() implies cleaned(#[trigger] d[i]).len() == 0 by {
            assert(d[i] == ps[i]);
        }
        lemma_no_terms(d);
        assert(cleaned(ps[ps.len() - 1]).len() == 0);
    }
}

/// Empty pieces give no terms.
proof fn lemma_terms_of_pieces(q: Seq<char>)
    ensures
        terms(words(q)) == terms(pieces(q, Separator::Space)),
{
    lemma_terms_filtered(pieces(q, Separator::Space));
}

proof fn lemma_terms_filtered(ps: Seq<Seq<char>>)
    ensures
        terms(ps.filter(|w: Seq<char>| w.len() > 0)) == terms(ps),
    decreases ps.len(),
{
    let keep = |w: Seq<char>| w.len() > 0;
    reveal(Seq::filter);
    if ps.len() > 0 {
        lemma_terms_filtered(ps.drop_last());
        let front = ps.drop_last().filter(keep);
        if keep(ps.last()) {
            assert(ps.filter(keep) == front.push(ps.last()));
            assert(front.push(ps.last()).drop_last() =~= front);
        }
    }
}

proof fn lemma_terms_both(a: Seq<Seq<char>>, b: Seq<Seq<char>>)
    ensures
        terms(a + b) == terms(a) + terms(b),
    decreases b.len(),
{
    if b.len() == 0 {
        assert(a + b =~= a);
        assert(terms(a) + terms(b) =~= terms(a));
    } else {
        lemma_terms_both(a, b.drop_last());
        assert((a + b).drop_last() =~= a + b.drop_last());
        assert((a + b).last() == b.last());
        assert(terms(a + b) =~= terms(a) + terms(b));
    }
}

/// Some piece of a text that has a character for a search term has one too.
proof fn lemma_piece_found(s: Seq<char>) -> (i: int)
    requires
        has_term_char(s),
    ensures
        0 <= i < pieces(s, Separator::Space).len(),
        cleaned(pieces(s, Separator::Space)[i]).len() > 0,
    decreases s.len(),
{
    let d = s.drop_last();
    let front = pieces(d, Separator::Space);
    text::lemma_pieces_some(d, Separator::Space);
    let last = front.last().push(s.last());
    assert(last.drop_last() =~= front.last());
    if is_term_char(s.last()) {
        front.len() - 1
    } else {
        let k = choose|k: int| 0 <= k < s.len() && is_term_char(#[trigger] s[k]);
        assert(is_term_char(d[k]));
        lemma_piece_found(d)
    }
}

proof fn lemma_term_found(s: Seq<char>)
    requires
        has_term_char(s),
    ensures
        terms(words(s)).len() > 0,
{
    let i = lemma_piece_found(s);
    lemma_terms_of_pieces(s);
    lemma_some_term(pieces(s, Separator::Space), i);
}

proof fn lemma_some_term(ps: Seq<Seq<char>>, i: int)
    requires
        0 <= i < ps.len(),
        cleaned(ps[i]).len() > 0,
    ensures
        terms(ps).len() > 0,
    decreases ps.len(),
{
    if i < ps.len() - 1 {
        lemma_some_term(ps.drop_last(), i);
    }
}

proof fn lemma_plain_pieces(q: Seq<char>)
    ensures
        pieces(plain(q), Separator::Space) == pieces(q, Separator::Space).map_values(|w: Seq<char>| cleaned(w)),
    decreases q.len(),
{
    let clean = |w: Seq<char>| cleaned(w);
    let ps = pieces(q, Separator::Space);
    if q.len() == 0 {
        assert(cleaned(Seq::<char>::empty()) =~= Seq::<char>::empty());
        assert(pieces(plain(q), Separator::Space) =~= ps.map_values(clean));
    } else {
        let d = q.drop_last();
        let c = q.last();
        lemma_plain_pieces(d);
        text::lemma_pieces_some(d, Separator::Space);
        let front = pieces(d, Separator::Space);
        let cleaner = pieces(plain(d), Separator::Space);
        assert(cleaner.last() == cleaned(front.last()));
        assert(front.last().push(c).drop_last() =~= front.last());
        assert(plain(d).push(c).drop_last() =~= plain(d));
        if text::is_space(c) {
            assert(cleaned(Seq::<char>::empty()) =~= Seq::<char>::empty());
            assert(pieces(plain(q), Separator::Space) =~= ps.map_values(clean));
        } else if is_term_char(c) {
            assert(pieces(plain(q), Separator::Space) =~= ps.map_values(clean));
        } else {
            assert(cleaned(front.last().push(c)) == cleaned(front.last()));
            assert(pieces(plain(q), Separator::Space) =~= ps.map_values(clean));
        }
    }
}

/// Terms are made of cleaned words, so that cleaning words beforehand does not
/// matter.
proof fn lemma_terms_cleaned(ps: Seq<Seq<char>>)
    ensures
        terms(ps.map_values(|w: Seq<char>| cleaned(w))) == terms(ps),
    decreases ps.len(),
{
    let clean = |w: Seq<char>| cleaned(w);
    if ps.len() > 0 {
        lemma_terms_cleaned(ps.drop_last());
        assert(ps.map_values(clean).drop_last() =~= ps.drop_last().map_values(clean));
        lemma_cleaned(ps.last());
        lemma_clean(cleaned(ps.last()));
    } else {
        assert(ps.map_values(clean) =~= ps);
    }
}

/// The first position from `i` on at which `needle` stands in `hay`.
pub open spec fn find_from(hay: Seq<char>, needle: Seq<char>, i: int) -> Option<int>
    decreases hay.len() + 1 - i,
{
    if i + needle.len() > hay.len() || i > hay.len() {
        None
    } else if occurs_at(hay, needle, i) {
        Some(i)
    } else {
        find_from(hay, needle, i + 1)
    }
}

proof fn lemma_find(hay: Seq<char>, needle: Seq<char>, i: int, r: Option<int>)
    requires
        0 <= i,
        match r {
            Some(p) => i <= p && occurs_at(hay, needle, p) && forall|j: int| 0 <= j < p ==> !occurs_at(hay, needle, j),
            None => !text::occurs(hay, needle),
        },
    ensures
        find_from(hay, needle, i) == r,
    decreases hay.len() + 1 - i,
{
    if i + needle.len() <= hay.len() && i <= hay.len() {
        if !occurs_at(hay, needle, i) {
            lemma_find(hay, needle, i + 1, r);
        }
    }
}

/// The position of the character that starts at a byte; the end of the text
/// counts as one.
pub open spec fn at_byte(s: Seq<char>, n: int) -> Option<int>
    decreases s.len(),
{
    if n == bytes_in(s) {
        Some(s.len() as int)
    } else if s.len() == 0 {
        None
    } else {
        at_byte(s.drop_last(), n)
    }
}

/// An ellipsis where something was left out.
pub open spec fn ellipsis(left_out: bool) -> Seq<char> {
    if left_out {
        seq!['…']
    } else {
        Seq::empty()
    }
}

/// What is shown of a text around the first place of a needle: a few bytes on
/// either side. Where these would cut a character in two, only the needle is
/// shown; where the needle is not in the text, its start is.
pub open spec fn snippet(hay: Seq<char>, needle: Seq<char>) -> Seq<char> {
    match find_from(lower(hay), lower(needle), 0) {
        Some(p) => {
            let idx = bytes_in(hay.take(p)) as int;
            let start = if idx >= 24 { idx - 24 } else { 0 };
            let far = idx + bytes_in(needle) + 24;
            let end = if far <= bytes_in(hay) { far } else { bytes_in(hay) as int };
            let middle = match (at_byte(hay, start), at_byte(hay, end)) {
                (Some(a), Some(b)) => hay.subrange(a, b),
                _ => needle,
            };
            ellipsis(start > 0) + middle + ellipsis(end < bytes_in(hay))
        },
        None => hay.take(if hay.len() <= 64 { hay.len() as int } else { 64 }),
    }
}

fn offset_of(v: &Vec<char>, p: usize, total: usize) -> (r: usize)
    requires
        p <= v@.len(),
        total == bytes_in(v@),
    ensures
        r == bytes_in(v@.take(p as int)),
        r <= total,
{
    let mut off: usize = 0;
    let mut i: usize = 0;
    assert(v@.take(0) =~= Seq::<char>::empty());
    assert(v@.take(v@.len() as int) =~= v@);
    while i < p
        invariant
            i <= p <= v@.len(),
            off == bytes_in(v@.take(i as int)),
            total == bytes_in(v@),
            v@.take(v@.len() as int) == v@,
        decreases p - i,
    {
        proof {
            assert(v@.take(i + 1) =~= v@.take(i as int).push(v@[i as int]));
            lemma_bytes_push(v@.take(i as int), v@[i as int]);
            lemma_bytes_prefix(v@, i + 1, v@.len() as int);
        }
        off += text::width_of(v[i]);
        i += 1;
    }
    proof {
        lemma_bytes_prefix(v@, p as int, v@.len() as int);
    }
    off
}

fn position_of(v: &Vec<char>, n: usize, total: usize) -> (r: Option<usize>)
    requires
        total == bytes_in(v@),
    ensures
        match at_byte(v@, n as int) {
            Some(a) => r matches Some(x) && x == a && x <= v@.len(),
            None => r is None,
        },
{
    let mut i: usize = v.len();
    let mut off: usize = total;
    assert(v@.take(i as int) =~= v@);
    loop
        invariant
            i <= v@.len(),
            at_byte(v@, n as int) == at_byte(v@.take(i as int), n as int),
            off == bytes_in(v@.take(i as int)),
        decreases i,
    {
        if off == n {
            return Some(i);
        }
        if i == 0 {
            return None;
        }
        proof {
            assert(v@.take(i as int).drop_last() =~= v@.take(i - 1));
            assert(v@.take(i as int) =~= v@.take(i - 1).push(v@[i - 1]));
            lemma_bytes_push(v@.take(i - 1), v@[i - 1]);
        }
        off -= text::width_of(v[i - 1]);
        i -= 1;
    }
}

/// What is shown of a text around the first place of a needle.
pub fn snippet_around(hay: &str, needle: &str) -> (r: String)
    ensures
        r@ == snippet(hay@, needle@),
{
    let v = text::chars_of(hay);
    let low = text::chars_of(text::to_lower(hay).as_str());
    let nlow = text::chars_of(text::to_lower(needle).as_str());
    let found = text::find_chars(&low, &nlow);
    proof {
        lemma_find(
            lower(hay@),
            lower(needle@),
            0,
            match found {
                Some(i) => Some(i as int),
                None => None,
            },
        );
    }
    match found {
        Some(p) => {
            let total = text::byte_len(hay);
            let size = text::byte_len(needle);
            let idx = offset_of(&v, p, total);
            let start: usize = if idx >= 24 { idx - 24 } else { 0 };
            let far: u128 = idx as u128 + size as u128 + 24;
            let end: usize = if far <= total as u128 { far as usize } else { total };
            let mut s = String::new();
            if start > 0 {
                s.push('…');
            }
            assert(s@ =~= ellipsis(start > 0));
            let ghost head = s@;
            match (position_of(&v, start, total), position_of(&v, end, total)) {
                (Some(a), Some(b)) => {
                    proof {
                        lemma_at_byte(hay@, start as int);
                        lemma_at_byte(hay@, end as int);
                        if a > b {
                            lemma_bytes_prefix(hay@, b as int, a as int);
                        }
                    }
                    let middle = text::slice(&v, a, b);
                    let m = text::string_of(&middle);
                    s.append(m.as_str());
                },
                _ => {
                    s.append(needle);
                },
            }
            if end < total {
                s.push('…');
            }
            assert(s@ =~= snippet(hay@, needle@));
            s
        },
        None => {
            let n: usize = if v.len() <= 64 { v.len() } else { 64 };
            let head = text::slice(&v, 0, n);
            assert(head@ =~= hay@.take(n as int));
            text::string_of(&head)
        },
    }
}

proof fn lemma_at_byte(s: Seq<char>, n: int)
    ensures
        at_byte(s, n) matches Some(a) ==> 0 <= a <= s.len() && bytes_in(s.take(a)) == n,
    decreases s.len(),
{
    if n == bytes_in(s) {
        assert(s.take(s.len() as int) =~= s);
    } else if s.len() > 0 {
        lemma_at_byte(s.drop_last(), n);
        if at_byte(s, n) is Some {
            let a = at_byte(s, n).unwrap();
            assert(s.take(a) =~= s.drop_last().take(a));
        }
    }
}

/// The time over which bytes were kept, where an estimate can be made of it.
pub open spec fn span_of_use(bytes: i64, cap: i64, first_ts: i64, now: i64) -> Option<int> {
    if bytes < 8_192 || cap <= 0 || first_ts <= 0 || now - first_ts < 60_000 {
        None
    } else {
        Some(now - first_ts)
    }
}

/// The time since the first frame, in milliseconds, where an estimate of how
/// long the cap will last can be made of it: enough was kept, over long enough.
pub fn usage_span(bytes: i64, cap: i64, first_ts: i64, now: i64) -> (r: Option<i64>)
    ensures
        (match r {
            Some(e) => Some(e as int),
            None => None,
        }) == span_of_use(bytes, cap, first_ts, now),
        if bytes < 8_192 || cap <= 0 || first_ts <= 0 || now - first_ts < 60_000 {
            r is None
        } else {
            r matches Some(e) && e == now - first_ts
        },
{
    if bytes < 8_192 || cap <= 0 || first_ts <= 0 {
        return None;
    }
    let elapsed: i128 = now as i128 - first_ts as i128;
    if elapsed < 60_000 {
        return None;
    }
    Some(elapsed as i64)
}

proof fn lemma_clean(s: Seq<char>)
    requires
        forall|i: int| 0 <= i < s.len() ==> is_term_char(#[trigger] s[i]),
    ensures
        cleaned(s) == s,
    decreases s.len(),
{
    if s.len() > 0 {
        let d = s.drop_last();
        assert forall|i: int| 0 <= i < d.len() implies is_term_char(#[trigger] d[i]) by {
            assert(d[i] == s[i]);
        }
        lemma_clean(d);
        assert(is_term_char(s[s.len() - 1]));
        assert(d.push(s.last()) =~= s);
    }
}

proof fn lemma_self_test()
    ensures
        text::occurs(fts_query("hello world!"@), "hello"@),
        text::occurs(fts_query("hello world!"@), "AND"@),
{
    reveal_strlit("hello world!");
    reveal_strlit("hello");
    reveal_strlit("AND");
    reveal_strlit(" AND ");
    let q = "hello world!"@;
    let a = "hello"@;
    let b = seq!['w', 'o', 'r', 'l', 'd', '!'];
    let c = seq!['w', 'o', 'r', 'l', 'd'];
    let none = Seq::<char>::empty();
    assert(none + a =~= a);
    lemma_pieces_run(none, a, Separator::Space);
    assert(pieces(none, Separator::Space) =~= seq![none]);
    assert(pieces(a, Separator::Space) =~= seq![a]);
    let spaced = a.push(' ');
    assert(spaced.drop_last() =~= a);
    assert(pieces(spaced, Separator::Space) =~= seq![a, none]);
    assert(spaced + b =~= q);
    lemma_pieces_run(spaced, b, Separator::Space);
    assert(none + b =~= b);
    let ps = pieces(q, Separator::Space);
    assert(ps =~= seq![a, b]);
    let keep = |w: Seq<char>| w.len() > 0;
    assert(ps.drop_last() =~= seq![a]);
    assert(ps.drop_last().drop_last() =~= Seq::empty());
    reveal(Seq::filter);
    assert(ps.drop_last().drop_last().filter(keep) =~= Seq::<Seq<char>>::empty());
    assert(ps.drop_last().filter(keep) =~= seq![a]);
    assert(words(q) =~= seq![a, b]);
    lemma_clean(a);
    lemma_clean(c);
    assert(b.drop_last() =~= c);
    assert(cleaned(b) =~= c);
    let ws = words(q);
    assert(ws.drop_last() =~= seq![a]);
    assert(ws.drop_last().drop_last() =~= Seq::empty());
    assert(terms(ws.drop_last().drop_last()) =~= Seq::<Seq<char>>::empty());
    assert(terms(ws.drop_last()) =~= seq![quoted(a)]);
    let ts = terms(ws);
    assert(ts =~= seq![quoted(a), quoted(c)]);
    assert(ts.drop_last() =~= seq![quoted(a)]);
    let f = fts_query(q);
    assert(joined(ts.drop_last(), " AND "@) == quoted(a));
    assert(f =~= quoted(a) + " AND "@ + quoted(c));
    assert(f.subrange(1, 6) =~= a);
    assert(text::occurs_at(f, a, 1));
    assert(f.subrange(8, 11) =~= "AND"@);
    assert(text::occurs_at(f, "AND"@, 8));
}

/// A query of two words asks for both, and a day of use is long enough for an
/// estimate.
pub fn self_test() -> (r: Result<(), String>)
    ensures
        r is Ok,
{
    let fts = to_fts("hello world!");
    proof {
        lemma_self_test();
    }
    if !text::has(fts.as_str(), "hello") || !text::has(fts.as_str(), "AND") {
        let mut m = "bad fts: ".to_string();
        m.append(fts.as_str());
        return Err(m);
    }
    let span = usage_span(50_000, 2_000_000_000, 1, 1 + 86_400_000);
    if span.is_none() {
        return Err("days estimate none".to_string());
    }
    Ok(())
}

/// The first place of a needle is one where it stands, and it stands nowhere
/// before; there is none exactly where it does not stand in the text at all.
pub proof fn law_the_first_place(hay: Seq<char>, needle: Seq<char>)
    ensures
        find_from(hay, needle, 0) is Some <==> text::occurs(hay, needle),
        find_from(hay, needle, 0) matches Some(p) ==> occurs_at(hay, needle, p) && forall|j: int|
            0 <= j < p ==> !#[trigger] occurs_at(hay, needle, j),
{
    lemma_find_raw(hay, needle, 0);
    if text::occurs(hay, needle) {
        let i = choose|i: int| occurs_at(hay, needle, i);
        assert(occurs_at(hay, needle, i));
    }
}

proof fn lemma_find_raw(hay: Seq<char>, needle: Seq<char>, i: int)
    requires
        0 <= i,
    ensures
        find_from(hay, needle, i) matches Some(p) ==> i <= p && occurs_at(hay, needle, p) && forall|j: int|
            i <= j < p ==> !#[trigger] occurs_at(hay, needle, j),
        find_from(hay, needle, i) is None ==> forall|j: int| i <= j ==> !#[trigger] occurs_at(hay, needle, j),
    decreases hay.len() + 1 - i,
{
    if i + needle.len() <= hay.len() && i <= hay.len() && !occurs_at(hay, needle, i) {
        lemma_find_raw(hay, needle, i + 1);
    }
}

/// A text of plain characters, each of which takes one byte.
pub open spec fn all_ascii(s: Seq<char>) -> bool {
    forall|i: int| 0 <= i < s.len() ==> (#[trigger] s[i] as u32) < 0x80
}

/// What is shown of a text of plain characters: up to twenty-four characters
/// before the first place of the needle, the needle as it stands there whatever
/// the case of its letters, and up to twenty-four after it, with an ellipsis on
/// each side where something was left out.
pub proof fn law_a_snippet_shows_the_place(hay: Seq<char>, needle: Seq<char>, p: int)
    requires
        all_ascii(hay),
        all_ascii(needle),
        occurs_at(lower(hay), lower(needle), p),
        forall|j: int| 0 <= j < p ==> !#[trigger] occurs_at(lower(hay), lower(needle), j),
    ensures
        ({
            let a = if p >= 24 { p - 24 } else { 0 };
            let far = p + needle.len() + 24;
            let b = if far <= hay.len() { far } else { hay.len() as int };
            let before = if a > 0 { seq!['…'] } else { Seq::empty() };
            let after = if b < hay.len() { seq!['…'] } else { Seq::empty() };
            &&& a <= p && p + needle.len() <= b
            &&& snippet(hay, needle) == before + hay.subrange(a, b) + after
        }),
{
    lemma_find(lower(hay), lower(needle), 0, Some(p));
    assert forall|i: int| 0 <= i < hay.take(p).len() implies (#[trigger] hay.take(p)[i] as u32) < 0x80 by {
        assert(hay.take(p)[i] == hay[i]);
    }
    lemma_ascii_bytes(hay.take(p));
    lemma_ascii_bytes(hay);
    lemma_ascii_bytes(needle);
    let a = if p >= 24 { p - 24 } else { 0 };
    let far = p + needle.len() + 24;
    let b = if far <= hay.len() { far } else { hay.len() as int };
    lemma_ascii_at(hay, a);
    lemma_ascii_at(hay, b);
}

proof fn lemma_ascii_bytes(s: Seq<char>)
    requires
        all_ascii(s),
    ensures
        bytes_in(s) == s.len(),
    decreases s.len(),
{
    if s.len() > 0 {
        let d = s.drop_last();
        assert forall|i: int| 0 <= i < d.len() implies (#[trigger] d[i] as u32) < 0x80 by {
            assert(d[i] == s[i]);
        }
        lemma_ascii_bytes(d);
        assert((s[s.len() - 1] as u32) < 0x80);
        text::law_bytes(d, s.last());
        assert(d.push(s.last()) =~= s);
    } else {
        text::law_bytes(s, 'a');
        assert(s =~= Seq::<char>::empty());
    }
}

proof fn lemma_ascii_at(s: Seq<char>, n: int)
    requires
        all_ascii(s),
        0 <= n <= s.len(),
    ensures
        at_byte(s, n) == Some(n),
    decreases s.len(),
{
    lemma_ascii_bytes(s);
    if n < s.len() {
        let d = s.drop_last();
        assert forall|i: int| 0 <= i < d.len() implies (#[trigger] d[i] as u32) < 0x80 by {
            assert(d[i] == s[i]);
        }
        lemma_ascii_at(d, n);
    }
}

/// Where the needle is not in the text, the first sixty-four characters of the
/// text are shown, or all of it.
pub proof fn law_a_snippet_without_a_place(hay: Seq<char>, needle: Seq<char>)
    requires
        !text::occurs(lower(hay), lower(needle)),
    ensures
        snippet(hay, needle).is_prefix_of(hay),
        hay.len() <= 64 ==> snippet(hay, needle) == hay,
        hay.len() > 64 ==> snippet(hay, needle).len() == 64,
{
    lemma_find(lower(hay), lower(needle), 0, None);
    let n = if hay.len() <= 64 { hay.len() as int } else { 64 };
    assert(snippet(hay, needle) =~= hay.take(n));
    assert(hay.take(hay.len() as int) =~= hay);
}

/// A character is kept in a search term exactly where it is a letter without an
/// accent, a digit, a hyphen or an underscore, and what is kept stays in its order.
pub proof fn law_what_stands_in_a_term(a: Seq<char>, c: char)
    ensures
        (0x61 <= c as u32 <= 0x7a) || (0x41 <= c as u32 <= 0x5a) || (0x30 <= c as u32 <= 0x39) || c as u32 == 0x2d || c as u32
            == 0x5f ==> cleaned(a.push(c)) == cleaned(a).push(c),
        !((0x61 <= c as u32 <= 0x7a) || (0x41 <= c as u32 <= 0x5a) || (0x30 <= c as u32 <= 0x39) || c as u32 == 0x2d
            || c as u32 == 0x5f) ==> cleaned(a.push(c)) == cleaned(a),
{
    assert(a.push(c).drop_last() =~= a);
}

/// A word of such characters is asked for as it is, in quotes.
pub proof fn law_a_word_is_asked_for(w: Seq<char>)
    requires
        w.len() > 0,
        forall|i: int| 0 <= i < w.len() ==> is_term_char(#[trigger] w[i]),
    ensures
        fts_query(w) == seq!['"'] + w + seq!['"'],
{
    assert forall|i: int| 0 <= i < w.len() implies !text::is_space(#[trigger] w[i]) by {
        assert(is_term_char(w[i]));
    }
    text::law_words(w, ' ', w);
    lemma_clean(w);
    let ws = seq![w];
    assert(ws.drop_last() =~= Seq::<Seq<char>>::empty());
    assert(terms(ws.drop_last()) =~= Seq::<Seq<char>>::empty());
    assert(terms(ws) =~= seq![quoted(w)]);
}

/// How long the cap will last is estimated once eight kilobytes were kept over a
/// minute, where there is a cap and a first frame; the estimate rests on the time
/// since that frame, and once it can be made it can be made later too.
pub proof fn law_when_use_can_be_estimated(bytes: i64, cap: i64, first: i64, now: i64, later: i64)
    requires
        now <= later,
    ensures
        span_of_use(bytes, cap, first, now) is Some <==> bytes >= 8192 && cap > 0 && first > 0 && now >= first + 60_000,
        span_of_use(bytes, cap, first, now) matches Some(e) ==> first + e == now && span_of_use(bytes, cap, first, later)
            == Some(e + (later - now)),
{
}

} // verus!
