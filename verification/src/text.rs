//! Character-level text tools with exact meanings over `Seq<char>`.
use vstd::prelude::*;

verus! {

/// `String::push` appends one character.
pub assume_specification[ String::push ](s: &mut String, c: char)
    ensures
        final(s)@ == old(s)@.push(c),
;

/// The ASCII lower-case form of one character.
pub open spec fn lower_char(c: char) -> char {
    if 'A' <= c && c <= 'Z' {
        ((c as u8) + 32) as char
    } else {
        c
    }
}

/// The ASCII lower-case form of a text.
pub open spec fn lower(s: Seq<char>) -> Seq<char> {
    s.map_values(|c: char| lower_char(c))
}

/// `needle` stands in `hay` at position `i`.
pub open spec fn occurs_at(hay: Seq<char>, needle: Seq<char>, i: int) -> bool {
    0 <= i && i + needle.len() <= hay.len() && hay.subrange(i, i + needle.len()) == needle
}

/// `needle` stands somewhere in `hay`.
pub open spec fn occurs(hay: Seq<char>, needle: Seq<char>) -> bool {
    exists|i: int| occurs_at(hay, needle, i)
}

/// The characters of a text, as a vector.
pub fn chars_of(s: &str) -> (v: Vec<char>)
    ensures
        v@ == s@,
{
    let mut v: Vec<char> = Vec::new();
    for c in it: s.chars()
        invariant
            v@ == it.seq().take(it.index() as int),
            it.seq() == s@,
    {
        v.push(c);
    }
    v
}

/// The text made of the characters of a vector.
pub fn string_of(v: &Vec<char>) -> (s: String)
    ensures
        s@ == v@,
{
    let mut s = String::new();
    let mut i: usize = 0;
    while i < v.len()
        invariant
            i <= v.len(),
            s@ == v@.take(i as int),
        decreases v.len() - i,
    {
        s.push(v[i]);
        i += 1;
    }
    assert(v@.take(v.len() as int) == v@);
    s
}

fn to_lower_char(c: char) -> (r: char)
    ensures
        r == lower_char(c),
{
    if 'A' <= c && c <= 'Z' {
        ((c as u8) + 32) as char
    } else {
        c
    }
}

/// The ASCII lower-case form of a text.
pub fn to_lower(s: &str) -> (r: String)
    ensures
        r@ == lower(s@),
{
    let v = chars_of(s);
    let mut out = String::new();
    let mut i: usize = 0;
    while i < v.len()
        invariant
            i <= v.len(),
            out@ == lower(v@.take(i as int)),
        decreases v.len() - i,
    {
        out.push(to_lower_char(v[i]));
        i += 1;
        assert(out@ =~= lower(v@.take(i as int)));
    }
    assert(v@.take(v.len() as int) == v@);
    out
}


/// Two texts are the same.
pub fn same(a: &str, b: &str) -> (r: bool)
    ensures
        r == (a@ == b@),
{
    let x = chars_of(a);
    let y = chars_of(b);
    same_chars(&x, &y)
}

/// Two vectors of characters are the same.
pub fn same_chars(x: &Vec<char>, y: &Vec<char>) -> (r: bool)
    ensures
        r == (x@ == y@),
{
    if x.len() != y.len() {
        return false;
    }
    let mut i: usize = 0;
    while i < x.len()
        invariant
            i <= x.len(),
            x.len() == y.len(),
            forall|j: int| 0 <= j < i ==> x@[j] == y@[j],
        decreases x.len() - i,
    {
        if x[i] != y[i] {
            return false;
        }
        i += 1;
    }
    assert(x@ =~= y@);
    true
}

/// Two texts are the same but for the case of their ASCII letters.
pub fn same_ignoring_case(a: &str, b: &str) -> (r: bool)
    ensures
        r == (lower(a@) == lower(b@)),
{
    let x = to_lower(a);
    let y = to_lower(b);
    same(x.as_str(), y.as_str())
}

fn matches_at(hay: &Vec<char>, needle: &Vec<char>, at: usize) -> (r: bool)
    requires
        at + needle@.len() <= hay@.len(),
    ensures
        r == occurs_at(hay@, needle@, at as int),
{
    let total: usize = hay.len();
    let mut j: usize = 0;
    while j < needle.len()
        invariant
            j <= needle.len(),
            total == hay@.len(),
            at + needle@.len() <= total,
            forall|k: int| 0 <= k < j ==> hay@[at + k] == needle@[k],
        decreases needle.len() - j,
    {
        if hay[at + j] != needle[j] {
            proof {
                if occurs_at(hay@, needle@, at as int) {
                    assert(hay@.subrange(at as int, at + needle@.len())[j as int] == needle@[j as int]);
                }
            }
            return false;
        }
        j += 1;
    }
    assert(hay@.subrange(at as int, at + needle@.len()) =~= needle@);
    true
}

/// The first position at which `needle` stands in `hay`.
pub fn find_chars(hay: &Vec<char>, needle: &Vec<char>) -> (r: Option<usize>)
    ensures
        match r {
            Some(i) => {
                &&& occurs_at(hay@, needle@, i as int)
                &&& forall|j: int| 0 <= j < i ==> !occurs_at(hay@, needle@, j)
            },
            None => !occurs(hay@, needle@),
        },
{
    if needle.len() > hay.len() {
        return None;
    }
    let last: usize = hay.len() - needle.len();
    let mut i: usize = 0;
    loop
        invariant
            i <= last,
            last == hay@.len() - needle@.len(),
            forall|j: int| 0 <= j < i ==> !occurs_at(hay@, needle@, j),
        decreases last - i,
    {
        if matches_at(hay, needle, i) {
            return Some(i);
        }
        if i == last {
            return None;
        }
        i += 1;
    }
}

/// `needle` stands somewhere in `hay`.
pub fn has(hay: &str, needle: &str) -> (r: bool)
    ensures
        r == occurs(hay@, needle@),
{
    let h = chars_of(hay);
    let n = chars_of(needle);
    find_chars(&h, &n).is_some()
}


/// The characters that Unicode calls white space.
pub open spec fn is_space(c: char) -> bool {
    ||| '\u{9}' <= c && c <= '\u{d}'
    ||| c == ' '
    ||| c == '\u{85}'
    ||| c == '\u{a0}'
    ||| c == '\u{1680}'
    ||| '\u{2000}' <= c && c <= '\u{200a}'
    ||| c == '\u{2028}'
    ||| c == '\u{2029}'
    ||| c == '\u{202f}'
    ||| c == '\u{205f}'
    ||| c == '\u{3000}'
}

fn space(c: char) -> (r: bool)
    ensures
        r == is_space(c),
{
    ('\u{9}' <= c && c <= '\u{d}') || c == ' ' || c == '\u{85}' || c == '\u{a0}' || c == '\u{1680}'
        || ('\u{2000}' <= c && c <= '\u{200a}') || c == '\u{2028}' || c == '\u{2029}' || c == '\u{202f}'
        || c == '\u{205f}' || c == '\u{3000}'
}

/// `s` without the white space it starts with.
pub open spec fn trim_front(s: Seq<char>) -> Seq<char>
    decreases s.len(),
{
    if s.len() > 0 && is_space(s[0]) {
        trim_front(s.skip(1))
    } else {
        s
    }
}

/// `s` without the white space it ends with.
pub open spec fn trim_back(s: Seq<char>) -> Seq<char>
    decreases s.len(),
{
    if s.len() > 0 && is_space(s.last()) {
        trim_back(s.drop_last())
    } else {
        s
    }
}

/// `s` without the white space at its ends.
pub open spec fn trim(s: Seq<char>) -> Seq<char> {
    trim_back(trim_front(s))
}

/// The characters of `v` without the white space at its ends.
pub fn trim_chars(v: &Vec<char>) -> (r: Vec<char>)
    ensures
        r@ == trim(v@),
{
    let mut a: usize = 0;
    assert(v@.skip(0) =~= v@);
    while a < v.len() && space(v[a])
        invariant
            a <= v.len(),
            trim_front(v@) == trim_front(v@.skip(a as int)),
        decreases v.len() - a,
    {
        assert(v@.skip(a as int).skip(1) =~= v@.skip(a + 1));
        a += 1;
    }
    let ghost rest = v@.skip(a as int);
    assert(trim_front(v@) == rest);
    let mut b: usize = v.len();
    assert(rest.take(b - a) =~= rest);
    while a < b && space(v[b - 1])
        invariant
            a <= b <= v.len(),
            rest == v@.skip(a as int),
            trim_back(rest) == trim_back(rest.take(b - a)),
        decreases b - a,
    {
        assert(rest.take(b - a).drop_last() =~= rest.take(b - 1 - a));
        b -= 1;
    }
    assert(trim_back(rest.take(b - a)) == rest.take(b - a));
    let mut out: Vec<char> = Vec::new();
    let mut i: usize = a;
    while i < b
        invariant
            a <= i <= b <= v.len(),
            out@ == v@.subrange(a as int, i as int),
        decreases b - i,
    {
        out.push(v[i]);
        i += 1;
        assert(out@ =~= v@.subrange(a as int, i as int));
    }
    assert(out@ =~= rest.take(b - a));
    out
}

/// A text without the white space at its ends.
pub fn trimmed(s: &str) -> (r: String)
    ensures
        r@ == trim(s@),
{
    let v = chars_of(s);
    let t = trim_chars(&v);
    string_of(&t)
}

/// What parts one piece of a text from the next.
#[derive(Clone, Copy)]
pub enum Separator {
    /// One given character.
    Mark(char),
    /// Any white space.
    Space,
}

impl Separator {
    pub open spec fn parts(self, c: char) -> bool {
        match self {
            Separator::Mark(m) => c == m,
            Separator::Space => is_space(c),
        }
    }

    fn hits(self, c: char) -> (r: bool)
        ensures
            r == self.parts(c),
    {
        match self {
            Separator::Mark(m) => c == m,
            Separator::Space => space(c),
        }
    }
}

/// The pieces between separators; one more than there are separators.
pub open spec fn pieces(s: Seq<char>, sep: Separator) -> Seq<Seq<char>>
    decreases s.len(),
{
    if s.len() == 0 {
        seq![Seq::<char>::empty()]
    } else {
        let front = pieces(s.drop_last(), sep);
        if sep.parts(s.last()) {
            front.push(Seq::<char>::empty())
        } else {
            front.drop_last().push(front.last().push(s.last()))
        }
    }
}

/// What each vector of characters in a list says.
pub open spec fn views(v: Seq<Vec<char>>) -> Seq<Seq<char>> {
    v.map_values(|x: Vec<char>| x@)
}

/// What each text in a list says.
pub open spec fn texts(v: Seq<String>) -> Seq<Seq<char>> {
    v.map_values(|x: String| x@)
}

pub proof fn lemma_pieces_some(s: Seq<char>, sep: Separator)
    ensures
        pieces(s, sep).len() >= 1,
    decreases s.len(),
{
    if s.len() > 0 {
        lemma_pieces_some(s.drop_last(), sep);
    }
}

/// The pieces between separators.
pub fn split(v: &Vec<char>, sep: Separator) -> (r: Vec<Vec<char>>)
    ensures
        views(r@) == pieces(v@, sep),
{
    let mut done: Vec<Vec<char>> = Vec::new();
    let mut cur: Vec<char> = Vec::new();
    let mut i: usize = 0;
    proof {
        assert(v@.take(0) =~= Seq::<char>::empty());
        assert(views(done@).push(cur@) =~= pieces(v@.take(0), sep));
    }
    while i < v.len()
        invariant
            i <= v.len(),
            views(done@).push(cur@) == pieces(v@.take(i as int), sep),
        decreases v.len() - i,
    {
        let c = v[i];
        assert(v@.take(i + 1).drop_last() =~= v@.take(i as int));
        let ghost before = views(done@).push(cur@);
        assert(before.last() == cur@);
        assert(before.drop_last() =~= views(done@));
        if sep.hits(c) {
            let ghost was = done@;
            done.push(cur);
            cur = Vec::new();
            assert(views(done@) =~= before);
        } else {
            cur.push(c);
        }
        i += 1;
        assert(views(done@).push(cur@) =~= pieces(v@.take(i as int), sep));
    }
    assert(v@.take(v.len() as int) =~= v@);
    let ghost was = views(done@).push(cur@);
    done.push(cur);
    assert(views(done@) =~= was);
    done
}

/// The words of a text: its pieces between white space that are not empty.
pub open spec fn words(s: Seq<char>) -> Seq<Seq<char>> {
    pieces(s, Separator::Space).filter(|w: Seq<char>| w.len() > 0)
}

/// The pieces of a list that are not empty, in their order.
pub fn nonempty(v: Vec<Vec<char>>) -> (r: Vec<Vec<char>>)
    ensures
        views(r@) == views(v@).filter(|w: Seq<char>| w.len() > 0),
{
    let mut out: Vec<Vec<char>> = Vec::new();
    let ghost keep = |w: Seq<char>| w.len() > 0;
    let mut i: usize = 0;
    proof {
        assert(views(v@).take(0) =~= Seq::<Seq<char>>::empty());
        reveal(Seq::filter);
    }
    while i < v.len()
        invariant
            i <= v.len(),
            keep == (|w: Seq<char>| w.len() > 0),
            views(out@) == views(v@).take(i as int).filter(keep),
        decreases v.len() - i,
    {
        proof {
            reveal(Seq::filter);
            assert(views(v@).take(i + 1).drop_last() =~= views(v@).take(i as int));
            assert(views(v@).take(i + 1).last() == v@[i as int]@);
        }
        let ghost was = views(out@);
        if v[i].len() > 0 {
            let w = copy_chars(&v[i]);
            out.push(w);
            assert(views(out@) =~= was.push(w@));
        }
        i += 1;
    }
    assert(views(v@).take(v.len() as int) =~= views(v@));
    out
}

/// A copy of a vector of characters.
pub fn copy_chars(v: &Vec<char>) -> (r: Vec<char>)
    ensures
        r@ == v@,
{
    let mut out: Vec<char> = Vec::new();
    let mut i: usize = 0;
    while i < v.len()
        invariant
            i <= v.len(),
            out@ == v@.take(i as int),
        decreases v.len() - i,
    {
        out.push(v[i]);
        i += 1;
    }
    assert(v@.take(v.len() as int) =~= v@);
    out
}

/// The words of a text.
pub fn words_of(s: &str) -> (r: Vec<Vec<char>>)
    ensures
        views(r@) == words(s@),
{
    let v = chars_of(s);
    nonempty(split(&v, Separator::Space))
}

/// The texts of a list, one after the other with `sep` between them.
pub open spec fn joined(parts: Seq<Seq<char>>, sep: Seq<char>) -> Seq<char>
    decreases parts.len(),
{
    if parts.len() == 0 {
        Seq::empty()
    } else if parts.len() == 1 {
        parts[0]
    } else {
        joined(parts.drop_last(), sep) + sep + parts.last()
    }
}

/// The texts of a list, one after the other with `sep` between them.
pub fn join(parts: &Vec<Vec<char>>, sep: &str) -> (r: String)
    ensures
        r@ == joined(views(parts@), sep@),
{
    let mut out = String::new();
    let mut i: usize = 0;
    assert(views(parts@).take(0) =~= Seq::<Seq<char>>::empty());
    while i < parts.len()
        invariant
            i <= parts.len(),
            out@ == joined(views(parts@).take(i as int), sep@),
        decreases parts.len() - i,
    {
        assert(views(parts@).take(i + 1).drop_last() =~= views(parts@).take(i as int));
        assert(views(parts@).take(i + 1).last() == parts@[i as int]@);
        let piece = string_of(&parts[i]);
        if i > 0 {
            out.append(sep);
        }
        out.append(piece.as_str());
        i += 1;
        assert(out@ =~= joined(views(parts@).take(i as int), sep@));
    }
    assert(views(parts@).take(parts.len() as int) =~= views(parts@));
    out
}


/// `s` without one carriage return at its end.
pub open spec fn strip_return(s: Seq<char>) -> Seq<char> {
    if s.len() > 0 && s.last() == '\r' {
        s.drop_last()
    } else {
        s
    }
}

/// The lines of a text. A line ends with a line feed, or a carriage return and
/// a line feed; what follows the last of these is a line only if it is not empty.
pub open spec fn lines(s: Seq<char>) -> Seq<Seq<char>> {
    let all = pieces(s, Separator::Mark('\n'));
    let ended = all.drop_last().map_values(|l: Seq<char>| strip_return(l));
    if all.last().len() == 0 {
        ended
    } else {
        ended.push(all.last())
    }
}

/// The lines of a text.
pub fn lines_of(s: &str) -> (r: Vec<Vec<char>>)
    ensures
        views(r@) == lines(s@),
{
    let v = chars_of(s);
    let all = split(&v, Separator::Mark('\n'));
    proof {
        lemma_pieces_some(s@, Separator::Mark('\n'));
    }
    let ghost whole = pieces(s@, Separator::Mark('\n'));
    assert(whole.len() == all@.len());
    let last: usize = all.len() - 1;
    let mut out: Vec<Vec<char>> = Vec::new();
    let ghost strip = |l: Seq<char>| strip_return(l);
    let mut i: usize = 0;
    while i < last
        invariant
            i <= last,
            last == all@.len() - 1,
            strip == (|l: Seq<char>| strip_return(l)),
            whole == views(all@),
            views(out@) == whole.take(i as int).map_values(strip),
        decreases last - i,
    {
        let mut l = copy_chars(&all[i]);
        assert(l@ == whole[i as int]);
        if l.len() > 0 && l[l.len() - 1] == '\r' {
            l.pop();
            assert(l@ =~= strip_return(whole[i as int]));
        }
        let ghost was = views(out@);
        let ghost added = l@;
        out.push(l);
        assert(views(out@) =~= was.push(added));
        i += 1;
        assert(views(out@) =~= whole.take(i as int).map_values(strip));
    }
    assert(whole.take(last as int) =~= whole.drop_last());
    if all[last].len() > 0 {
        let l = copy_chars(&all[last]);
        let ghost was = views(out@);
        out.push(l);
        assert(views(out@) =~= was.push(whole.last()));
    }
    out
}

/// What stands before and after the first `mark`.
pub fn split_once(v: &Vec<char>, mark: char) -> (r: Option<(Vec<char>, Vec<char>)>)
    ensures
        match r {
            Some(p) => !p.0@.contains(mark) && v@ == p.0@.push(mark) + p.1@,
            None => !v@.contains(mark),
        },
{
    let mut i: usize = 0;
    while i < v.len()
        invariant
            i <= v.len(),
            forall|j: int| 0 <= j < i ==> v@[j] != mark,
        decreases v.len() - i,
    {
        if v[i] == mark {
            let a = slice(v, 0, i);
            let b = slice(v, i + 1, v.len());
            assert(v@ =~= a@.push(mark) + b@);
            return Some((a, b));
        }
        i += 1;
    }
    None
}

/// The characters of `v` from position `a` up to position `b`.
pub fn slice(v: &Vec<char>, a: usize, b: usize) -> (r: Vec<char>)
    requires
        a <= b <= v@.len(),
    ensures
        r@ == v@.subrange(a as int, b as int),
{
    let mut out: Vec<char> = Vec::new();
    let mut i: usize = a;
    while i < b
        invariant
            a <= i <= b <= v@.len(),
            out@ == v@.subrange(a as int, i as int),
        decreases b - i,
    {
        out.push(v[i]);
        i += 1;
        assert(out@ =~= v@.subrange(a as int, i as int));
    }
    out
}

/// One decimal digit as a character.
pub open spec fn digit_char(d: int) -> char {
    (48 + d) as u8 as char
}

/// The decimal digits of a number, without leading zeros.
pub open spec fn digits(n: nat) -> Seq<char>
    decreases n,
{
    if n < 10 {
        seq![digit_char(n as int)]
    } else {
        digits(n / 10).push(digit_char((n % 10) as int))
    }
}

/// A number as it is written in decimal.
pub open spec fn decimal(i: int) -> Seq<char> {
    if i < 0 {
        seq!['-'] + digits((-i) as nat)
    } else {
        digits(i as nat)
    }
}

fn push_digits(out: &mut Vec<char>, n: u64)
    ensures
        final(out)@ == old(out)@ + digits(n as nat),
    decreases n,
{
    if n >= 10 {
        push_digits(out, n / 10);
    }
    let d: u8 = (n % 10) as u8;
    out.push((48 + d) as char);
    assert(out@ =~= old(out)@ + digits(n as nat));
}

/// A number as it is written in decimal.
pub fn i64_text(n: i64) -> (r: String)
    ensures
        r@ == decimal(n as int),
{
    let mut v: Vec<char> = Vec::new();
    if n < 0 {
        v.push('-');
        let m: u64 = if n == i64::MIN {
            9223372036854775808u64
        } else {
            (-n) as u64
        };
        push_digits(&mut v, m);
        assert(v@ =~= seq!['-'] + digits((-n) as nat));
    } else {
        push_digits(&mut v, n as u64);
        assert(v@ =~= digits(n as nat));
    }
    string_of(&v)
}

/// `c` is a decimal digit.
pub open spec fn is_digit(c: char) -> bool {
    '0' <= c && c <= '9'
}

/// The number that decimal digits stand for.
pub open spec fn digits_value(s: Seq<char>) -> nat
    decreases s.len(),
{
    if s.len() == 0 {
        0
    } else {
        digits_value(s.drop_last()) * 10 + (s.last() as int - 48) as nat
    }
}

/// Every character is a decimal digit.
pub open spec fn all_digits(s: Seq<char>) -> bool {
    forall|i: int| 0 <= i < s.len() ==> is_digit(#[trigger] s[i])
}

/// A text without the sign it may start with.
pub open spec fn unsigned(s: Seq<char>) -> Seq<char> {
    if s.len() > 0 && (s[0] == '-' || s[0] == '+') {
        s.skip(1)
    } else {
        s
    }
}

/// The number that a text writes in decimal: an optional sign, then at least
/// one digit and nothing else.
pub open spec fn number_in(s: Seq<char>) -> Option<int> {
    let body = unsigned(s);
    if body.len() > 0 && all_digits(body) {
        if s[0] == '-' {
            Some(-(digits_value(body) as int))
        } else {
            Some(digits_value(body) as int)
        }
    } else {
        None
    }
}

/// The number in a text, where it is written in decimal and lies in the range
/// of `i64`.
pub fn parse_i64(v: &Vec<char>) -> (r: Option<i64>)
    ensures
        match number_in(v@) {
            Some(n) => if i64::MIN <= n <= i64::MAX {
                r matches Some(x) && x == n
            } else {
                r is None
            },
            None => r is None,
        },
{
    let signed = v.len() > 0 && (v[0] == '-' || v[0] == '+');
    let negative = v.len() > 0 && v[0] == '-';
    let start: usize = if signed { 1 } else { 0 };
    let ghost body = unsigned(v@);
    if v.len() == start {
        return None;
    }
    let limit: u128 = 9223372036854775809u128;
    let mut acc: u128 = 0;
    let mut over = false;
    let mut i: usize = start;
    assert(body.take(0) =~= Seq::<char>::empty());
    while i < v.len()
        invariant
            start <= i <= v@.len(),
            limit == 9223372036854775809u128,
            start == (if signed { 1int } else { 0int }),
            v@.len() >= start,
            body == unsigned(v@),
            body.len() == v@.len() - start,
            forall|j: int| start <= j < v@.len() ==> v@[j] == body[j - start],
            forall|j: int| 0 <= j < i - start ==> is_digit(#[trigger] body[j]),
            !over ==> acc == digits_value(body.take(i - start)) && acc <= limit,
            over ==> digits_value(body.take(i - start)) > limit,
        decreases v@.len() - i,
    {
        let c = v[i];
        assert(c == body[i - start]);
        if !('0' <= c && c <= '9') {
            assert(!is_digit(body[i - start]));
            assert(!all_digits(body));
            return None;
        }
        let d: u128 = (c as u32 - 48) as u128;
        assert(body.take(i + 1 - start).drop_last() =~= body.take(i - start));
        if !over {
            let next: u128 = acc * 10 + d;
            if next > limit {
                over = true;
            } else {
                acc = next;
            }
        }
        i += 1;
    }
    assert(body.take(i - start) =~= body);
    assert(body.len() > 0);
    if over {
        return None;
    }
    if negative {
        if acc > 9223372036854775808u128 {
            None
        } else if acc == 9223372036854775808u128 {
            Some(i64::MIN)
        } else {
            Some(-(acc as i64))
        }
    } else if acc > 9223372036854775807u128 {
        None
    } else {
        Some(acc as i64)
    }
}

/// The number in a text, where it is written in decimal without a minus sign
/// and lies in the range of `u64`.
pub open spec fn count_in(s: Seq<char>) -> Option<u64> {
    match number_in(s) {
        Some(n) => if s[0] != '-' && n <= u64::MAX {
            Some(n as u64)
        } else {
            None
        },
        None => None,
    }
}

/// The number in a text, where it is written in decimal without a minus sign
/// and lies in the range of `u64`.
pub fn parse_u64(v: &Vec<char>) -> (r: Option<u64>)
    ensures
        r == count_in(v@),
{
    if v.len() > 0 && v[0] == '-' {
        return None;
    }
    let signed = v.len() > 0 && v[0] == '+';
    let start: usize = if signed { 1 } else { 0 };
    let ghost body = unsigned(v@);
    if v.len() == start {
        return None;
    }
    let limit: u128 = 18446744073709551616u128;
    let mut acc: u128 = 0;
    let mut over = false;
    let mut i: usize = start;
    assert(body.take(0) =~= Seq::<char>::empty());
    while i < v.len()
        invariant
            start <= i <= v@.len(),
            limit == 18446744073709551616u128,
            start == (if signed { 1int } else { 0int }),
            v@.len() > start,
            v@[0] != '-',
            signed == (v@[0] == '+'),
            body == unsigned(v@),
            body.len() == v@.len() - start,
            forall|j: int| start <= j < v@.len() ==> v@[j] == body[j - start],
            forall|j: int| 0 <= j < i - start ==> is_digit(#[trigger] body[j]),
            !over ==> acc == digits_value(body.take(i - start)) && acc <= limit,
            over ==> digits_value(body.take(i - start)) > limit,
        decreases v@.len() - i,
    {
        let c = v[i];
        assert(c == body[i - start]);
        if !('0' <= c && c <= '9') {
            assert(!is_digit(body[i - start]));
            assert(!all_digits(body));
            return None;
        }
        let d: u128 = (c as u32 - 48) as u128;
        assert(body.take(i + 1 - start).drop_last() =~= body.take(i - start));
        if !over {
            let next: u128 = acc * 10 + d;
            if next > limit {
                over = true;
            } else {
                acc = next;
            }
        }
        i += 1;
    }
    assert(body.take(i - start) =~= body);
    assert(body.len() > 0);
    if over || acc > 18446744073709551615u128 {
        None
    } else {
        Some(acc as u64)
    }
}

/// The number of bytes in the UTF-8 form of a text.
pub open spec fn bytes_in(s: Seq<char>) -> nat {
    vstd::utf8::encode_utf8(s).len()
}

/// The number of bytes in the UTF-8 form of a text.
pub fn byte_len(s: &str) -> (r: usize)
    ensures
        r == bytes_in(s@),
{
    let b = s.as_bytes();
    b.len()
}

/// A text is in a list.
pub fn holds(list: &Vec<String>, s: &str) -> (r: bool)
    ensures
        r == texts(list@).contains(s@),
{
    let mut i: usize = 0;
    while i < list.len()
        invariant
            i <= list@.len(),
            forall|j: int| 0 <= j < i ==> #[trigger] texts(list@)[j] != s@,
        decreases list@.len() - i,
    {
        if same(list[i].as_str(), s) {
            assert(texts(list@)[i as int] == s@);
            return true;
        }
        i += 1;
    }
    false
}

/// A copy of a list of texts.
pub fn copy_texts(v: &Vec<String>) -> (r: Vec<String>)
    ensures
        r@ == v@,
{
    let mut out: Vec<String> = Vec::new();
    let mut i: usize = 0;
    while i < v.len()
        invariant
            i <= v@.len(),
            out@ == v@.take(i as int),
        decreases v@.len() - i,
    {
        out.push(v[i].clone());
        i += 1;
        assert(out@ =~= v@.take(i as int));
    }
    assert(v@.take(i as int) =~= v@);
    out
}

/// The number of bytes in the UTF-8 form of a character.
pub open spec fn width(c: char) -> nat {
    if c as u32 <= 0x7f {
        1
    } else if c as u32 <= 0x7ff {
        2
    } else if c as u32 <= 0xffff {
        3
    } else {
        4
    }
}

/// The number of bytes in the UTF-8 form of a character.
pub fn width_of(c: char) -> (r: usize)
    ensures
        r == width(c),
        1 <= r <= 4,
{
    let n: u32 = c as u32;
    if n <= 0x7f {
        1
    } else if n <= 0x7ff {
        2
    } else if n <= 0xffff {
        3
    } else {
        4
    }
}

/// The bytes of a text are those of its characters, one after the other.
pub proof fn lemma_bytes_push(s: Seq<char>, c: char)
    ensures
        bytes_in(s.push(c)) == bytes_in(s) + width(c),
    decreases s.len(),
{
    let r = s.push(c);
    if s.len() == 0 {
        assert(r.drop_first() =~= Seq::<char>::empty());
        assert(vstd::utf8::encode_utf8(r) == vstd::utf8::encode_scalar(c as u32) + vstd::utf8::encode_utf8(
            r.drop_first(),
        ));
    } else {
        lemma_bytes_push(s.drop_first(), c);
        assert(r.drop_first() =~= s.drop_first().push(c));
        assert(r[0] == s[0]);
    }
}

/// A longer part of a text has no fewer bytes.
pub proof fn lemma_bytes_prefix(s: Seq<char>, a: int, b: int)
    requires
        0 <= a <= b <= s.len(),
    ensures
        bytes_in(s.take(a)) + (b - a) <= bytes_in(s.take(b)),
    decreases b - a,
{
    if a < b {
        lemma_bytes_prefix(s, a, b - 1);
        assert(s.take(b) =~= s.take(b - 1).push(s[b - 1]));
        lemma_bytes_push(s.take(b - 1), s[b - 1]);
    }
}

/// A text with no separator in it adds to the last piece.
pub proof fn lemma_pieces_run(s: Seq<char>, w: Seq<char>, sep: Separator)
    requires
        forall|i: int| 0 <= i < w.len() ==> !sep.parts(#[trigger] w[i]),
    ensures
        pieces(s + w, sep) == pieces(s, sep).drop_last().push(pieces(s, sep).last() + w),
    decreases w.len(),
{
    lemma_pieces_some(s, sep);
    let p = pieces(s, sep);
    if w.len() == 0 {
        assert(s + w =~= s);
        assert(p.last() + w =~= p.last());
        assert(p.drop_last().push(p.last()) =~= p);
    } else {
        let d = w.drop_last();
        lemma_pieces_run(s, d, sep);
        assert((s + w).drop_last() =~= s + d);
        assert((s + w).last() == w.last());
        let front = pieces(s + d, sep);
        assert(front.drop_last() =~= p.drop_last());
        assert((p.last() + d).push(w.last()) =~= p.last() + w);
        assert(!sep.parts(w[w.len() - 1]));
    }
}

/// The pieces of two texts with a separator between them are those of both.
pub proof fn lemma_pieces_joined(a: Seq<char>, c: char, b: Seq<char>, sep: Separator)
    requires
        sep.parts(c),
    ensures
        pieces(a.push(c) + b, sep) == pieces(a, sep) + pieces(b, sep),
    decreases b.len(),
{
    lemma_pieces_some(a, sep);
    lemma_pieces_some(b, sep);
    let s = a.push(c) + b;
    if b.len() == 0 {
        assert(s =~= a.push(c));
        assert(s.drop_last() =~= a);
        assert(pieces(s, sep) =~= pieces(a, sep) + pieces(b, sep));
    } else {
        let d = b.drop_last();
        lemma_pieces_joined(a, c, d, sep);
        lemma_pieces_some(d, sep);
        assert(s.drop_last() =~= a.push(c) + d);
        assert(s.last() == b.last());
        let front = pieces(a, sep) + pieces(d, sep);
        assert(front.last() == pieces(d, sep).last());
        assert(front.drop_last() =~= pieces(a, sep) + pieces(d, sep).drop_last());
        assert(pieces(s, sep) =~= pieces(a, sep) + pieces(b, sep));
    }
}

/// No separator stands in a piece, and every character of a piece is one of the
/// text.
pub proof fn lemma_pieces_hold(s: Seq<char>, sep: Separator, i: int, j: int)
    requires
        0 <= i < pieces(s, sep).len(),
        0 <= j < pieces(s, sep)[i].len(),
    ensures
        !sep.parts(pieces(s, sep)[i][j]),
        s.contains(pieces(s, sep)[i][j]),
    decreases s.len(),
{
    if s.len() > 0 {
        let d = s.drop_last();
        lemma_pieces_some(d, sep);
        let front = pieces(d, sep);
        let c = pieces(s, sep)[i][j];
        if i < front.len() && j < front[i].len() {
            lemma_pieces_hold(d, sep, i, j);
            assert(front[i][j] == c);
            let k = choose|k: int| 0 <= k < d.len() && d[k] == c;
            assert(s[k] == c);
        } else {
            assert(c == s.last());
            assert(s[s.len() - 1] == c);
        }
    }
}

/// Lists that are joined one after the other.
pub proof fn lemma_joined_both(a: Seq<Seq<char>>, b: Seq<Seq<char>>, sep: Seq<char>)
    requires
        a.len() > 0,
        b.len() > 0,
    ensures
        joined(a + b, sep) == joined(a, sep) + sep + joined(b, sep),
    decreases b.len(),
{
    let all = a + b;
    assert(all.drop_last() =~= a + b.drop_last());
    assert(all.last() == b.last());
    if b.len() == 1 {
        assert(a + b.drop_last() =~= a);
    } else {
        lemma_joined_both(a, b.drop_last(), sep);
        assert(joined(all, sep) =~= joined(a, sep) + sep + joined(b, sep));
    }
}

/// What is trimmed has no white space at its ends, and its characters are those
/// of the text.
pub proof fn lemma_trimmed(s: Seq<char>)
    ensures
        trim(s).len() > 0 ==> !is_space(trim(s)[0]) && !is_space(trim(s).last()),
        forall|c: char| #[trigger] trim(s).contains(c) ==> s.contains(c),
        trim(trim(s)) == trim(s),
{
    lemma_trim_front(s);
    lemma_trim_back(trim_front(s));
}

proof fn lemma_trim_front(s: Seq<char>)
    ensures
        trim_front(s).len() > 0 ==> !is_space(trim_front(s)[0]),
        forall|c: char| #[trigger] trim_front(s).contains(c) ==> s.contains(c),
    decreases s.len(),
{
    if s.len() > 0 && is_space(s[0]) {
        lemma_trim_front(s.skip(1));
        assert forall|c: char| #[trigger] trim_front(s).contains(c) implies s.contains(c) by {
            let k = choose|k: int| 0 <= k < s.skip(1).len() && s.skip(1)[k] == c;
            assert(s[k + 1] == c);
        }
    }
}

proof fn lemma_trim_back(s: Seq<char>)
    ensures
        trim_back(s).len() > 0 ==> !is_space(trim_back(s).last()) && trim_back(s)[0] == s[0],
        forall|c: char| #[trigger] trim_back(s).contains(c) ==> s.contains(c),
    decreases s.len(),
{
    if s.len() > 0 && is_space(s.last()) {
        lemma_trim_back(s.drop_last());
        assert forall|c: char| #[trigger] trim_back(s).contains(c) implies s.contains(c) by {
            let k = choose|k: int| 0 <= k < s.drop_last().len() && s.drop_last()[k] == c;
            assert(s[k] == c);
        }
    }
}

/// Lower case changes the letters A to Z and nothing else, each to the small
/// letter that stands in the same place of the alphabet.
pub proof fn law_lower_case(s: Seq<char>, i: int)
    requires
        0 <= i < s.len(),
    ensures
        lower(s).len() == s.len(),
        'A' <= s[i] <= 'Z' ==> lower(s)[i] as int == s[i] as int + 32,
        !('A' <= s[i] <= 'Z') ==> lower(s)[i] == s[i],
        lower(lower(s)) == lower(s),
{
    assert(lower(lower(s)) =~= lower(s));
}

/// A text stands in another one exactly where the other one is made of something,
/// the text, and something more.
pub proof fn law_what_stands_in_a_text(hay: Seq<char>, needle: Seq<char>, a: Seq<char>, b: Seq<char>)
    ensures
        hay == a + needle + b ==> occurs(hay, needle),
        occurs(hay, needle) ==> exists|p: Seq<char>, q: Seq<char>| hay == #[trigger] (p + needle + q),
{
    if hay == a + needle + b {
        let i = a.len() as int;
        assert(hay.subrange(i, i + needle.len()) =~= needle);
        assert(occurs_at(hay, needle, i));
    }
    if occurs(hay, needle) {
        let i = choose|i: int| occurs_at(hay, needle, i);
        let p = hay.take(i);
        let q = hay.skip(i + needle.len());
        assert(hay =~= p + needle + q);
    }
}

/// Trimming takes white space from both ends, all of it, and nothing else.
pub proof fn law_trimming(s: Seq<char>)
    ensures
        exists|a: Seq<char>, b: Seq<char>|
            s == #[trigger] (a + trim(s) + b) && (forall|i: int| 0 <= i < a.len() ==> is_space(#[trigger] a[i])) && (forall|
                i: int,
            |
                0 <= i < b.len() ==> is_space(#[trigger] b[i])),
        trim(s).len() > 0 ==> !is_space(trim(s)[0]) && !is_space(trim(s).last()),
{
    lemma_trimmed(s);
    let f = trim_front(s);
    let a = lemma_front_taken(s);
    let b = lemma_back_taken(f);
    assert(s =~= a + trim(s) + b);
}

proof fn lemma_front_taken(s: Seq<char>) -> (a: Seq<char>)
    ensures
        s == a + trim_front(s),
        forall|i: int| 0 <= i < a.len() ==> is_space(#[trigger] a[i]),
    decreases s.len(),
{
    if s.len() > 0 && is_space(s[0]) {
        let rest = lemma_front_taken(s.skip(1));
        let a = seq![s[0]] + rest;
        assert(s =~= seq![s[0]] + s.skip(1));
        assert(s =~= a + trim_front(s));
        a
    } else {
        assert(s =~= Seq::<char>::empty() + s);
        Seq::empty()
    }
}

proof fn lemma_back_taken(s: Seq<char>) -> (b: Seq<char>)
    ensures
        s == trim_back(s) + b,
        forall|i: int| 0 <= i < b.len() ==> is_space(#[trigger] b[i]),
    decreases s.len(),
{
    if s.len() > 0 && is_space(s.last()) {
        let rest = lemma_back_taken(s.drop_last());
        let b = rest.push(s.last());
        assert(s =~= s.drop_last().push(s.last()));
        assert(s =~= trim_back(s) + b);
        b
    } else {
        assert(s =~= s + Seq::<char>::empty());
        Seq::empty()
    }
}

/// The pieces between marks give the text again with the marks between them, and
/// no mark stands in a piece.
pub proof fn law_pieces_make_up_the_text(s: Seq<char>, mark: char)
    ensures
        joined(pieces(s, Separator::Mark(mark)), seq![mark]) == s,
        forall|i: int|
            0 <= i < pieces(s, Separator::Mark(mark)).len() ==> !(#[trigger] pieces(s, Separator::Mark(mark))[i]).contains(
                mark,
            ),
{
    lemma_pieces_joined_again(s, mark);
    let ps = pieces(s, Separator::Mark(mark));
    assert forall|i: int| 0 <= i < ps.len() implies !(#[trigger] ps[i]).contains(mark) by {
        if ps[i].contains(mark) {
            let j = choose|j: int| 0 <= j < ps[i].len() && ps[i][j] == mark;
            lemma_pieces_hold(s, Separator::Mark(mark), i, j);
        }
    }
}

proof fn lemma_pieces_joined_again(s: Seq<char>, mark: char)
    ensures
        joined(pieces(s, Separator::Mark(mark)), seq![mark]) == s,
    decreases s.len(),
{
    let sep = Separator::Mark(mark);
    let ps = pieces(s, sep);
    if s.len() == 0 {
        assert(joined(ps, seq![mark]) =~= s);
    } else {
        let d = s.drop_last();
        let front = pieces(d, sep);
        lemma_pieces_joined_again(d, mark);
        lemma_pieces_some(d, sep);
        if s.last() == mark {
            assert(ps.drop_last() =~= front);
            assert(joined(ps, seq![mark]) =~= joined(front, seq![mark]) + seq![mark]);
            assert(s =~= d + seq![mark]);
        } else {
            assert(ps.drop_last() =~= front.drop_last());
            if front.len() == 1 {
                assert(s =~= d.push(s.last()));
            } else {
                assert(joined(ps, seq![mark]) =~= joined(front, seq![mark]).push(s.last()));
                assert(s =~= d.push(s.last()));
            }
        }
    }
}

/// Texts without a mark that are joined by marks are the pieces of what they give.
pub proof fn law_joined_texts_are_the_pieces(list: Seq<Seq<char>>, mark: char)
    requires
        list.len() > 0,
        forall|i: int| 0 <= i < list.len() ==> !(#[trigger] list[i]).contains(mark),
    ensures
        pieces(joined(list, seq![mark]), Separator::Mark(mark)) == list,
    decreases list.len(),
{
    let sep = Separator::Mark(mark);
    let none = Seq::<char>::empty();
    let last = list[list.len() - 1];
    assert forall|i: int| 0 <= i < last.len() implies !sep.parts(#[trigger] last[i]) by {
        assert(last.contains(last[i]));
    }
    lemma_pieces_run(none, last, sep);
    assert(none + last =~= last);
    assert(pieces(none, sep) =~= seq![none]);
    assert(pieces(last, sep) =~= seq![last]);
    if list.len() == 1 {
        assert(list =~= seq![last]);
    } else {
        let d = list.drop_last();
        assert forall|i: int| 0 <= i < d.len() implies !(#[trigger] d[i]).contains(mark) by {
            assert(d[i] == list[i]);
        }
        law_joined_texts_are_the_pieces(d, mark);
        let front = joined(d, seq![mark]);
        assert(joined(list, seq![mark]) =~= front.push(mark) + last);
        lemma_pieces_joined(front, mark, last, sep);
        assert(list =~= d + seq![last]);
    }
}

/// The words of two texts with white space between them are the words of both,
/// and what has no white space in it is one word.
pub proof fn law_words(a: Seq<char>, c: char, b: Seq<char>)
    requires
        is_space(c),
    ensures
        words(a.push(c) + b) == words(a) + words(b),
        a.len() > 0 && (forall|i: int| 0 <= i < a.len() ==> !is_space(#[trigger] a[i])) ==> words(a) == seq![a],
        a.len() == 0 ==> words(a).len() == 0,
{
    let keep = |w: Seq<char>| w.len() > 0;
    let sep = Separator::Space;
    lemma_pieces_joined(a, c, b, sep);
    lemma_filter_both(pieces(a, sep), pieces(b, sep), keep);
    let none = Seq::<char>::empty();
    let nothing = Seq::<Seq<char>>::empty();
    reveal(Seq::filter);
    assert(pieces(none, sep) =~= seq![none]);
    assert(seq![none].drop_last() =~= nothing);
    assert(nothing.filter(keep) =~= nothing);
    if a.len() == 0 {
        assert(a =~= none);
        assert(!keep(none));
        assert(seq![none].filter(keep) =~= nothing);
    }
    if a.len() > 0 && (forall|i: int| 0 <= i < a.len() ==> !is_space(#[trigger] a[i])) {
        lemma_pieces_run(none, a, sep);
        assert(none + a =~= a);
        assert(pieces(a, sep) =~= seq![a]);
        assert(seq![a].drop_last() =~= nothing);
        assert(keep(a));
        assert(seq![a].filter(keep) =~= seq![a]);
    }
}

proof fn lemma_filter_both(a: Seq<Seq<char>>, b: Seq<Seq<char>>, keep: spec_fn(Seq<char>) -> bool)
    ensures
        (a + b).filter(keep) == a.filter(keep) + b.filter(keep),
    decreases b.len(),
{
    reveal(Seq::filter);
    if b.len() == 0 {
        assert(a + b =~= a);
        assert(a.filter(keep) + b.filter(keep) =~= a.filter(keep));
    } else {
        lemma_filter_both(a, b.drop_last(), keep);
        assert((a + b).drop_last() =~= a + b.drop_last());
        assert((a + b).last() == b.last());
        assert((a + b).filter(keep) =~= a.filter(keep) + b.filter(keep));
    }
}

/// A number that is written down is read back, and nothing else is written so.
pub proof fn law_numbers_are_read_back(n: int, m: int)
    ensures
        number_in(decimal(n)) == Some(n),
        decimal(n) == decimal(m) ==> n == m,
        0 <= n <= u64::MAX ==> count_in(decimal(n)) == Some(n as u64),
        n < 0 ==> count_in(decimal(n)) is None,
{
    lemma_number_back(n);
    lemma_number_back(m);
}

proof fn lemma_number_back(n: int)
    ensures
        number_in(decimal(n)) == Some(n),
        decimal(n).len() > 0,
        decimal(n)[0] == '-' <==> n < 0,
{
    if n < 0 {
        let d = digits((-n) as nat);
        lemma_digits((-n) as nat);
        assert(decimal(n).skip(1) =~= d);
    } else {
        lemma_digits(n as nat);
        let d = digits(n as nat);
        assert(is_digit(d[0]));
    }
}

pub proof fn lemma_digits(n: nat)
    ensures
        digits(n).len() > 0,
        all_digits(digits(n)),
        digits_value(digits(n)) == n,
    decreases n,
{
    let d = digits(n);
    if n < 10 {
        assert(d.drop_last() =~= Seq::<char>::empty());
        assert(digits_value(d.drop_last()) == 0);
        assert(d.last() as int == 48 + n);
    } else {
        lemma_digits(n / 10);
        let front = digits(n / 10);
        assert(d.drop_last() =~= front);
        assert(d.last() as int == 48 + n % 10);
        assert forall|i: int| 0 <= i < d.len() implies is_digit(#[trigger] d[i]) by {
            if i < front.len() {
                assert(d[i] == front[i]);
            }
        }
    }
}

/// A text that is no optional sign and digits is no number.
pub proof fn law_what_is_no_number(s: Seq<char>, i: int)
    requires
        0 <= i < s.len(),
        !('0' <= s[i] && s[i] <= '9'),
        i > 0 || (s[i] != '-' && s[i] != '+'),
    ensures
        number_in(s) is None,
        number_in(Seq::<char>::empty()) is None,
        number_in(seq!['-']) is None,
{
    let body = unsigned(s);
    if body == s {
        assert(!is_digit(body[i]));
    } else {
        assert(body[i - 1] == s[i]);
        assert(!is_digit(body[i - 1]));
    }
}

/// A sign and leading zeros do not change a number.
pub proof fn law_one_more_digit(s: Seq<char>, d: int)
    requires
        s.len() > 0,
        all_digits(s),
        0 <= d < 10,
    ensures
        number_in(s) matches Some(n) && number_in(s.push((48 + d) as u8 as char)) == Some(10 * n + d),
        number_in(seq!['-'] + s) == Some(-number_in(s).unwrap()),
        number_in(seq!['+'] + s) == number_in(s),
{
    let c = (48 + d) as u8 as char;
    let r = s.push(c);
    assert(is_digit(s[0]));
    assert(r.drop_last() =~= s);
    assert forall|i: int| 0 <= i < r.len() implies is_digit(#[trigger] r[i]) by {
        if i < s.len() {
            assert(r[i] == s[i]);
        }
    }
    assert((seq!['-'] + s).skip(1) =~= s);
    assert((seq!['+'] + s).skip(1) =~= s);
}

/// The lines of a text are what stands before each line feed, without a carriage
/// return at the end, and what follows the last one.
pub proof fn law_lines(list: Seq<Seq<char>>, rest: Seq<char>)
    requires
        forall|i: int| 0 <= i < list.len() ==> !(#[trigger] list[i]).contains('\n'),
        !rest.contains('\n'),
    ensures
        ({
            let s = joined(list.push(rest), seq!['\n']);
            let n = list.len();
            &&& lines(s).len() == (if rest.len() == 0 { n } else { n + 1 })
            &&& rest.len() > 0 ==> lines(s)[n as int] == rest
            &&& forall|i: int|
                0 <= i < n ==> #[trigger] lines(s)[i] == (if list[i].len() > 0 && list[i].last() == '\r' {
                    list[i].drop_last()
                } else {
                    list[i]
                })
        }),
{
    let all = list.push(rest);
    assert forall|i: int| 0 <= i < all.len() implies !(#[trigger] all[i]).contains('\n') by {
        if i < list.len() {
            assert(all[i] == list[i]);
        }
    }
    law_joined_texts_are_the_pieces(all, '\n');
    assert(all.drop_last() =~= list);
}

/// The bytes of a text are those of its characters: one for a character of ASCII,
/// and two, three or four for others.
pub proof fn law_bytes(s: Seq<char>, c: char)
    ensures
        bytes_in(s.push(c)) == bytes_in(s) + (if (c as u32) < 0x80 {
            1int
        } else if (c as u32) < 0x800 {
            2int
        } else if (c as u32) < 0x1_0000 {
            3int
        } else {
            4int
        }),
        bytes_in(Seq::<char>::empty()) == 0,
{
    lemma_bytes_push(s, c);
}

} // verus!
