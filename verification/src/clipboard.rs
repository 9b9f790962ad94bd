//! Clipboard texts: how much of one is kept, and which one a frame may carry.
use crate::text::{self, bytes_in, lemma_bytes_prefix, lemma_bytes_push, width};
use vstd::prelude::*;

verus! {

/// The most bytes that are kept of a clipboard text.
pub const CLIP_CAP: usize = 65536;

/// The number of characters at the start of a text that fit into so many bytes.
pub open spec fn fitting(s: Seq<char>, n: int) -> int
    decreases s.len(),
{
    if s.len() == 0 || bytes_in(s) <= n {
        s.len() as int
    } else {
        fitting(s.drop_last(), n)
    }
}

/// The start of a text that fits the cap.
pub open spec fn capped(s: Seq<char>) -> Seq<char> {
    s.take(fitting(s, CLIP_CAP as int))
}

proof fn lemma_fitting(s: Seq<char>, n: int, k: int)
    requires
        0 <= k <= s.len(),
        bytes_in(s.take(k)) <= n,
        k < s.len() ==> bytes_in(s.take(k + 1)) > n,
    ensures
        fitting(s, n) == k,
    decreases s.len(),
{
    if k == s.len() {
        assert(s.take(k) =~= s);
    } else {
        lemma_bytes_prefix(s, k + 1, s.len() as int);
        assert(s.take(s.len() as int) =~= s);
        let f = s.drop_last();
        assert(f.take(k) =~= s.take(k));
        if k + 1 <= f.len() {
            assert(f.take(k + 1) =~= s.take(k + 1));
        }
        lemma_fitting(f, n, k);
    }
}

/// The start of a text that fits the cap. No character is cut in two.
pub fn cap_text(raw: &str) -> (r: String)
    ensures
        r@ == capped(raw@),
{
    let v = text::chars_of(raw);
    let mut i: usize = 0;
    let mut used: usize = 0;
    assert(v@.take(0) =~= Seq::<char>::empty());
    while i < v.len() && used + text::width_of(v[i]) <= CLIP_CAP
        invariant
            i <= v@.len(),
            used == bytes_in(v@.take(i as int)),
            used <= CLIP_CAP,
        decreases v@.len() - i,
    {
        proof {
            assert(v@.take(i + 1) =~= v@.take(i as int).push(v@[i as int]));
            lemma_bytes_push(v@.take(i as int), v@[i as int]);
        }
        used += text::width_of(v[i]);
        i += 1;
    }
    proof {
        if i < v@.len() {
            assert(v@.take(i + 1) =~= v@.take(i as int).push(v@[i as int]));
            lemma_bytes_push(v@.take(i as int), v@[i as int]);
        }
        lemma_fitting(v@, CLIP_CAP as int, i as int);
        assert(v@.take(i as int) =~= v@.subrange(0, i as int));
    }
    let head = text::slice(&v, 0, i);
    text::string_of(&head)
}

/// What is kept of a text is its start, fits the cap, and is as long as the cap
/// allows; a text that fits is kept whole.
pub proof fn law_cap_is_the_longest_start(s: Seq<char>)
    ensures
        capped(s).is_prefix_of(s),
        bytes_in(capped(s)) <= CLIP_CAP,
        bytes_in(s) <= CLIP_CAP ==> capped(s) == s,
        capped(s).len() < s.len() ==> bytes_in(capped(s)) + width(s[capped(s).len() as int]) > CLIP_CAP,
{
    lemma_capped(s, s);
    assert(s.take(s.len() as int) =~= s);
}

proof fn lemma_capped(s: Seq<char>, whole: Seq<char>)
    requires
        s.is_prefix_of(whole),
    ensures
        0 <= fitting(s, CLIP_CAP as int) <= s.len(),
        bytes_in(s.take(fitting(s, CLIP_CAP as int))) <= CLIP_CAP,
        fitting(s, CLIP_CAP as int) < s.len() ==> bytes_in(s.take(fitting(s, CLIP_CAP as int))) + width(
            s[fitting(s, CLIP_CAP as int)],
        ) > CLIP_CAP,
        bytes_in(s) <= CLIP_CAP ==> fitting(s, CLIP_CAP as int) == s.len(),
    decreases s.len(),
{
    let k = fitting(s, CLIP_CAP as int);
    if s.len() == 0 || bytes_in(s) <= CLIP_CAP {
        assert(s.take(s.len() as int) =~= s);
    } else {
        let f = s.drop_last();
        lemma_capped(f, whole);
        assert(f.take(k) =~= s.take(k));
        lemma_bytes_push(f, s.last());
        assert(f.push(s.last()) =~= s);
        if k == f.len() {
            assert(f.take(k) =~= f);
        }
    }
}

/// What a clipboard change says, without the NUL that ends it; nothing where it
/// is empty.
pub open spec fn said_in(raw: Seq<u8>) -> Option<Seq<u8>> {
    let said = if raw.len() > 0 && raw.last() == 0 {
        raw.drop_last()
    } else {
        raw
    };
    if said.len() == 0 {
        None
    } else {
        Some(said)
    }
}

/// What a clipboard change says, of the bytes up to and with the NUL that ends
/// it; nothing where it is empty.
pub fn payload(raw: Vec<u8>) -> (r: Option<Vec<u8>>)
    ensures
        (match r {
            Some(v) => Some(v@),
            None => None,
        }) == said_in(raw@),
        ({
            let said = if raw@.len() > 0 && raw@.last() == 0 {
                raw@.drop_last()
            } else {
                raw@
            };
            if said.len() == 0 {
                r is None
            } else {
                r matches Some(v) && v@ == said
            }
        }),
{
    let mut v = raw;
    let n: usize = v.len();
    if n > 0 && v[n - 1] == 0 {
        v.pop();
    }
    if v.len() == 0 {
        None
    } else {
        Some(v)
    }
}

/// One stretch of recording: how often recording was switched, and how often
/// its leave to record changed.
#[derive(Debug, Clone, Copy, PartialEq, Eq, Structural)]
pub struct Stretch {
    pub gen: u64,
    pub epoch: u64,
}

/// The clipboard text that was kept last, and the stretch of recording that it
/// belongs to.
#[derive(Debug)]
pub struct ClipCache {
    pub held: Option<(String, Stretch)>,
}

impl View for ClipCache {
    type V = Option<(Seq<char>, Stretch)>;

    open spec fn view(&self) -> Option<(Seq<char>, Stretch)> {
        match self.held {
            Some(h) => Some((h.0@, h.1)),
            None => None,
        }
    }
}

/// What to do with a clipboard text.
#[derive(Debug)]
pub enum Ingest {
    /// There is nothing to do.
    Ignore,
    /// Recording stands still: the text is dropped, and so is the one held.
    Drop,
    /// Keep the text, and hold it once it is kept.
    Keep(String),
}

/// What to do with a clipboard text.
pub open spec fn ingestion(raw: Seq<char>, recording: bool, held: Option<(Seq<char>, Stretch)>, now: Stretch) -> Option<
    Option<Seq<char>>,
> {
    if raw.len() == 0 {
        None
    } else if !recording {
        Some(None)
    } else if held == Some((capped(raw), now)) {
        None
    } else {
        Some(Some(capped(raw)))
    }
}

/// What an instruction says.
pub open spec fn instructed(i: Ingest) -> Option<Option<Seq<char>>> {
    match i {
        Ingest::Ignore => None,
        Ingest::Drop => Some(None),
        Ingest::Keep(s) => Some(Some(s@)),
    }
}

impl ClipCache {
    /// Nothing is held.
    pub fn new() -> (r: Self)
        ensures
            r@ is None,
    {
        ClipCache { held: None }
    }

    /// The text that a frame of this stretch of recording may carry.
    pub fn latest_cached(&self, now: Stretch) -> (r: Option<String>)
        ensures
            (match r {
                Some(s) => Some(s@),
                None => None,
            }) == carried(self@, now),
            match self@ {
                Some(h) => if h.1 == now && h.0.len() > 0 {
                    r matches Some(s) && s@ == h.0
                } else {
                    r is None
                },
                None => r is None,
            },
    {
        match &self.held {
            Some(h) => {
                proof {
                    crate::lookup::lemma_bytes_in(h.0@);
                }
                if h.1 == now && text::byte_len(h.0.as_str()) > 0 {
                    Some(h.0.clone())
                } else {
                    None
                }
            },
            None => None,
        }
    }

    /// Hold nothing.
    pub fn clear(&mut self)
        ensures
            final(self)@ is None,
    {
        self.held = None;
    }

    /// Hold a text that was kept.
    pub fn publish(&mut self, text: String, now: Stretch)
        ensures
            final(self)@ == Some((text@, now)),
    {
        self.held = Some((text, now));
    }

    /// What to do with a clipboard text. It is not held before it is kept; where
    /// recording stands still, what was held is forgotten.
    pub fn ingest(&mut self, raw: &str, recording: bool, now: Stretch) -> (r: Ingest)
        ensures
            instructed(r) == ingestion(raw@, recording, old(self)@, now),
            final(self)@ == (if raw@.len() > 0 && !recording {
                None
            } else {
                old(self)@
            }),
    {
        proof {
            crate::lookup::lemma_bytes_in(raw@);
        }
        if text::byte_len(raw) == 0 {
            return Ingest::Ignore;
        }
        let kept = cap_text(raw);
        if !recording {
            self.clear();
            return Ingest::Drop;
        }
        if let Some(h) = &self.held {
            if h.1 == now && text::same(h.0.as_str(), kept.as_str()) {
                return Ingest::Ignore;
            }
        }
        Ingest::Keep(kept)
    }
}

/// While recording stands still no text is kept, whatever it says, and what was
/// held is dropped; while it goes on every text that says something is kept, cut
/// to the cap, unless the same one was kept last in the same stretch.
pub proof fn law_texts_are_kept_while_recording(
    raw: Seq<char>,
    recording: bool,
    held: Option<(Seq<char>, Stretch)>,
    now: Stretch,
)
    ensures
        raw.len() == 0 ==> ingestion(raw, recording, held, now) is None,
        raw.len() > 0 && !recording ==> ingestion(raw, recording, held, now) == Some(None::<Seq<char>>),
        ingestion(raw, recording, held, now) matches Some(Some(kept)) ==> recording && kept.is_prefix_of(raw)
            && bytes_in(kept) <= 65_536,
        raw.len() > 0 && recording ==> {
            let again = held matches Some(h) && h.0 == capped(raw) && h.1 == now;
            &&& again ==> ingestion(raw, recording, held, now) is None
            &&& !again ==> ingestion(raw, recording, held, now) == Some(Some(capped(raw)))
        },
        bytes_in(raw) <= 65_536 ==> capped(raw) == raw,
{
    law_cap_is_the_longest_start(raw);
}

/// A change that ends with a NUL says all bytes before it, one without says all of
/// its bytes, and an empty one says nothing.
pub proof fn law_what_a_change_says(said: Seq<u8>)
    ensures
        said.len() > 0 ==> said_in(said.push(0)) == Some(said),
        said.len() > 0 && said.last() != 0 ==> said_in(said) == Some(said),
        said.len() == 0 ==> said_in(said) is None && said_in(said.push(0)) is None,
{
    assert(said.push(0).drop_last() =~= said);
}

/// The text that a frame of a stretch of recording may carry.
pub open spec fn carried(held: Option<(Seq<char>, Stretch)>, now: Stretch) -> Option<Seq<char>> {
    match held {
        Some(h) => if h.1 == now && h.0.len() > 0 {
            Some(h.0)
        } else {
            None
        },
        None => None,
    }
}

/// A frame carries the text that is held, where it was copied in the same stretch
/// of recording, and none from any other stretch.
pub proof fn law_frames_carry_texts_of_their_stretch(text: Seq<char>, then: Stretch, now: Stretch)
    ensures
        text.len() > 0 ==> carried(Some((text, now)), now) == Some(text),
        then.gen != now.gen || then.epoch != now.epoch ==> carried(Some((text, then)), now) is None,
        text.len() == 0 ==> carried(Some((text, then)), now) is None,
        carried(None, now) is None,
{
}

} // verus!
