//! The rows of the archive and the bytes they count for.
use crate::table::{law_one_more_row_weighs, total_of, Share, Weighed};
use crate::text::{self, bytes_in};
use vstd::prelude::*;

verus! {

/// A captured frame: where its picture lies and what was on screen.
#[derive(Debug)]
pub struct FrameInsert {
    pub ts: i64,
    pub path: String,
    pub app: String,
    pub title: String,
    pub workspace: String,
    pub output: String,
    pub width: i64,
    pub height: i64,
    pub out_w: i64,
    pub out_h: i64,
    pub crop_x: i64,
    pub crop_y: i64,
    pub crop_w: i64,
    pub crop_h: i64,
    pub bytes: i64,
    pub dhash: i64,
    pub encoder: String,
    pub crop_path: Option<String>,
    /// On-disk size of the full-resolution crop, counted in the byte budget
    /// beside the picture's `bytes`. Zero once the crop is gone.
    pub crop_bytes: i64,
}

/// What a text that may be missing says.
pub open spec fn option_view(s: Option<String>) -> Option<Seq<char>> {
    match s {
        Some(x) => Some(x@),
        None => None,
    }
}

/// What a frame says.
#[verifier::ext_equal]
pub struct FrameRow {
    pub ts: i64,
    pub path: Seq<char>,
    pub app: Seq<char>,
    pub title: Seq<char>,
    pub workspace: Seq<char>,
    pub output: Seq<char>,
    pub width: i64,
    pub height: i64,
    pub out_w: i64,
    pub out_h: i64,
    pub crop_x: i64,
    pub crop_y: i64,
    pub crop_w: i64,
    pub crop_h: i64,
    pub bytes: i64,
    pub dhash: i64,
    pub encoder: Seq<char>,
    pub crop_path: Option<Seq<char>>,
    pub crop_bytes: i64,
}

impl View for FrameInsert {
    type V = FrameRow;

    open spec fn view(&self) -> FrameRow {
        FrameRow {
            ts: self.ts,
            path: self.path@,
            app: self.app@,
            title: self.title@,
            workspace: self.workspace@,
            output: self.output@,
            width: self.width,
            height: self.height,
            out_w: self.out_w,
            out_h: self.out_h,
            crop_x: self.crop_x,
            crop_y: self.crop_y,
            crop_w: self.crop_w,
            crop_h: self.crop_h,
            bytes: self.bytes,
            dhash: self.dhash,
            encoder: self.encoder@,
            crop_path: option_view(self.crop_path),
            crop_bytes: self.crop_bytes,
        }
    }
}

/// A copy of a text that may be missing.
pub fn copy_option(s: &Option<String>) -> (r: Option<String>)
    ensures
        r == *s,
{
    match s {
        Some(x) => Some(x.clone()),
        None => None,
    }
}

impl Clone for FrameInsert {
    fn clone(&self) -> (r: Self)
        ensures
            r == *self,
    {
        FrameInsert {
            ts: self.ts,
            path: self.path.clone(),
            app: self.app.clone(),
            title: self.title.clone(),
            workspace: self.workspace.clone(),
            output: self.output.clone(),
            width: self.width,
            height: self.height,
            out_w: self.out_w,
            out_h: self.out_h,
            crop_x: self.crop_x,
            crop_y: self.crop_y,
            crop_w: self.crop_w,
            crop_h: self.crop_h,
            bytes: self.bytes,
            dhash: self.dhash,
            encoder: self.encoder.clone(),
            crop_path: copy_option(&self.crop_path),
            crop_bytes: self.crop_bytes,
        }
    }
}

impl Weighed for FrameInsert {
    open spec fn weight(row: FrameRow, share: Share) -> int {
        match share {
            Share::Own => row.bytes as int,
            Share::Side => row.crop_bytes as int,
        }
    }

    fn weigh(&self, share: Share) -> (r: i128) {
        match share {
            Share::Own => self.bytes as i128,
            Share::Side => self.crop_bytes as i128,
        }
    }
}

/// A clipboard text.
#[derive(Debug)]
pub struct Clip {
    pub mime: String,
    pub content: String,
    pub bytes: i64,
}

/// What a clipboard text says.
#[verifier::ext_equal]
pub struct ClipRow {
    pub mime: Seq<char>,
    pub content: Seq<char>,
    pub bytes: i64,
}

impl View for Clip {
    type V = ClipRow;

    open spec fn view(&self) -> ClipRow {
        ClipRow {
            mime: self.mime@,
            content: self.content@,
            bytes: self.bytes,
        }
    }
}

impl Clone for Clip {
    fn clone(&self) -> (r: Self)
        ensures
            r == *self,
    {
        Clip { mime: self.mime.clone(), content: self.content.clone(), bytes: self.bytes }
    }
}

/// The number of bytes that a text takes.
fn weight_of(s: &str) -> (r: i128)
    ensures
        r == bytes_in(s@),
        0 <= r <= 0xffff_ffff_ffff_ffff,
{
    text::byte_len(s) as i128
}

impl Weighed for Clip {
    open spec fn weight(row: ClipRow, share: Share) -> int {
        match share {
            Share::Own => bytes_in(row.content) as int,
            Share::Side => 0,
        }
    }

    fn weigh(&self, share: Share) -> (r: i128) {
        match share {
            Share::Own => weight_of(self.content.as_str()),
            Share::Side => 0,
        }
    }
}

/// The windows that stood open at a moment, as JSON.
#[derive(Debug)]
pub struct Layout {
    pub json: String,
}

/// What a layout says.
#[verifier::ext_equal]
pub struct LayoutRow {
    pub json: Seq<char>,
}

impl View for Layout {
    type V = LayoutRow;

    open spec fn view(&self) -> LayoutRow {
        LayoutRow {
            json: self.json@,
        }
    }
}

impl Clone for Layout {
    fn clone(&self) -> (r: Self)
        ensures
            r == *self,
    {
        Layout { json: self.json.clone() }
    }
}

impl Weighed for Layout {
    open spec fn weight(row: LayoutRow, share: Share) -> int {
        match share {
            Share::Own => bytes_in(row.json) as int,
            Share::Side => 0,
        }
    }

    fn weigh(&self, share: Share) -> (r: i128) {
        match share {
            Share::Own => weight_of(self.json.as_str()),
            Share::Side => 0,
        }
    }
}

/// The start or the end of a pause.
#[derive(Debug)]
pub struct PauseEvent {
    pub kind: String,
    pub reason: String,
}

/// What the start or the end of a pause says.
#[verifier::ext_equal]
pub struct EventRow {
    pub kind: Seq<char>,
    pub reason: Seq<char>,
}

impl View for PauseEvent {
    type V = EventRow;

    open spec fn view(&self) -> EventRow {
        EventRow {
            kind: self.kind@,
            reason: self.reason@,
        }
    }
}

impl Clone for PauseEvent {
    fn clone(&self) -> (r: Self)
        ensures
            r == *self,
    {
        PauseEvent { kind: self.kind.clone(), reason: self.reason.clone() }
    }
}

/// The text by which a frame is found.
#[derive(Debug)]
pub struct SearchText {
    pub text: String,
    pub app: String,
    pub title: String,
    pub clip: String,
}

/// What a search text says.
#[verifier::ext_equal]
pub struct TextRow {
    pub text: Seq<char>,
    pub app: Seq<char>,
    pub title: Seq<char>,
    pub clip: Seq<char>,
}

impl View for SearchText {
    type V = TextRow;

    open spec fn view(&self) -> TextRow {
        TextRow {
            text: self.text@,
            app: self.app@,
            title: self.title@,
            clip: self.clip@,
        }
    }
}

impl Clone for SearchText {
    fn clone(&self) -> (r: Self)
        ensures
            r == *self,
    {
        SearchText {
            text: self.text.clone(),
            app: self.app.clone(),
            title: self.title.clone(),
            clip: self.clip.clone(),
        }
    }
}

/// The number of bytes that the fields by which a frame is found take.
pub open spec fn text_bytes(row: TextRow) -> nat {
    bytes_in(row.text) + bytes_in(row.app) + bytes_in(row.title) + bytes_in(row.clip)
}

impl SearchText {
    fn weight_of_all(&self) -> (r: i128)
        ensures
            r == text_bytes(self@),
            r <= 4 * 0xffff_ffff_ffff_ffff,
    {
        weight_of(self.text.as_str()) + weight_of(self.app.as_str()) + weight_of(self.title.as_str()) + weight_of(
            self.clip.as_str(),
        )
    }
}

/// Every searchable field counts: all of them are retained.
impl Weighed for SearchText {
    open spec fn weight(row: TextRow, share: Share) -> int {
        match share {
            Share::Own => text_bytes(row) as int,
            Share::Side => 0,
        }
    }

    fn weigh(&self, share: Share) -> (r: i128) {
        match share {
            Share::Own => self.weight_of_all(),
            Share::Side => 0,
        }
    }
}

/// The search text of a frame where there is no full-text index.
#[derive(Debug)]
pub struct PlainText {
    pub row: SearchText,
}

impl View for PlainText {
    type V = TextRow;

    open spec fn view(&self) -> TextRow {
        self.row@
    }
}

impl Clone for PlainText {
    fn clone(&self) -> (r: Self)
        ensures
            r == *self,
    {
        PlainText { row: self.row.clone() }
    }
}

/// Every searchable field counts, as it does in the full-text index.
impl Weighed for PlainText {
    open spec fn weight(row: TextRow, share: Share) -> int {
        match share {
            Share::Own => text_bytes(row) as int,
            Share::Side => 0,
        }
    }

    fn weigh(&self, share: Share) -> (r: i128) {
        match share {
            Share::Own => self.row.weight_of_all(),
            Share::Side => 0,
        }
    }
}

/// A recognised word and its box in the stored frame. The four measures are
/// fractions of the frame, each kept as the bits of its IEEE 754 double.
#[derive(Debug)]
pub struct WordBox {
    pub word: String,
    pub x: u64,
    pub y: u64,
    pub w: u64,
    pub h: u64,
}

/// What a recognised word says.
#[verifier::ext_equal]
pub struct BoxRow {
    pub word: Seq<char>,
    pub x: u64,
    pub y: u64,
    pub w: u64,
    pub h: u64,
}

impl View for WordBox {
    type V = BoxRow;

    open spec fn view(&self) -> BoxRow {
        BoxRow {
            word: self.word@,
            x: self.x,
            y: self.y,
            w: self.w,
            h: self.h,
        }
    }
}

impl Clone for WordBox {
    fn clone(&self) -> (r: Self)
        ensures
            r == *self,
    {
        WordBox { word: self.word.clone(), x: self.x, y: self.y, w: self.w, h: self.h }
    }
}

impl Weighed for WordBox {
    open spec fn weight(row: BoxRow, share: Share) -> int {
        match share {
            Share::Own => bytes_in(row.word) as int,
            Share::Side => 0,
        }
    }

    fn weigh(&self, share: Share) -> (r: i128) {
        match share {
            Share::Own => weight_of(self.word.as_str()),
            Share::Side => 0,
        }
    }
}

/// A frame weighs its picture and its crop, a clipboard text and a layout the
/// bytes of their text, a search text the bytes of all of its four texts, and a
/// recognised word its bytes.
pub proof fn law_what_rows_weigh(k: i64, f: FrameRow, c: ClipRow, l: LayoutRow, t: TextRow, b: BoxRow)
    requires
        i64::MIN <= f.bytes + f.crop_bytes <= i64::MAX,
        bytes_in(c.content) <= i64::MAX,
        bytes_in(l.json) <= i64::MAX,
        bytes_in(t.text) + bytes_in(t.app) + bytes_in(t.title) + bytes_in(t.clip) <= i64::MAX,
        bytes_in(b.word) <= i64::MAX,
    ensures
        total_of::<FrameInsert>(seq![(k, f)]) == f.bytes + f.crop_bytes,
        total_of::<Clip>(seq![(k, c)]) == bytes_in(c.content),
        total_of::<Layout>(seq![(k, l)]) == bytes_in(l.json),
        total_of::<SearchText>(seq![(k, t)]) == bytes_in(t.text) + bytes_in(t.app) + bytes_in(t.title) + bytes_in(t.clip),
        total_of::<PlainText>(seq![(k, t)]) == bytes_in(t.text) + bytes_in(t.app) + bytes_in(t.title) + bytes_in(t.clip),
        total_of::<WordBox>(seq![(k, b)]) == bytes_in(b.word),
{
    let no_frame = Seq::<(i64, FrameRow)>::empty();
    let no_clip = Seq::<(i64, ClipRow)>::empty();
    let no_layout = Seq::<(i64, LayoutRow)>::empty();
    let no_text = Seq::<(i64, TextRow)>::empty();
    let no_box = Seq::<(i64, BoxRow)>::empty();
    law_one_more_row_weighs::<FrameInsert>(no_frame, k, f);
    law_one_more_row_weighs::<Clip>(no_clip, k, c);
    law_one_more_row_weighs::<Layout>(no_layout, k, l);
    law_one_more_row_weighs::<SearchText>(no_text, k, t);
    law_one_more_row_weighs::<PlainText>(no_text, k, t);
    law_one_more_row_weighs::<WordBox>(no_box, k, b);
    assert(no_frame.push((k, f)) =~= seq![(k, f)]);
    assert(no_clip.push((k, c)) =~= seq![(k, c)]);
    assert(no_layout.push((k, l)) =~= seq![(k, l)]);
    assert(no_text.push((k, t)) =~= seq![(k, t)]);
    assert(no_box.push((k, b)) =~= seq![(k, b)]);
}

} // verus!
