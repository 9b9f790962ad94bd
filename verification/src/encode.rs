//! The picture of a frame: scaled down to be kept, and cut out around the
//! focused window to be read.
use crate::float::{self, scaled_edge};
use crate::hypr::{ActiveRow, ActiveWindow, Monitor, MonitorRow};
use vstd::prelude::*;

verus! {

/// How a picture was encoded.
#[derive(Debug, Clone, Copy, PartialEq, Eq, Structural)]
pub enum Encoder {
    Cwebp,
    ImageWebp,
    Png,
}

impl Encoder {
    /// The name of the encoder.
    pub open spec fn name(self) -> Seq<char> {
        match self {
            Encoder::Cwebp => "cwebp"@,
            Encoder::ImageWebp => "image-webp"@,
            Encoder::Png => "png"@,
        }
    }

    /// The extension of the files that the encoder writes.
    pub open spec fn extension(self) -> Seq<char> {
        match self {
            Encoder::Png => "png"@,
            _ => "webp"@,
        }
    }

    /// The name of the encoder.
    pub fn as_str(self) -> (r: &'static str)
        ensures
            r@ == self.name(),
    {
        match self {
            Encoder::Cwebp => "cwebp",
            Encoder::ImageWebp => "image-webp",
            Encoder::Png => "png",
        }
    }

    /// The extension of the files that the encoder writes.
    pub fn ext(self) -> (r: &'static str)
        ensures
            r@ == self.extension(),
    {
        match self {
            Encoder::Cwebp | Encoder::ImageWebp => "webp",
            Encoder::Png => "png",
        }
    }
}

/// The encoder to use, where the better one may be installed.
pub open spec fn preferred_encoder(have_cwebp: bool) -> Encoder {
    if have_cwebp {
        Encoder::Cwebp
    } else {
        Encoder::Png
    }
}

/// The encoder to use.
pub fn preferred(have_cwebp: bool) -> (r: Encoder)
    ensures
        r == preferred_encoder(have_cwebp),
{
    if have_cwebp {
        Encoder::Cwebp
    } else {
        Encoder::Png
    }
}

/// The name of the encoder to use.
pub fn preferred_name(have_cwebp: bool) -> (r: &'static str)
    ensures
        r@ == preferred_encoder(have_cwebp).name(),
{
    preferred(have_cwebp).as_str()
}

/// The extension of the files that the encoder to use writes.
pub fn preferred_ext(have_cwebp: bool) -> (r: &'static str)
    ensures
        r@ == preferred_encoder(have_cwebp).extension(),
{
    preferred(have_cwebp).ext()
}

/// What to do next to encode a frame. `cwebp` is what came of the better
/// encoder, where it was tried.
#[derive(Debug, Clone, Copy, PartialEq, Eq, Structural)]
pub enum Attempt {
    Try(Encoder),
    Done(Encoder),
}

/// What to do next to encode a frame.
pub open spec fn attempt_after(have_cwebp: bool, cwebp: Option<bool>) -> Attempt {
    if !have_cwebp || cwebp == Some(false) {
        Attempt::Try(Encoder::Png)
    } else if cwebp == Some(true) {
        Attempt::Done(Encoder::Cwebp)
    } else {
        Attempt::Try(Encoder::Cwebp)
    }
}

/// What to do next to encode a frame: the better encoder first, where it is
/// installed, and the plain one where that fails or is missing.
pub fn next_attempt(have_cwebp: bool, cwebp: Option<bool>) -> (r: Attempt)
    ensures
        r == attempt_after(have_cwebp, cwebp),
        r == (if !have_cwebp || cwebp == Some(false) {
            Attempt::Try(Encoder::Png)
        } else if cwebp == Some(true) {
            Attempt::Done(Encoder::Cwebp)
        } else {
            Attempt::Try(Encoder::Cwebp)
        }),
{
    if !have_cwebp {
        return Attempt::Try(Encoder::Png);
    }
    match cwebp {
        Some(true) => Attempt::Done(Encoder::Cwebp),
        Some(false) => Attempt::Try(Encoder::Png),
        None => Attempt::Try(Encoder::Cwebp),
    }
}

/// A picture as RGBA, row by row.
#[derive(Debug)]
pub struct RgbaFrame {
    pub bytes: Vec<u8>,
    pub width: u32,
    pub height: u32,
}

/// Pixels made to fit a picture: what is missing is zero, what is too much is
/// left out.
pub open spec fn fitted(rgba: Seq<u8>, n: nat) -> Seq<u8> {
    Seq::new(n, |i: int| if i < rgba.len() { rgba[i] } else { 0u8 })
}

/// Pixels made to fit a picture.
pub fn buffer(rgba: &[u8], width: u32, height: u32) -> (r: Vec<u8>)
    requires
        width * height * 4 <= u32::MAX,
    ensures
        r@ == fitted(rgba@, (width * height * 4) as nat),
{
    proof {
        assert(0 <= width * height) by (nonlinear_arith);
    }
    let n: u32 = width * height * 4;
    let need: usize = n as usize;
    let mut out: Vec<u8> = Vec::new();
    let mut i: usize = 0;
    while i < need
        invariant
            i <= need,
            out@.len() == i,
            forall|k: int| 0 <= k < i ==> #[trigger] out@[k] == (if k < rgba@.len() { rgba@[k] } else { 0u8 }),
        decreases need - i,
    {
        if i < rgba.len() {
            out.push(rgba[i]);
        } else {
            out.push(0);
        }
        i += 1;
    }
    assert(out@ =~= fitted(rgba@, need as nat));
    out
}

/// What `image::imageops::resize` with its triangle filter makes of a picture.
pub uninterp spec fn resized(rgba: Seq<u8>, width: u32, height: u32, new_width: u32, new_height: u32) -> Seq<u8>;

/// `image::imageops::resize` with `FilterType::Triangle`, on RGBA pixels: what it
/// makes of a picture depends on the picture and on the two sizes alone, and is
/// a picture of the new size. How it weighs the pixels is not stated.
#[verifier::external_body]
pub(crate) fn resize(rgba: Vec<u8>, width: u32, height: u32, new_width: u32, new_height: u32) -> (r: Option<Vec<u8>>)
    requires
        width > 0,
        height > 0,
        new_width >= 1,
        new_width <= width,
        new_height >= 1,
        new_height <= height,
        width * height * 4 <= u32::MAX,
        rgba@.len() == width * height * 4,
    ensures
        r is Some,
        r.unwrap()@ == resized(rgba@, width, height, new_width, new_height),
        r.unwrap()@.len() == new_width * new_height * 4,
{
    let img = image::RgbaImage::from_raw(width, height, rgba)?;
    let filter = image::imageops::FilterType::Triangle;
    Some(image::imageops::resize(&img, new_width, new_height, filter).into_raw())
}

/// The part of a picture that starts in column `x` of row `y`.
pub open spec fn part_of(rgba: Seq<u8>, width: int, x: int, y: int, w: int, h: int) -> Seq<u8> {
    Seq::new(
        (w * h * 4) as nat,
        |k: int| rgba[((y + (k / 4) / w) * width + x + (k / 4) % w) * 4 + k % 4],
    )
}

/// `image::imageops::crop_imm` on RGBA pixels, as a picture of its own: the pixels
/// of the part, each as it was.
#[verifier::external_body]
pub(crate) fn crop(rgba: Vec<u8>, width: u32, height: u32, x: u32, y: u32, w: u32, h: u32) -> (r: Option<Vec<u8>>)
    requires
        w >= 1,
        h >= 1,
        x + w <= width,
        y + h <= height,
        width * height * 4 <= u32::MAX,
        rgba@.len() == width * height * 4,
    ensures
        r is Some,
        r.unwrap()@ == part_of(rgba@, width as int, x as int, y as int, w as int, h as int),
{
    let img = image::RgbaImage::from_raw(width, height, rgba)?;
    Some(image::imageops::crop_imm(&img, x, y, w, h).to_image().into_raw())
}

/// The longer edge of a picture.
pub open spec fn long_edge(width: u32, height: u32) -> u32 {
    if width >= height {
        width
    } else {
        height
    }
}

fn copy_bytes(rgba: &[u8]) -> (r: Vec<u8>)
    ensures
        r@ == rgba@,
{
    let mut out: Vec<u8> = Vec::new();
    let mut i: usize = 0;
    while i < rgba.len()
        invariant
            i <= rgba@.len(),
            out@ == rgba@.take(i as int),
        decreases rgba@.len() - i,
    {
        out.push(rgba[i]);
        i += 1;
        assert(out@ =~= rgba@.take(i as int));
    }
    assert(rgba@.take(i as int) =~= rgba@);
    out
}

/// A picture is another one scaled down so that its longer edge has at most 1280
/// pixels. One that is small enough stays as it is.
pub open spec fn is_scaled(rgba: Seq<u8>, width: u32, height: u32, r: RgbaFrame) -> bool {
    if width == 0 || height == 0 || long_edge(width, height) <= 1280 {
        r.bytes@ == rgba && r.width == width && r.height == height
    } else {
        let long = long_edge(width, height) as nat;
        &&& r.width == scaled_edge(width as nat, long)
        &&& r.height == scaled_edge(height as nat, long)
        &&& r.width <= 1280 && r.height <= 1280
        &&& r.bytes@.len() == r.width * r.height * 4
        &&& r.bytes@ == resized(fitted(rgba, (width * height * 4) as nat), width, height, r.width, r.height)
    }
}

/// A picture scaled down.
pub fn downscale_720p(rgba: &[u8], width: u32, height: u32) -> (r: RgbaFrame)
    requires
        width * height * 4 <= u32::MAX,
    ensures
        is_scaled(rgba@, width, height, r),
{
    if width == 0 || height == 0 {
        return RgbaFrame { bytes: copy_bytes(rgba), width, height };
    }
    let long = if width >= height { width } else { height };
    if long <= 1280 {
        return RgbaFrame { bytes: copy_bytes(rgba), width, height };
    }
    let nw = float::scale_edge(width, long);
    let nh = float::scale_edge(height, long);
    proof {
        float::law_edge_does_not_grow(width as nat, long as nat);
        float::law_edge_does_not_grow(height as nat, long as nat);
    }
    let fit = buffer(rgba, width, height);
    match resize(fit, width, height, nw, nh) {
        Some(bytes) => RgbaFrame { bytes, width: nw, height: nh },
        None => RgbaFrame { bytes: Vec::new(), width: nw, height: nh },
    }
}

/// A number as its low 32 bits.
pub open spec fn low_word(n: int) -> int {
    n % 0x1_0000_0000
}

/// How far to the right of, or below, the start of a monitor a window starts.
pub open spec fn offset(at: i64, origin: i64) -> int {
    if at - origin > 0 {
        low_word(at - origin)
    } else {
        0
    }
}

/// The extent of a window from a start on, within an edge.
pub open spec fn extent(size: i64, start: int, edge: int) -> int {
    let n = low_word(size as int);
    if n > edge - start {
        edge - start
    } else if n < 1 {
        1
    } else {
        n
    }
}

/// The part of a picture that the focused window takes up: column, row, width
/// and height.
pub open spec fn region(width: u32, height: u32, active: ActiveRow, monitor: MonitorRow) -> Option<(int, int, int, int)> {
    let x = offset(active.at.0, monitor.x);
    let y = offset(active.at.1, monitor.y);
    if active.size.0 <= 0 || active.size.1 <= 0 || x >= width || y >= height {
        None
    } else {
        Some((x, y, extent(active.size.0, x, width as int), extent(active.size.1, y, height as int)))
    }
}

/// A picture is the part of another one, where there is a part to show.
pub open spec fn is_crop(rgba: Seq<u8>, width: u32, height: u32, part: Option<(int, int, int, int)>, r: Option<RgbaFrame>) -> bool {
    match part {
        Some(p) => r matches Some(f) && f.width == p.2 && f.height == p.3 && f.bytes@ == part_of(
            fitted(rgba, (width * height * 4) as nat),
            width as int,
            p.0,
            p.1,
            p.2,
            p.3,
        ),
        None => r is None,
    }
}

/// The distances between a window and a monitor can be told.
pub open spec fn comparable(active: ActiveRow, monitor: MonitorRow) -> bool {
    &&& active.size.0 > 0 && active.size.1 > 0 ==> {
        &&& i64::MIN <= active.at.0 - monitor.x <= i64::MAX
        &&& i64::MIN <= active.at.1 - monitor.y <= i64::MAX
    }
}

fn offset_of(at: i64, origin: i64) -> (r: u32)
    requires
        i64::MIN <= at - origin <= i64::MAX,
    ensures
        r == offset(at, origin),
{
    let d: i64 = at - origin;
    if d > 0 {
        (d % 0x1_0000_0000) as u32
    } else {
        0
    }
}

fn extent_of(size: i64, start: u32, edge: u32) -> (r: u32)
    requires
        size > 0,
        start < edge,
    ensures
        r == extent(size, start as int, edge as int),
        1 <= r <= edge - start,
{
    let n: u32 = (size % 0x1_0000_0000) as u32;
    if n > edge - start {
        edge - start
    } else if n < 1 {
        1
    } else {
        n
    }
}

/// The part of a picture that the focused window takes up; nothing where it
/// takes up none.
pub fn crop_roi(rgba: &[u8], width: u32, height: u32, active: &ActiveWindow, monitor: &Monitor) -> (r: Option<RgbaFrame>)
    requires
        width * height * 4 <= u32::MAX,
        comparable(active@, monitor@),
    ensures
        is_crop(rgba@, width, height, region(width, height, active@, monitor@), r),
{
    if active.size.0 <= 0 || active.size.1 <= 0 {
        return None;
    }
    let x = offset_of(active.at.0, monitor.x);
    let y = offset_of(active.at.1, monitor.y);
    if x >= width || y >= height {
        return None;
    }
    let w = extent_of(active.size.0, x, width);
    let h = extent_of(active.size.1, y, height);
    let fit = buffer(rgba, width, height);
    match crop(fit, width, height, x, y, w, h) {
        Some(bytes) => Some(RgbaFrame { bytes, width: w, height: h }),
        None => None,
    }
}

/// The part that the focused window takes up lies in the picture, and is not
/// empty.
pub proof fn law_crop_lies_in_the_picture(width: u32, height: u32, active: ActiveRow, monitor: MonitorRow)
    ensures
        region(width, height, active, monitor) matches Some(p) ==> {
            &&& 0 <= p.0 && p.2 >= 1 && p.0 + p.2 <= width
            &&& 0 <= p.1 && p.3 >= 1 && p.1 + p.3 <= height
        },
{
}

/// A window that lies on its monitor takes up that very part of the picture; one
/// that reaches beyond an edge takes up the part of it that is to be seen; and one
/// that begins beyond an edge takes up none.
pub proof fn law_the_crop_is_where_the_window_is(width: u32, height: u32, active: ActiveRow, monitor: MonitorRow)
    requires
        active.size.0 > 0,
        active.size.1 > 0,
        active.size.0 < 0x1_0000_0000,
        active.size.1 < 0x1_0000_0000,
        monitor.x <= active.at.0 < monitor.x + 0x1_0000_0000,
        monitor.y <= active.at.1 < monitor.y + 0x1_0000_0000,
    ensures
        ({
            let x = active.at.0 - monitor.x;
            let y = active.at.1 - monitor.y;
            &&& x >= width || y >= height ==> region(width, height, active, monitor) is None
            &&& x < width && y < height ==> region(width, height, active, monitor) == Some(
                (
                    x,
                    y,
                    if x + active.size.0 <= width { active.size.0 as int } else { width - x },
                    if y + active.size.1 <= height { active.size.1 as int } else { height - y },
                ),
            )
        }),
{
}

/// A window that begins left of its monitor or above it is taken from the edge on.
pub proof fn law_the_crop_begins_at_the_edge(width: u32, height: u32, active: ActiveRow, monitor: MonitorRow)
    requires
        0 < active.size.0 < 0x1_0000_0000,
        0 < active.size.1 < 0x1_0000_0000,
        width > 0,
        height > 0,
        active.at.0 <= monitor.x,
        active.at.1 <= monitor.y,
    ensures
        region(width, height, active, monitor) matches Some(p) && p.0 == 0 && p.1 == 0 && p.2 == (if active.size.0
            <= width {
            active.size.0 as int
        } else {
            width as int
        }) && p.3 == (if active.size.1 <= height {
            active.size.1 as int
        } else {
            height as int
        }),
        active.size.0 <= 0 || active.size.1 <= 0 ==> region(width, height, active, monitor) is None,
{
}

/// Without an extent a window takes up nothing.
pub proof fn law_no_window_no_crop(width: u32, height: u32, active: ActiveRow, monitor: MonitorRow)
    requires
        active.size.0 <= 0 || active.size.1 <= 0,
    ensures
        region(width, height, active, monitor) is None,
{
}

/// A crop has the pixels of the picture: the one in column `i` of its row `j` is
/// that in column `x + i` of row `y + j` of the picture.
pub proof fn law_a_crop_has_the_pixels(
    rgba: Seq<u8>,
    width: u32,
    height: u32,
    part: (int, int, int, int),
    r: RgbaFrame,
    i: int,
    j: int,
    c: int,
)
    requires
        rgba.len() == width * height * 4,
        is_crop(rgba, width, height, Some(part), Some(r)),
        0 <= part.0 && part.2 >= 1 && part.0 + part.2 <= width,
        0 <= part.1 && part.3 >= 1 && part.1 + part.3 <= height,
        0 <= i < part.2,
        0 <= j < part.3,
        0 <= c < 4,
    ensures
        r.width == part.2,
        r.height == part.3,
        r.bytes@.len() == part.2 * part.3 * 4,
        r.bytes@[(j * part.2 + i) * 4 + c] == rgba[((part.1 + j) * width + part.0 + i) * 4 + c],
{
    let w = part.2;
    let k = (j * w + i) * 4 + c;
    assert(0 <= j * w && j * w + i < w * part.3) by (nonlinear_arith)
        requires
            0 <= i < w,
            0 <= j < part.3,
    ;
    assert(k / 4 == j * w + i && k % 4 == c);
    assert((j * w + i) / w == j && (j * w + i) % w == i) by (nonlinear_arith)
        requires
            0 <= i < w,
            0 <= j,
    ;
    let row = part.1 + j;
    assert(0 <= row * width && row * width + width <= width * height) by (nonlinear_arith)
        requires
            0 <= row,
            row + 1 <= height,
    ;
    assert(fitted(rgba, (width * height * 4) as nat) =~= rgba);
}

/// A picture that is small enough stays as it is; a larger one is scaled to the
/// longer edge that pictures may have at most.
pub proof fn law_small_pictures_stay(rgba: Seq<u8>, width: u32, height: u32, r: RgbaFrame)
    requires
        is_scaled(rgba, width, height, r),
    ensures
        width <= 1280 && height <= 1280 ==> r.bytes@ == rgba && r.width == width && r.height == height,
        width > 0 && height > 0 ==> 1 <= r.width <= width && 1 <= r.height <= height && r.width <= 1280 && r.height
            <= 1280,
{
    if width > 0 && height > 0 && long_edge(width, height) > 1280 {
        let long = long_edge(width, height) as nat;
        crate::float::law_edge_does_not_grow(width as nat, long);
        crate::float::law_edge_does_not_grow(height as nat, long);
        crate::float::law_long_edge_is_capped(width as nat, long);
        crate::float::law_long_edge_is_capped(height as nat, long);
    }
}

/// Files end as what they hold: a picture of either encoder for WebP in one way
/// and one of the encoder for PNG in the other. The better encoder is used where
/// it is there.
pub proof fn law_files_end_as_what_they_hold(have_cwebp: bool)
    ensures
        Encoder::Cwebp.extension() == "webp"@,
        Encoder::ImageWebp.extension() == "webp"@,
        Encoder::Png.extension() == "png"@,
        Encoder::Cwebp.name() == "cwebp"@,
        Encoder::ImageWebp.name() == "image-webp"@,
        Encoder::Png.name() == "png"@,
        preferred_encoder(have_cwebp) == Encoder::Cwebp <==> have_cwebp,
        preferred_encoder(have_cwebp) == Encoder::Png <==> !have_cwebp,
{
}

/// A large picture is scaled in proportion: its longer edge has 1280 pixels, and
/// the other one is less than one pixel off its exact length.
pub proof fn law_large_pictures_keep_their_proportion(rgba: Seq<u8>, width: u32, height: u32, r: RgbaFrame)
    requires
        is_scaled(rgba, width, height, r),
        width > 0,
        height > 0,
        width > 1280 || height > 1280,
    ensures
        width >= height ==> r.width == 1280 && (r.height - 1) * width < height * 1280 < (r.height + 1) * width,
        height >= width ==> r.height == 1280 && (r.width - 1) * height < width * 1280 < (r.width + 1) * height,
        r.bytes@.len() == r.width * r.height * 4,
{
    let long = long_edge(width, height) as nat;
    crate::float::law_edges_keep_their_proportion(width as nat, long);
    crate::float::law_edges_keep_their_proportion(height as nat, long);
}

/// The better encoder is tried first where it is there, and is done where it
/// succeeds; where it fails or is not there, the plain one is tried.
pub proof fn law_encoders_are_tried_in_turn(cwebp: Option<bool>)
    ensures
        attempt_after(true, None) == Attempt::Try(Encoder::Cwebp),
        attempt_after(true, Some(true)) == Attempt::Done(Encoder::Cwebp),
        attempt_after(true, Some(false)) == Attempt::Try(Encoder::Png),
        attempt_after(false, cwebp) == Attempt::Try(Encoder::Png),
{
}

} // verus!
