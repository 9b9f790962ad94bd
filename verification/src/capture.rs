//! Taking a picture of the focused output.
use crate::pixel::{self, decoded, ShmFormat};
use crate::text::{self, texts};
use vstd::prelude::*;

verus! {

/// A picture of an output as RGBA, row by row.
#[derive(Debug)]
pub struct RawFrame {
    pub rgba: Vec<u8>,
    pub width: u32,
    pub height: u32,
}

/// The name of the way in which pictures are taken.
pub open spec fn backend(compositor: bool, have_grim: bool) -> Seq<char> {
    if compositor {
        "wlr-screencopy"@
    } else if have_grim {
        "grim"@
    } else {
        "missing"@
    }
}

/// The way in which pictures are taken.
pub fn backend_name(compositor: bool, have_grim: bool) -> (r: &'static str)
    ensures
        r@ == backend(compositor, have_grim),
        r@ == (if compositor {
            "wlr-screencopy"@
        } else if have_grim {
            "grim"@
        } else {
            "missing"@
        }),
{
    if compositor {
        "wlr-screencopy"
    } else if have_grim {
        "grim"
    } else {
        "missing"
    }
}

/// How to go about taking a picture.
#[derive(Debug, Clone, Copy, PartialEq, Eq, Structural)]
pub enum Grab {
    /// Ask the compositor.
    Screencopy,
    /// Run the screenshot program on the focused output.
    Grim,
    /// Neither can be had.
    Unavailable,
    /// It is not known which output has the focus: take none.
    NoOutput,
}

/// How to go about taking a picture of an output, where `tried` is that the
/// compositor was asked in vain.
pub open spec fn way_to_grab(output: Seq<char>, compositor: bool, tried: bool, have_grim: bool) -> Grab {
    if output.len() == 0 {
        Grab::NoOutput
    } else if compositor && !tried {
        Grab::Screencopy
    } else if have_grim {
        Grab::Grim
    } else {
        Grab::Unavailable
    }
}

/// How to go about taking a picture of an output. `tried` is that the compositor
/// was asked in vain. An output without a name is none: another one is never
/// taken in its place.
pub fn next_grab(output: &str, compositor: bool, tried: bool, have_grim: bool) -> (r: Grab)
    ensures
        r == way_to_grab(output@, compositor, tried, have_grim),
        r == (if output@.len() == 0 {
            Grab::NoOutput
        } else if compositor && !tried {
            Grab::Screencopy
        } else if have_grim {
            Grab::Grim
        } else {
            Grab::Unavailable
        }),
{
    proof {
        crate::lookup::lemma_bytes_in(output@);
    }
    if text::byte_len(output) == 0 {
        Grab::NoOutput
    } else if compositor && !tried {
        Grab::Screencopy
    } else if have_grim {
        Grab::Grim
    } else {
        Grab::Unavailable
    }
}

/// The first of the outputs that has exactly the name asked for. An empty name
/// asks for none.
pub fn pick_output(names: &Vec<String>, want: &str) -> (r: Option<usize>)
    ensures
        match r {
            Some(i) => {
                &&& want@.len() > 0
                &&& i < names@.len()
                &&& texts(names@)[i as int] == want@
                &&& forall|j: int| 0 <= j < i ==> #[trigger] texts(names@)[j] != want@
            },
            None => want@.len() == 0 || !texts(names@).contains(want@),
        },
{
    proof {
        crate::lookup::lemma_bytes_in(want@);
    }
    if text::byte_len(want) == 0 {
        return None;
    }
    let mut i: usize = 0;
    while i < names.len()
        invariant
            i <= names@.len(),
            want@.len() > 0,
            forall|j: int| 0 <= j < i ==> #[trigger] texts(names@)[j] != want@,
        decreases names@.len() - i,
    {
        assert(texts(names@)[i as int] == names@[i as int]@);
        if text::same(names[i].as_str(), want) {
            return Some(i);
        }
        i += 1;
    }
    None
}

/// The milliseconds between frames, where the screenshot program takes them or
/// the compositor does.
pub open spec fn base_cadence(cadence_ms: u64, grim: bool) -> u64 {
    if grim && cadence_ms < 5000 {
        5000
    } else if !grim && cadence_ms < 1000 {
        1000
    } else {
        cadence_ms
    }
}

/// The milliseconds to the next frame.
pub open spec fn next_cadence(base_ms: u64, unchanged: bool) -> u64 {
    if unchanged && base_ms < 10_000 {
        10_000
    } else {
        base_ms
    }
}

/// The milliseconds between frames: the screenshot program is run less often.
pub fn base_cadence_ms(cadence_ms: u64, grim: bool) -> (r: u64)
    ensures
        r == base_cadence(cadence_ms, grim),
        r == (if grim && cadence_ms < 5000 {
            5000
        } else if !grim && cadence_ms < 1000 {
            1000
        } else {
            cadence_ms
        }),
{
    let least: u64 = if grim { 5000 } else { 1000 };
    if cadence_ms < least {
        least
    } else {
        cadence_ms
    }
}

/// The milliseconds to the next frame: longer where the last one was the same as
/// the one before.
pub fn next_cadence_ms(base_ms: u64, unchanged: bool) -> (r: u64)
    ensures
        r == next_cadence(base_ms, unchanged),
        r == (if unchanged && base_ms < 10_000 {
            10_000
        } else {
            base_ms
        }),
{
    if unchanged && base_ms < 10_000 {
        10_000
    } else {
        base_ms
    }
}

/// The shape of a picture in shared memory.
#[derive(Debug, Clone, Copy, PartialEq, Eq, Structural)]
pub struct Shape {
    pub width: i32,
    pub height: i32,
    pub stride: i32,
    pub format: ShmFormat,
}

/// What the compositor tells while a picture is taken.
#[derive(Debug, Clone, Copy)]
pub enum CopyEvent {
    /// The shape that the picture will have.
    Buffer { format: ShmFormat, width: u32, height: u32, stride: u32 },
    Ready,
    Failed,
    Other,
}

/// What to do next to take a picture.
#[derive(Debug, Clone, Copy, PartialEq, Eq, Structural)]
pub enum CopyStep {
    /// Wait for the compositor.
    Wait,
    /// Have the picture copied.
    Copy,
    /// Read the picture.
    Read,
    /// The compositor will not tell the shape of a picture.
    FrameFailed,
    /// The compositor did not copy the picture.
    CopyFailed,
}

/// A picture being taken.
#[derive(Debug, Clone, Copy)]
pub struct Copying {
    pub shape: Shape,
    pub announced: bool,
    pub asked: bool,
    pub ready: bool,
    pub failed: bool,
}

/// A number as the compositor's protocol holds it.
pub open spec fn signed(n: u32) -> int {
    if n < 0x8000_0000 {
        n as int
    } else {
        n - 0x1_0000_0000
    }
}

fn as_signed(n: u32) -> (r: i32)
    ensures
        r == signed(n),
{
    if n < 0x8000_0000 {
        n as i32
    } else {
        (n as i64 - 0x1_0000_0000) as i32
    }
}

impl Copying {
    /// Nothing is known of the picture yet.
    pub fn begin() -> (r: Self)
        ensures
            r.shape == (Shape { width: 0, height: 0, stride: 0, format: ShmFormat::Argb8888 }),
            !r.announced && !r.asked && !r.ready && !r.failed,
    {
        Copying {
            shape: Shape { width: 0, height: 0, stride: 0, format: ShmFormat::Argb8888 },
            announced: false,
            asked: false,
            ready: false,
            failed: false,
        }
    }

    /// A picture being taken, once the compositor told something.
    pub open spec fn noted(self, e: CopyEvent) -> Copying {
        match e {
            CopyEvent::Buffer { format, width, height, stride } => Copying {
                shape: Shape {
                    width: signed(width) as i32,
                    height: signed(height) as i32,
                    stride: signed(stride) as i32,
                    format,
                },
                announced: true,
                ..self
            },
            CopyEvent::Ready => Copying { ready: true, ..self },
            CopyEvent::Failed => Copying { failed: true, ..self },
            CopyEvent::Other => self,
        }
    }

    /// Take note of what the compositor tells.
    pub fn note(&mut self, e: CopyEvent)
        ensures
            *final(self) == old(self).noted(e),
            *final(self) == (match e {
                CopyEvent::Buffer { format, width, height, stride } => Copying {
                    shape: Shape {
                        width: signed(width) as i32,
                        height: signed(height) as i32,
                        stride: signed(stride) as i32,
                        format,
                    },
                    announced: true,
                    ..*old(self)
                },
                CopyEvent::Ready => Copying { ready: true, ..*old(self) },
                CopyEvent::Failed => Copying { failed: true, ..*old(self) },
                CopyEvent::Other => *old(self),
            }),
    {
        match e {
            CopyEvent::Buffer { format, width, height, stride } => {
                self.shape = Shape {
                    width: as_signed(width),
                    height: as_signed(height),
                    stride: as_signed(stride),
                    format,
                };
                self.announced = true;
            },
            CopyEvent::Ready => {
                self.ready = true;
            },
            CopyEvent::Failed => {
                self.failed = true;
            },
            CopyEvent::Other => {},
        }
    }

    /// What to do next.
    pub open spec fn upcoming(self) -> CopyStep {
        if !self.asked {
            if !self.announced && !self.failed {
                CopyStep::Wait
            } else if self.failed || self.shape.width <= 0 {
                CopyStep::FrameFailed
            } else {
                CopyStep::Copy
            }
        } else if self.failed {
            CopyStep::CopyFailed
        } else if self.ready {
            CopyStep::Read
        } else {
            CopyStep::Wait
        }
    }

    /// What to do next. A copy is asked for once.
    pub fn step(&mut self) -> (r: CopyStep)
        ensures
            r == old(self).upcoming(),
            *final(self) == (if r == CopyStep::Copy {
                Copying { asked: true, ..*old(self) }
            } else {
                *old(self)
            }),
    {
        if !self.asked {
            if !self.announced && !self.failed {
                CopyStep::Wait
            } else if self.failed || self.shape.width <= 0 {
                CopyStep::FrameFailed
            } else {
                self.asked = true;
                CopyStep::Copy
            }
        } else if self.failed {
            CopyStep::CopyFailed
        } else if self.ready {
            CopyStep::Read
        } else {
            CopyStep::Wait
        }
    }

    /// The picture of this shape can be held and read.
    pub open spec fn readable(shape: Shape) -> bool {
        &&& shape.width > 0
        &&& shape.height >= 0
        &&& shape.stride >= 0
        &&& shape.width * shape.height * 4 <= u32::MAX
        &&& shape.stride * shape.height <= i32::MAX
    }

    /// The picture in shared memory as RGBA; nothing of a shape that cannot be
    /// held.
    pub fn read(&self, memory: &[u8]) -> (r: Option<RawFrame>)
        ensures
            if Copying::readable(self.shape) {
                r matches Some(f) && f.width == self.shape.width && f.height == self.shape.height && f.rgba@ == decoded(
                    self.shape.format,
                    memory@,
                    self.shape.width as int,
                    self.shape.height as int,
                    self.shape.stride as int,
                )
            } else {
                r is None
            },
    {
        match buffer_size(self.shape) {
            Some(_) => {
                let s = self.shape;
                proof {
                    assert((s.height - 1) * s.stride <= u32::MAX) by (nonlinear_arith)
                        requires
                            s.height >= 0,
                            s.stride >= 0,
                            s.stride * s.height <= i32::MAX,
                    ;
                }
                let width: u32 = s.width as u32;
                let height: u32 = s.height as u32;
                Some(
                    RawFrame {
                        rgba: pixel::decode_buffer(s.format, memory, width, height, s.stride as u32),
                        width,
                        height,
                    },
                )
            },
            None => None,
        }
    }
}

/// The bytes of shared memory that a picture takes; nothing of a shape that
/// cannot be held.
pub fn buffer_size(shape: Shape) -> (r: Option<i32>)
    ensures
        if Copying::readable(shape) {
            r matches Some(n) && n == shape.stride * shape.height
        } else {
            r is None
        },
{
    if shape.width <= 0 || shape.height < 0 || shape.stride < 0 {
        return None;
    }
    proof {
        assert(0 <= shape.width * shape.height <= 0x7fff_ffff * 0x7fff_ffff) by (nonlinear_arith)
            requires
                0 <= shape.width <= 0x7fff_ffff,
                0 <= shape.height <= 0x7fff_ffff,
        ;
        assert(0 <= shape.stride * shape.height <= 0x7fff_ffff * 0x7fff_ffff) by (nonlinear_arith)
            requires
                0 <= shape.stride <= 0x7fff_ffff,
                0 <= shape.height <= 0x7fff_ffff,
        ;
    }
    let pixels: i128 = shape.width as i128 * shape.height as i128 * 4;
    let bytes: i128 = shape.stride as i128 * shape.height as i128;
    if pixels > u32::MAX as i128 || bytes > i32::MAX as i128 {
        return None;
    }
    Some(bytes as i32)
}

/// Shared memory of one shape can be used again for a picture of another.
pub fn reusable(held: Option<Shape>, shape: Shape) -> (r: bool)
    ensures
        r == (held == Some(shape)),
{
    match held {
        Some(h) => h == shape,
        None => false,
    }
}

/// Once the compositor says that it failed, no picture is read.
pub proof fn law_a_failed_copy_is_not_read(c: Copying)
    requires
        c.failed,
    ensures
        c.upcoming() == CopyStep::FrameFailed || c.upcoming() == CopyStep::CopyFailed,
{
}

/// A picture is asked for once its shape is known, read once the compositor says
/// that it is ready, and not before; what fails before is told apart from what
/// fails after.
pub proof fn law_a_picture_is_read_when_ready(c: Copying)
    ensures
        c.upcoming() == CopyStep::Read <==> c.asked && c.ready && !c.failed,
        c.upcoming() == CopyStep::Copy <==> !c.asked && c.announced && !c.failed && c.shape.width > 0,
        c.upcoming() == CopyStep::CopyFailed <==> c.asked && c.failed,
        c.upcoming() == CopyStep::FrameFailed <==> !c.asked && (c.failed || (c.announced && c.shape.width <= 0)),
        c.upcoming() == CopyStep::Wait <==> !c.failed && (!c.asked && !c.announced || c.asked && !c.ready),
{
}

/// Frames never come sooner than was asked for, nor sooner than once a second from
/// the compositor and once in five seconds from the screenshot program; they come
/// as often as was asked for where that is not too often; and while nothing
/// changes at most once in ten seconds.
pub proof fn law_how_often_frames_come(ms: u64, grim: bool, unchanged: bool)
    ensures
        ({
            let base = base_cadence(ms, grim);
            let next = next_cadence(base, unchanged);
            &&& base >= ms && next >= base
            &&& base >= (if grim { 5000 } else { 1000int })
            &&& ms >= (if grim { 5000 } else { 1000int }) ==> base == ms
            &&& base == ms || base == 5000 || base == 1000
            &&& !unchanged ==> next == base
            &&& unchanged ==> next >= 10_000 && (next == base || next == 10_000)
        }),
{
}

/// The compositor is asked before the screenshot program is run, and once; the
/// program only where it is there; and nothing is taken of an output without a
/// name.
pub proof fn law_how_pictures_are_taken(output: Seq<char>, compositor: bool, tried: bool, have_grim: bool)
    ensures
        ({
            let g = way_to_grab(output, compositor, tried, have_grim);
            &&& g == Grab::NoOutput <==> output.len() == 0
            &&& g == Grab::Screencopy ==> compositor && !tried
            &&& g == Grab::Grim ==> have_grim && (tried || !compositor)
            &&& g == Grab::Unavailable ==> !have_grim && (tried || !compositor)
            &&& output.len() > 0 && compositor && !tried ==> g == Grab::Screencopy
        }),
        backend(true, have_grim) == "wlr-screencopy"@,
        backend(false, true) == "grim"@,
        backend(false, false) == "missing"@,
{
}

/// What the compositor tells is taken as it is told: a shape of ordinary size is
/// the shape of the picture, and that a picture is ready or failed is never taken
/// back by what is told afterwards.
pub proof fn law_what_the_compositor_tells(c: Copying, e: CopyEvent)
    ensures
        c.ready ==> c.noted(e).ready,
        c.failed ==> c.noted(e).failed,
        c.announced ==> c.noted(e).announced,
        c.noted(e).asked == c.asked,
        e is Ready ==> c.noted(e).ready && c.noted(e).shape == c.shape && c.noted(e).failed == c.failed,
        e is Failed ==> c.noted(e).failed && c.noted(e).shape == c.shape && c.noted(e).ready == c.ready,
        e is Other ==> c.noted(e) == c,
        e matches CopyEvent::Buffer { format, width, height, stride } ==> {
            let n = c.noted(e);
            &&& n.announced && n.shape.format == format && n.ready == c.ready && n.failed == c.failed
            &&& width <= i32::MAX && height <= i32::MAX && stride <= i32::MAX ==> n.shape.width == width && n.shape.height
                == height && n.shape.stride == stride
            &&& width > i32::MAX ==> n.shape.width < 0
        },
{
}

} // verus!
