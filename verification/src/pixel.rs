//! Pixels as the compositor hands them over, and the start of the current day.
use vstd::arithmetic::div_mod::lemma_fundamental_div_mod_converse;
use vstd::prelude::*;

verus! {

/// The layouts of shared-memory pixels that are turned into RGBA.
#[derive(Debug, Clone, Copy, PartialEq, Eq, Structural)]
pub enum ShmFormat {
    Argb8888,
    Xrgb8888,
    Abgr8888,
    Xbgr8888,
    Unknown(u32),
}

impl ShmFormat {
    /// The format that a code stands for.
    pub open spec fn of_code(raw: u32) -> ShmFormat {
        if raw == 0x3432_5241 || raw == 0 {
            ShmFormat::Argb8888
        } else if raw == 0x3432_5258 {
            ShmFormat::Xrgb8888
        } else if raw == 0x3432_4241 {
            ShmFormat::Abgr8888
        } else if raw == 0x3432_4258 {
            ShmFormat::Xbgr8888
        } else {
            ShmFormat::Unknown(raw)
        }
    }

    /// The format that a little-endian DRM code stands for.
    pub fn from_wayland_raw(raw: u32) -> (r: Self)
        ensures
            r == ShmFormat::of_code(raw),
            r == (if raw == 0x3432_5241 || raw == 0 {
                ShmFormat::Argb8888
            } else if raw == 0x3432_5258 {
                ShmFormat::Xrgb8888
            } else if raw == 0x3432_4241 {
                ShmFormat::Abgr8888
            } else if raw == 0x3432_4258 {
                ShmFormat::Xbgr8888
            } else {
                ShmFormat::Unknown(raw)
            }),
    {
        match raw {
            0x3432_5241 => ShmFormat::Argb8888,
            0x3432_5258 => ShmFormat::Xrgb8888,
            0x3432_4241 => ShmFormat::Abgr8888,
            0x3432_4258 => ShmFormat::Xbgr8888,
            0 => ShmFormat::Argb8888,
            other => ShmFormat::Unknown(other),
        }
    }

    /// The format carries no alpha: its fourth byte is padding.
    pub open spec fn padded(self) -> bool {
        match self {
            ShmFormat::Argb8888 | ShmFormat::Abgr8888 => false,
            _ => true,
        }
    }

    /// Red stands first in memory.
    pub open spec fn red_first(self) -> bool {
        match self {
            ShmFormat::Abgr8888 | ShmFormat::Xbgr8888 => true,
            _ => false,
        }
    }
}

/// One channel of a pixel as RGBA: red, green, blue, alpha.
pub open spec fn channel(fmt: ShmFormat, raw: Seq<u8>, c: int) -> u8 {
    if c == 3 {
        if fmt.padded() {
            255
        } else {
            raw[3]
        }
    } else if fmt.red_first() {
        raw[c]
    } else {
        raw[2 - c]
    }
}

/// One pixel as RGBA.
pub fn decode_pixel(fmt: ShmFormat, raw: [u8; 4]) -> (r: [u8; 4])
    ensures
        forall|c: int| 0 <= c < 4 ==> #[trigger] r@[c] == channel(fmt, raw@, c),
{
    match fmt {
        ShmFormat::Argb8888 => [raw[2], raw[1], raw[0], raw[3]],
        ShmFormat::Xrgb8888 => [raw[2], raw[1], raw[0], 255],
        ShmFormat::Abgr8888 => [raw[0], raw[1], raw[2], raw[3]],
        ShmFormat::Xbgr8888 => [raw[0], raw[1], raw[2], 255],
        ShmFormat::Unknown(_) => [raw[2], raw[1], raw[0], 255],
    }
}

/// A format without alpha gives an opaque pixel; one with alpha keeps it.
pub proof fn law_padding_is_opaque(fmt: ShmFormat, raw: Seq<u8>)
    ensures
        fmt.padded() ==> channel(fmt, raw, 3) == 255,
        !fmt.padded() ==> channel(fmt, raw, 3) == raw[3],
{
}

/// Where the pixel in column `x` of row `y` starts in memory.
pub open spec fn pixel_start(x: int, y: int, stride: int) -> int {
    y * stride + x * 4
}

/// One byte of a decoded picture. A pixel that the memory does not hold in full
/// is all zero.
pub open spec fn decoded_byte(fmt: ShmFormat, src: Seq<u8>, width: int, stride: int, k: int) -> u8 {
    let i = pixel_start((k / 4) % width, (k / 4) / width, stride);
    if i + 3 < src.len() {
        channel(fmt, src.subrange(i, i + 4), k % 4)
    } else {
        0
    }
}

/// A picture as RGBA, row by row.
pub open spec fn decoded(fmt: ShmFormat, src: Seq<u8>, width: int, height: int, stride: int) -> Seq<u8> {
    Seq::new((width * height * 4) as nat, |k: int| decoded_byte(fmt, src, width, stride, k))
}

/// A picture as RGBA, row by row.
pub fn decode_buffer(fmt: ShmFormat, src: &[u8], width: u32, height: u32, stride: u32) -> (r: Vec<u8>)
    requires
        width * height * 4 <= u32::MAX,
        (height - 1) * stride <= u32::MAX,
    ensures
        r@ == decoded(fmt, src@, width as int, height as int, stride as int),
{
    let mut rgba: Vec<u8> = Vec::new();
    let mut y: u32 = 0;
    proof {
        assert(width * height >= 0) by (nonlinear_arith);
    }
    while y < height
        invariant
            y <= height,
            (height - 1) * stride <= u32::MAX,
            width * height * 4 <= u32::MAX,
            rgba@.len() == y * width * 4,
            forall|k: int|
                0 <= k < rgba@.len() ==> #[trigger] rgba@[k] == decoded_byte(
                    fmt,
                    src@,
                    width as int,
                    stride as int,
                    k,
                ),
        decreases height - y,
    {
        proof {
            assert(y * stride <= (height - 1) * stride) by (nonlinear_arith)
                requires
                    y <= height - 1,
            ;
        }
        let row: u32 = y * stride;
        let mut x: u32 = 0;
        while x < width
            invariant
                x <= width,
                y < height,
                row == y * stride,
                width * height * 4 <= u32::MAX,
                rgba@.len() == (y * width + x) * 4,
                forall|k: int|
                    0 <= k < rgba@.len() ==> #[trigger] rgba@[k] == decoded_byte(
                        fmt,
                        src@,
                        width as int,
                        stride as int,
                        k,
                    ),
            decreases width - x,
        {
            let i: u64 = row as u64 + x as u64 * 4;
            let ghost p = y * width + x;
            let ghost was = rgba@;
            proof {
                lemma_fundamental_div_mod_converse(p, width as int, y as int, x as int);
                assert(pixel_start(x as int, y as int, stride as int) == i);
            }
            let px: [u8; 4] = if i + 3 < src.len() as u64 {
                let at: usize = i as usize;
                let raw: [u8; 4] = [src[at], src[at + 1], src[at + 2], src[at + 3]];
                assert(raw@ =~= src@.subrange(i as int, i + 4));
                decode_pixel(fmt, raw)
            } else {
                [0u8, 0u8, 0u8, 0u8]
            };
            rgba.push(px[0]);
            rgba.push(px[1]);
            rgba.push(px[2]);
            rgba.push(px[3]);
            proof {
                assert forall|k: int| 0 <= k < rgba@.len() implies #[trigger] rgba@[k] == decoded_byte(
                    fmt,
                    src@,
                    width as int,
                    stride as int,
                    k,
                ) by {
                    if k < was.len() {
                        assert(rgba@[k] == was[k]);
                    } else {
                        assert(k / 4 == p);
                        assert(k % 4 == k - p * 4);
                        assert(rgba@[k] == px@[k % 4]);
                    }
                }
            }
            x += 1;
        }
        proof {
            assert((y + 1) * width == y * width + width) by (nonlinear_arith);
        }
        y += 1;
    }
    proof {
        assert(y * width == width * height) by (nonlinear_arith)
            requires
                y == height,
        ;
        assert(rgba@ =~= decoded(fmt, src@, width as int, height as int, stride as int));
    }
    rgba
}

/// The start of the day that `now` lies in, in milliseconds since the epoch.
/// `midnight` is the local midnight before it in seconds, as far as the calendar
/// of the system tells it; without one the day is that of the epoch's own clock.
pub open spec fn day_start(now: int, midnight: Option<i64>) -> int {
    if now <= 0 {
        0
    } else {
        match midnight {
            Some(s) => if s >= 0 {
                s * 1000
            } else {
                now - now % 86_400_000
            },
            None => now - now % 86_400_000,
        }
    }
}

/// The midnight can be told in milliseconds.
pub open spec fn in_reach(midnight: Option<i64>) -> bool {
    match midnight {
        Some(s) => s * 1000 <= i64::MAX,
        None => true,
    }
}

/// The start of the day that `now_ms` lies in.
pub fn local_day_start_ms(now_ms: i64, midnight: Option<i64>) -> (r: i64)
    requires
        in_reach(midnight),
    ensures
        r == day_start(now_ms as int, midnight),
{
    if now_ms <= 0 {
        return 0;
    }
    match midnight {
        Some(s) => if s >= 0 {
            s * 1000
        } else {
            now_ms - now_ms % 86_400_000
        },
        None => now_ms - now_ms % 86_400_000,
    }
}

/// The stamps of the day that `now_ms` lies in, up to `now_ms`.
pub fn local_day_bounds(now_ms: i64, midnight: Option<i64>) -> (r: (i64, i64))
    requires
        in_reach(midnight),
    ensures
        r.0 == day_start(now_ms as int, midnight),
        r.1 == (if now_ms >= r.0 { now_ms } else { r.0 }),
{
    let start = local_day_start_ms(now_ms, midnight);
    (start, if now_ms >= start { now_ms } else { start })
}

/// Without a calendar the day starts at most a day before `now`, and never
/// after it.
pub proof fn law_day_is_not_future(now: int)
    requires
        now > 0,
    ensures
        day_start(now, None) <= now < day_start(now, None) + 86_400_000,
{
}

/// Recording starts with the daemon where the user consented and asked for it at
/// login. Whether it was on before is of no account.
pub fn startup_recording(consent_at: i64, arm_on_login: bool, persisted_armed: bool) -> (r: bool)
    ensures
        r == (consent_at > 0 && arm_on_login),
{
    consent_at > 0 && arm_on_login
}

/// Where the channels of a pixel stand in memory: blue, green and red in the
/// formats that are named after alpha or padding and red, and red, green and blue
/// in those that are named after blue.
pub proof fn law_channels(raw: Seq<u8>)
    ensures
        channel(ShmFormat::Argb8888, raw, 0) == raw[2],
        channel(ShmFormat::Argb8888, raw, 1) == raw[1],
        channel(ShmFormat::Argb8888, raw, 2) == raw[0],
        channel(ShmFormat::Argb8888, raw, 3) == raw[3],
        channel(ShmFormat::Xrgb8888, raw, 0) == raw[2],
        channel(ShmFormat::Xrgb8888, raw, 1) == raw[1],
        channel(ShmFormat::Xrgb8888, raw, 2) == raw[0],
        channel(ShmFormat::Xrgb8888, raw, 3) == 255,
        channel(ShmFormat::Abgr8888, raw, 0) == raw[0],
        channel(ShmFormat::Abgr8888, raw, 1) == raw[1],
        channel(ShmFormat::Abgr8888, raw, 2) == raw[2],
        channel(ShmFormat::Abgr8888, raw, 3) == raw[3],
        channel(ShmFormat::Xbgr8888, raw, 0) == raw[0],
        channel(ShmFormat::Xbgr8888, raw, 1) == raw[1],
        channel(ShmFormat::Xbgr8888, raw, 2) == raw[2],
        channel(ShmFormat::Xbgr8888, raw, 3) == 255,
{
}

/// A decoded picture has the pixel in column `x` of row `y` of the memory in the
/// same place, whatever lies between the rows of the memory.
pub proof fn law_pixels_stay_in_place(
    fmt: ShmFormat,
    src: Seq<u8>,
    width: int,
    height: int,
    stride: int,
    x: int,
    y: int,
    c: int,
)
    requires
        0 <= x < width,
        0 <= y < height,
        0 <= c < 4,
        stride >= 0,
    ensures
        decoded(fmt, src, width, height, stride).len() == width * height * 4,
        ({
            let at = y * stride + x * 4;
            let out = decoded(fmt, src, width, height, stride)[(y * width + x) * 4 + c];
            &&& at + 4 <= src.len() ==> out == channel(fmt, seq![src[at], src[at + 1], src[at + 2], src[at + 3]], c)
            &&& at + 4 > src.len() ==> out == 0
        }),
{
    let k = (y * width + x) * 4 + c;
    let at = y * stride + x * 4;
    assert(0 <= y * width && y * width + x < width * height) by (nonlinear_arith)
        requires
            0 <= x < width,
            0 <= y < height,
    ;
    assert(0 <= at) by (nonlinear_arith)
        requires
            at == y * stride + x * 4,
            0 <= x,
            0 <= y,
            0 <= stride,
    ;
    assert(k / 4 == y * width + x && k % 4 == c);
    assert((y * width + x) / width == y && (y * width + x) % width == x) by (nonlinear_arith)
        requires
            0 <= x < width,
            0 <= y,
    ;
    if at + 4 <= src.len() {
        assert(src.subrange(at, at + 4) =~= seq![src[at], src[at + 1], src[at + 2], src[at + 3]]);
    }
}

/// The day starts at the local midnight where the calendar tells one, and else at
/// the last whole day of the epoch's own clock.
pub proof fn law_the_day_starts_at_midnight(now: int, midnight: i64)
    requires
        now > 0,
    ensures
        midnight >= 0 ==> day_start(now, Some(midnight)) == midnight * 1000,
        midnight < 0 ==> day_start(now, Some(midnight)) == day_start(now, None),
        day_start(now, None) % 86_400_000 == 0,
        day_start(now, None) <= now < day_start(now, None) + 86_400_000,
        day_start(0, Some(midnight)) == 0,
{
}

/// The code of a format is its four letters, the first in the lowest byte: two for
/// alpha or padding and red, or for either and blue, and then twenty-four. Zero is
/// the format with alpha and red; every other code is kept as it is.
pub proof fn law_codes_of_formats(raw: u32)
    ensures
        ({
            let a = 'A' as int;
            let x = 'X' as int;
            let r = 'R' as int;
            let b = 'B' as int;
            let rest = ('2' as int) * 0x1_0000 + ('4' as int) * 0x100_0000;
            let f = ShmFormat::of_code(raw);
            &&& f == ShmFormat::Argb8888 <==> raw == a + r * 0x100 + rest || raw == 0
            &&& f == ShmFormat::Xrgb8888 <==> raw == x + r * 0x100 + rest
            &&& f == ShmFormat::Abgr8888 <==> raw == a + b * 0x100 + rest
            &&& f == ShmFormat::Xbgr8888 <==> raw == x + b * 0x100 + rest
            &&& f matches ShmFormat::Unknown(code) ==> code == raw
        }),
{
}

} // verus!
