//! VNC capture: RFB pixel decoding and framebuffer assembly. The server
//! advertises one pixel format for the whole session; every rectangle of
//! raw pixel data is decoded against it, with an optional palette for
//! 8-bit mode, into an 8-bit-per-channel (true colour) or 16-bit
//! (palette) RGB raster.

use vstd::prelude::*;
use crate::error::Error;
use crate::raster::covered;
use crate::raster::pixel_of_cell;
use crate::raster::rect_cell;
use crate::raster::lemma_rect_cells;
use crate::raster::lemma_covered_cells;

verus! {

/// The server-negotiated RFB pixel format, immutable for a session.
#[derive(Copy, Clone, Debug)]
pub struct PixelFormat {
    pub bits_per_pixel: u8,
    pub depth: u8,
    pub big_endian: bool,
    pub true_colour: bool,
    pub red_max: u16,
    pub green_max: u16,
    pub blue_max: u16,
    pub red_shift: u8,
    pub green_shift: u8,
    pub blue_shift: u8,
}

/// One palette entry, 16 bits per channel as RFB sends them.
#[derive(Copy, Clone, Debug)]
pub struct Colour {
    pub red: u16,
    pub green: u16,
    pub blue: u16,
}

/// The palette for 8-bit mode: exactly 256 entries, installed at most
/// once per session by a `SetColourMap` event.
#[derive(Debug)]
pub struct ColourMap {
    pub first_colour: u16,
    pub colours: Vec<Colour>,
}

impl ColourMap {
    pub open spec fn wf(&self) -> bool {
        self.colours@.len() == 256
    }
}

/// A rectangle within the framebuffer, as the server addresses it.
#[derive(Copy, Clone, Debug)]
pub struct Rect {
    pub left: u16,
    pub top: u16,
    pub width: u16,
    pub height: u16,
}

/// A decoded pixel: 8 bits per channel for true-colour formats, 16 bits
/// per channel for palette mode.
#[derive(Copy, Clone, Debug)]
pub enum ColourFormat {
    U8((u8, u8, u8)),
    U16((u16, u16, u16)),
}

/// The number of one bits in `n`.
pub open spec fn ones(n: int) -> int
    decreases n,
{
    if n <= 0 {
        0
    } else {
        n % 2 + ones(n / 2)
    }
}

/// Two to the power `n` (one for non-positive `n`).
pub open spec fn pow2_int(n: int) -> int
    decreases n,
{
    if n <= 0 {
        1
    } else {
        2 * pow2_int(n - 1)
    }
}

/// The native 16-bit pixel value read from two bytes in the format's
/// byte order.
pub open spec fn px16(f: PixelFormat, bytes: Seq<u8>) -> u32 {
    if f.big_endian {
        ((bytes[0] as int) * 256 + (bytes[1] as int)) as u32
    } else {
        ((bytes[1] as int) * 256 + (bytes[0] as int)) as u32
    }
}

/// The native 32-bit pixel value read from four bytes in the format's
/// byte order.
pub open spec fn px32(f: PixelFormat, bytes: Seq<u8>) -> u32 {
    if f.big_endian {
        ((bytes[0] as int) * 0x1000000 + (bytes[1] as int) * 0x10000 + (bytes[2] as int) * 0x100
            + (bytes[3] as int)) as u32
    } else {
        ((bytes[3] as int) * 0x1000000 + (bytes[2] as int) * 0x10000 + (bytes[1] as int) * 0x100
            + (bytes[0] as int)) as u32
    }
}

/// One colour channel masked out of a pixel value.
pub open spec fn raw_channel(px: u32, shift: u8, max: u16) -> u32 {
    (px >> (shift as u32)) & (max as u32)
}

/// One colour channel scaled so its significant bits occupy the top of
/// a byte: a 5-bit channel is multiplied by 8, a 6-bit one by 4.
pub open spec fn scaled_channel(px: u32, shift: u8, max: u16) -> int {
    raw_channel(px, shift, max) * pow2_int(8 - ones(max as int))
}

/// Count the one bits of `m`.
fn ones_u16(m: u16) -> (r: u32)
    ensures
        r == ones(m as int),
        r <= m,
    decreases m,
{
    if m == 0 {
        0
    } else {
        (m % 2) as u32 + ones_u16(m / 2)
    }
}

/// Two to the power `n`, for the channel-scaling factors.
fn pow2_u32(n: u32) -> (r: u32)
    requires
        n <= 8,
    ensures
        r == pow2_int(n as int),
        r <= 256,
{
    proof {
        reveal_with_fuel(pow2_int, 10);
    }
    if n == 0 {
        1
    } else if n == 1 {
        2
    } else if n == 2 {
        4
    } else if n == 3 {
        8
    } else if n == 4 {
        16
    } else if n == 5 {
        32
    } else if n == 6 {
        64
    } else if n == 7 {
        128
    } else {
        256
    }
}

/// Two to any power is positive.
proof fn lemma_pow2_pos(n: int)
    ensures
        pow2_int(n) >= 1,
    decreases n,
{
    if n > 0 {
        lemma_pow2_pos(n - 1);
    }
}

/// Whether the format is a supported 2-byte true-colour one.
pub open spec fn is_format16(f: PixelFormat) -> bool {
    f.bits_per_pixel == 16 && (f.depth == 16 || f.depth == 15)
}

/// Whether the format is the supported 4-byte true-colour one.
pub open spec fn is_format32(f: PixelFormat) -> bool {
    f.bits_per_pixel == 32 && f.depth == 24
}

/// Whether the format is the 8-bit palette one.
pub open spec fn is_format8(f: PixelFormat) -> bool {
    f.bits_per_pixel == 8 && f.depth == 8
}

/// Whether the 16-bit format's shifts and masks are usable: every shift
/// inside the pixel and every mask at most 8 bits wide.
pub open spec fn format16_usable(f: PixelFormat) -> bool {
    f.red_shift < 16 && f.green_shift < 16 && f.blue_shift < 16 && ones(f.red_max as int) <= 8
        && ones(f.green_max as int) <= 8 && ones(f.blue_max as int) <= 8
}

/// Whether the 32-bit format's shifts stay inside the pixel.
pub open spec fn format32_usable(f: PixelFormat) -> bool {
    f.red_shift < 32 && f.green_shift < 32 && f.blue_shift < 32
}

/// Decode one pixel's raw bytes into colour channels according to the
/// session's pixel format.
///
/// For the 2-byte true-colour formats each channel is masked out of the
/// native pixel value and scaled up to a full byte; for the 4-byte one
/// the channels are already byte-wide; for 8-bit palette mode the single
/// byte indexes the colour map, and decoding fails if no colour map has
/// been installed yet. Any other format combination is an unsupported-
/// format error, fatal to the session.
pub fn pixel_to_rgb(format: &PixelFormat, colour_map: &Option<ColourMap>, bytes: &[u8]) -> (r:
    Result<ColourFormat, Error>)
    requires
        colour_map matches Some(m) ==> m.wf(),
    ensures
        !(is_format16(*format) || is_format32(*format) || is_format8(*format)) ==> (r matches Err(
            e,
        ) && e is Vnc),
        is_format16(*format) ==> {
            if bytes@.len() != 2 {
                r matches Err(e) && e is Conversion
            } else if !format16_usable(*format) {
                r matches Err(e) && e is Vnc
            } else {
                let px = px16(*format, bytes@);
                let rr = scaled_channel(px, format.red_shift, format.red_max);
                let gg = scaled_channel(px, format.green_shift, format.green_max);
                let bb = scaled_channel(px, format.blue_shift, format.blue_max);
                if rr <= 255 && gg <= 255 && bb <= 255 {
                    r == Ok::<ColourFormat, Error>(
                        ColourFormat::U8(((rr as u8, gg as u8, bb as u8))),
                    )
                } else {
                    r matches Err(e) && e is Conversion
                }
            }
        },
        is_format32(*format) ==> {
            if bytes@.len() != 4 {
                r matches Err(e) && e is Conversion
            } else if !format32_usable(*format) {
                r matches Err(e) && e is Vnc
            } else {
                let px = px32(*format, bytes@);
                let rr = raw_channel(px, format.red_shift, format.red_max);
                let gg = raw_channel(px, format.green_shift, format.green_max);
                let bb = raw_channel(px, format.blue_shift, format.blue_max);
                if rr <= 255 && gg <= 255 && bb <= 255 {
                    r == Ok::<ColourFormat, Error>(
                        ColourFormat::U8(((rr as u8, gg as u8, bb as u8))),
                    )
                } else {
                    r matches Err(e) && e is Conversion
                }
            }
        },
        is_format8(*format) ==> {
            if bytes@.len() == 0 {
                r matches Err(e) && e is Conversion
            } else if colour_map is None {
                r matches Err(e) && e matches Error::Vnc(m) && m@
                    == "No colour map supplied for 8-bit mode!"@
            } else {
                let entry = colour_map->0.colours@[bytes@[0] as int];
                r == Ok::<ColourFormat, Error>(
                    ColourFormat::U16(((entry.red, entry.green, entry.blue))),
                )
            }
        },
{
    let bpp = format.bits_per_pixel;
    let depth = format.depth;
    if bpp == 16 && (depth == 16 || depth == 15) {
        if bytes.len() != 2 {
            return Err(Error::Conversion(String::from_str("expected 2 bytes per pixel")));
        }
        if !(format.red_shift < 16 && format.green_shift < 16 && format.blue_shift < 16) {
            return Err(Error::Vnc(String::from_str("Unsupported channel shift")));
        }
        let kr = ones_u16(format.red_max);
        let kg = ones_u16(format.green_max);
        let kb = ones_u16(format.blue_max);
        if kr > 8 || kg > 8 || kb > 8 {
            return Err(Error::Vnc(String::from_str("Unsupported channel width")));
        }
        let px: u32 = if format.big_endian {
            (bytes[0] as u32) * 256 + (bytes[1] as u32)
        } else {
            (bytes[1] as u32) * 256 + (bytes[0] as u32)
        };
        let mr: u32 = (px >> (format.red_shift as u32)) & (format.red_max as u32);
        let mg: u32 = (px >> (format.green_shift as u32)) & (format.green_max as u32);
        let mb: u32 = (px >> (format.blue_shift as u32)) & (format.blue_max as u32);
        proof {
            assert(mr <= format.red_max && mg <= format.green_max && mb <= format.blue_max) by {
                assert(forall|x: u32, m: u32| #[trigger] (x & m) <= m) by (bit_vector);
            }
        }
        let fr = pow2_u32(8 - kr);
        let fg = pow2_u32(8 - kg);
        let fb = pow2_u32(8 - kb);
        proof {
            assert(mr * fr <= 0xffff * 256 && mg * fg <= 0xffff * 256 && mb * fb <= 0xffff * 256)
                by (nonlinear_arith)
                requires
                    mr <= 0xffff,
                    mg <= 0xffff,
                    mb <= 0xffff,
                    fr <= 256,
                    fg <= 256,
                    fb <= 256,
            ;
        }
        let sr = mr * fr;
        let sg = mg * fg;
        let sb = mb * fb;
        if sr <= 255 && sg <= 255 && sb <= 255 {
            Ok(ColourFormat::U8((sr as u8, sg as u8, sb as u8)))
        } else {
            Err(Error::Conversion(String::from_str("channel value out of byte range")))
        }
    } else if bpp == 32 && depth == 24 {
        if bytes.len() != 4 {
            return Err(Error::Conversion(String::from_str("expected 4 bytes per pixel")));
        }
        if !(format.red_shift < 32 && format.green_shift < 32 && format.blue_shift < 32) {
            return Err(Error::Vnc(String::from_str("Unsupported channel shift")));
        }
        let px: u32 = if format.big_endian {
            (bytes[0] as u32) * 0x1000000 + (bytes[1] as u32) * 0x10000 + (bytes[2] as u32) * 0x100
                + (bytes[3] as u32)
        } else {
            (bytes[3] as u32) * 0x1000000 + (bytes[2] as u32) * 0x10000 + (bytes[1] as u32) * 0x100
                + (bytes[0] as u32)
        };
        let mr: u32 = (px >> (format.red_shift as u32)) & (format.red_max as u32);
        let mg: u32 = (px >> (format.green_shift as u32)) & (format.green_max as u32);
        let mb: u32 = (px >> (format.blue_shift as u32)) & (format.blue_max as u32);
        if mr <= 255 && mg <= 255 && mb <= 255 {
            Ok(ColourFormat::U8((mr as u8, mg as u8, mb as u8)))
        } else {
            Err(Error::Conversion(String::from_str("channel value out of byte range")))
        }
    } else if bpp == 8 && depth == 8 {
        if bytes.len() == 0 {
            return Err(Error::Conversion(String::from_str("expected 1 byte per pixel")));
        }
        let px = bytes[0];
        match colour_map {
            Some(map) => {
                let colour = &map.colours[px as usize];
                Ok(ColourFormat::U16((colour.red, colour.green, colour.blue)))
            },
            None => Err(Error::Vnc(String::from_str("No colour map supplied for 8-bit mode!"))),
        }
    } else {
        Err(Error::Vnc(String::from_str("Unsupported colour depth")))
    }
}

/// The reassembled raster: 8 bits per channel RGB for true-colour
/// sessions, 16 bits per channel for palette sessions.
#[derive(Debug)]
pub enum FrameBuffer {
    Rgb8(Vec<u8>),
    Rgb16(Vec<u16>),
}

/// What the event loop should do after an event has been handled.
#[derive(Copy, Clone, PartialEq, Eq, Structural, Debug)]
pub enum VncStep {
    /// Keep polling for events.
    Continue,
    /// The frame is complete (or the server is gone): save what we have.
    Finished,
}

/// One event from the VNC session, as the protocol reader hands it over.
#[derive(Debug)]
pub enum VncEvent {
    /// A rectangle of raw pixels in the session's pixel format.
    PutPixels(Rect, Vec<u8>),
    /// The palette for 8-bit mode: a first colour index and the entries.
    SetColourMap(u16, Vec<Colour>),
    /// The server's explicit completion signal.
    EndOfFrame,
    /// The connection ended; what was received so far is the image.
    Disconnected,
    /// Any other event type is ignored.
    Other,
}

/// A true-colour format the session can render: 8-bit channels.
pub open spec fn vnc_true_mode(f: PixelFormat) -> bool {
    (f.depth == 15 || f.depth == 16 || f.depth == 24) && f.true_colour
}

/// A palette format the session can render: 16-bit channels.
pub open spec fn vnc_palette_mode(f: PixelFormat) -> bool {
    f.depth == 8 && !f.true_colour
}

/// The bytes of the `p`-th pixel in a rectangle's raw data.
pub open spec fn pixel_bytes(pixels: Seq<u8>, bpp: int, p: int) -> Seq<u8> {
    pixels.subrange(bpp * p, bpp * p + bpp)
}

/// Whether one pixel's bytes decode successfully under the format and
/// palette.
pub open spec fn decode_ok(f: PixelFormat, cm: Option<ColourMap>, bytes: Seq<u8>) -> bool {
    if is_format16(f) {
        bytes.len() == 2 && format16_usable(f) && scaled_channel(
            px16(f, bytes),
            f.red_shift,
            f.red_max,
        ) <= 255 && scaled_channel(px16(f, bytes), f.green_shift, f.green_max) <= 255
            && scaled_channel(px16(f, bytes), f.blue_shift, f.blue_max) <= 255
    } else if is_format32(f) {
        bytes.len() == 4 && format32_usable(f) && raw_channel(px32(f, bytes), f.red_shift, f.red_max)
            <= 255 && raw_channel(px32(f, bytes), f.green_shift, f.green_max) <= 255 && raw_channel(
            px32(f, bytes),
            f.blue_shift,
            f.blue_max,
        ) <= 255
    } else if is_format8(f) {
        bytes.len() >= 1 && cm is Some
    } else {
        false
    }
}

/// The decoded channels of one pixel, as integers.
pub open spec fn decoded_rgb(f: PixelFormat, cm: Option<ColourMap>, bytes: Seq<u8>) -> (
    int,
    int,
    int,
) {
    if is_format16(f) {
        (
            scaled_channel(px16(f, bytes), f.red_shift, f.red_max),
            scaled_channel(px16(f, bytes), f.green_shift, f.green_max),
            scaled_channel(px16(f, bytes), f.blue_shift, f.blue_max),
        )
    } else if is_format32(f) {
        (
            raw_channel(px32(f, bytes), f.red_shift, f.red_max) as int,
            raw_channel(px32(f, bytes), f.green_shift, f.green_max) as int,
            raw_channel(px32(f, bytes), f.blue_shift, f.blue_max) as int,
        )
    } else {
        let entry = cm->0.colours@[bytes[0] as int];
        (entry.red as int, entry.green as int, entry.blue as int)
    }
}

/// One channel of a decoded triple.
pub open spec fn triple_channel(v: (int, int, int), ch: int) -> int {
    if ch == 0 {
        v.0
    } else if ch == 1 {
        v.1
    } else {
        v.2
    }
}

/// An 8-bit raster after blitting `n_px` decoded pixels into the
/// rectangle at `(left, top)`, `rw` wide, `rh` tall.
pub open spec fn blit3_u8(
    fb: Seq<u8>,
    width: int,
    left: int,
    top: int,
    rw: int,
    rh: int,
    n_px: int,
    vals: Seq<(int, int, int)>,
) -> Seq<u8> {
    Seq::new(
        fb.len(),
        |i: int|
            {
                let cell = i / 3;
                let ch = i % 3;
                let p = pixel_of_cell(width, left, top, rw, cell);
                if covered(width, left, top, rw, rh, cell) && 0 <= p < n_px {
                    triple_channel(vals[p], ch) as u8
                } else {
                    fb[i]
                }
            },
    )
}

/// A 16-bit raster after the same blit.
pub open spec fn blit3_u16(
    fb: Seq<u16>,
    width: int,
    left: int,
    top: int,
    rw: int,
    rh: int,
    n_px: int,
    vals: Seq<(int, int, int)>,
) -> Seq<u16> {
    Seq::new(
        fb.len(),
        |i: int|
            {
                let cell = i / 3;
                let ch = i % 3;
                let p = pixel_of_cell(width, left, top, rw, cell);
                if covered(width, left, top, rw, rh, cell) && 0 <= p < n_px {
                    triple_channel(vals[p], ch) as u16
                } else {
                    fb[i]
                }
            },
    )
}

/// The VNC framebuffer under assembly for one session.
#[derive(Debug)]
pub struct VncImage {
    pub image: FrameBuffer,
    pub format: PixelFormat,
    pub colour_map: Option<ColourMap>,
    pub width: u16,
    pub height: u16,
}

impl VncImage {
    pub open spec fn wf(&self) -> bool {
        &&& (self.colour_map matches Some(m) ==> m.wf())
        &&& match self.image {
            FrameBuffer::Rgb8(v) => v@.len() == self.width as int * self.height as int * 3
                && vnc_true_mode(self.format),
            FrameBuffer::Rgb16(v) => v@.len() == self.width as int * self.height as int * 3
                && vnc_palette_mode(self.format),
        }
    }

    /// Bytes per pixel on the wire, as the format declares it.
    pub open spec fn spec_bpp(&self) -> int {
        if self.format.bits_per_pixel == 8 {
            1
        } else if self.format.bits_per_pixel == 16 {
            2
        } else if self.format.bits_per_pixel == 32 {
            4
        } else {
            0
        }
    }

    /// Whether a rectangle of raw data can be blitted whole: a known
    /// bits-per-pixel, a rectangle inside the framebuffer, enough data,
    /// and every pixel decodable.
    pub open spec fn spec_put_ok(&self, rect: Rect, pixels: Seq<u8>) -> bool {
        &&& self.spec_bpp() != 0
        &&& rect.left + rect.width <= self.width
        &&& rect.top + rect.height <= self.height
        &&& pixels.len() >= rect.width as int * rect.height as int * self.spec_bpp()
        &&& forall|p: int|
            0 <= p < rect.width as int * rect.height as int ==> decode_ok(
                self.format,
                self.colour_map,
                #[trigger] pixel_bytes(pixels, self.spec_bpp(), p),
            )
    }

    /// The decoded pixels of a rectangle, in rectangle-row-major order.
    pub open spec fn spec_decoded(&self, rect: Rect, pixels: Seq<u8>) -> Seq<(int, int, int)> {
        Seq::new(
            (rect.width as int * rect.height as int) as nat,
            |p: int| decoded_rgb(self.format, self.colour_map, pixel_bytes(pixels, self.spec_bpp(), p)),
        )
    }

    /// Start a session framebuffer for the advertised pixel format and
    /// desktop size: 8-bit RGB for the supported true-colour depths,
    /// 16-bit RGB for 8-bit palette mode, and an unsupported-format
    /// error for anything else.
    pub fn new(format: PixelFormat, width: u16, height: u16) -> (r: Result<VncImage, Error>)
        ensures
            r is Ok <==> (vnc_true_mode(format) || vnc_palette_mode(format)) && width as int
                * height as int * 3 <= usize::MAX as int,
            r matches Ok(im) ==> {
                &&& im.wf()
                &&& im.format == format
                &&& im.colour_map is None
                &&& im.width == width && im.height == height
                &&& vnc_true_mode(format) ==> (im.image matches FrameBuffer::Rgb8(v) && v@
                    == Seq::new((width as int * height as int * 3) as nat, |i: int| 0u8))
                &&& vnc_palette_mode(format) ==> (im.image matches FrameBuffer::Rgb16(v) && v@
                    == Seq::new((width as int * height as int * 3) as nat, |i: int| 0u16))
            },
            r matches Err(e) ==> e is Vnc,
    {
        proof {
            assert((width as int) * (height as int) * 3 <= 0xffff * 0xffff * 3)
                by (nonlinear_arith)
                requires
                    width <= 0xffffu16,
                    height <= 0xffffu16,
            ;
        }
        let total64: u64 = (width as u64) * (height as u64) * 3;
        let depth = format.depth;
        let tc = format.true_colour;
        if (depth == 15 || depth == 16 || depth == 24) && tc {
            if total64 > usize::MAX as u64 {
                return Err(Error::Vnc(String::from_str("image too large")));
            }
            let data = crate::raster::zero_vec_u8(total64 as usize);
            Ok(
                VncImage {
                    image: FrameBuffer::Rgb8(data),
                    format,
                    colour_map: None,
                    width,
                    height,
                },
            )
        } else if depth == 8 && !tc {
            if total64 > usize::MAX as u64 {
                return Err(Error::Vnc(String::from_str("image too large")));
            }
            let data = crate::raster::zero_vec_u16(total64 as usize);
            Ok(
                VncImage {
                    image: FrameBuffer::Rgb16(data),
                    format,
                    colour_map: None,
                    width,
                    height,
                },
            )
        } else {
            Err(Error::Vnc(String::from_str("Invalid colour depth")))
        }
    }

    /// Install the palette for 8-bit mode. A map with anything but 256
    /// entries is rejected.
    pub fn set_colour_map(&mut self, first_colour: u16, colours: Vec<Colour>) -> (r: Result<
        (),
        Error,
    >)
        ensures
            r is Ok <==> colours@.len() == 256,
            r is Err ==> *final (self) == *old(self) && (r matches Err(e) && e is Vnc),
            r is Ok ==> (final (self).colour_map matches Some(m) && m.first_colour == first_colour
                && m.colours@ == colours@ && final (self).image == old(self).image
                && final (self).format == old(self).format && final (self).width == old(self).width
                && final (self).height == old(self).height),
    {
        if colours.len() != 256 {
            return Err(Error::Vnc(String::from_str("Invalid number of colours in map")));
        }
        self.colour_map = Some(ColourMap { first_colour, colours });
        Ok(())
    }

    /// Blit one rectangle of raw pixels into the framebuffer. The whole
    /// rectangle is decoded first; only if every pixel decodes does the
    /// framebuffer change, so a failed rectangle leaves the image as it
    /// was. Decoding an 8-bit rectangle before a colour map has arrived
    /// is the error the session must report.
    pub fn put_pixels(&mut self, rect: Rect, pixels: &[u8]) -> (r: Result<(), Error>)
        requires
            old(self).wf(),
        ensures
            final (self).wf(),
            final (self).format == old(self).format,
            final (self).colour_map == old(self).colour_map,
            final (self).width == old(self).width,
            final (self).height == old(self).height,
            r is Ok <==> old(self).spec_put_ok(rect, pixels@),
            r is Err ==> final (self).image == old(self).image,
            r is Ok ==> {
                let vals = old(self).spec_decoded(rect, pixels@);
                &&& (old(self).image matches FrameBuffer::Rgb8(v0) ==> (final (self).image
                    matches FrameBuffer::Rgb8(v1) && v1@ == blit3_u8(
                    v0@,
                    old(self).width as int,
                    rect.left as int,
                    rect.top as int,
                    rect.width as int,
                    rect.height as int,
                    rect.width as int * rect.height as int,
                    vals,
                )))
                &&& (old(self).image matches FrameBuffer::Rgb16(v0) ==> (final (self).image
                    matches FrameBuffer::Rgb16(v1) && v1@ == blit3_u16(
                    v0@,
                    old(self).width as int,
                    rect.left as int,
                    rect.top as int,
                    rect.width as int,
                    rect.height as int,
                    rect.width as int * rect.height as int,
                    vals,
                )))
            },
            (is_format8(old(self).format) && old(self).colour_map is None && rect.left + rect.width
                <= old(self).width && rect.top + rect.height <= old(self).height && pixels@.len()
                >= rect.width as int * rect.height as int && rect.width as int * rect.height as int
                > 0) ==> (r matches Err(e) && e matches Error::Vnc(m) && m@
                == "No colour map supplied for 8-bit mode!"@),
    {
        let f = self.format;
        let bpp: usize = if f.bits_per_pixel == 8 {
            1
        } else if f.bits_per_pixel == 16 {
            2
        } else if f.bits_per_pixel == 32 {
            4
        } else {
            return Err(Error::Vnc(String::from_str("Invalid bits per pixel")));
        };
        if (rect.left as u32) + (rect.width as u32) > (self.width as u32) || (rect.top as u32)
            + (rect.height as u32) > (self.height as u32) {
            return Err(Error::Vnc(String::from_str("rectangle outside framebuffer")));
        }
        proof {
            assert((rect.width as int) * (rect.height as int) <= 0xffff * 0xffff)
                by (nonlinear_arith)
                requires
                    rect.width <= 0xffffu16,
                    rect.height <= 0xffffu16,
            ;
        }
        let area: u64 = (rect.width as u64) * (rect.height as u64);
        proof {
            assert(area * bpp <= 0xffff * 0xffff * 4) by (nonlinear_arith)
                requires
                    area <= 0xffff * 0xffff,
                    bpp <= 4,
            ;
        }
        if (pixels.len() as u64) < area * (bpp as u64) {
            return Err(Error::Conversion(String::from_str("pixel data too short")));
        }
        let plen = pixels.len();
        let n: usize = (rect.width as usize) * (rect.height as usize);
        let ghost fmt = self.format;
        let ghost cm = self.colour_map;
        let mut decoded: Vec<ColourFormat> = Vec::new();
        let mut p: usize = 0;
        while p < n
            invariant
                old(self).wf(),
                *self == *old(self),
                fmt == old(self).format,
                cm == old(self).colour_map,
                f == fmt,
                bpp == old(self).spec_bpp(),
                bpp == 1 || bpp == 2 || bpp == 4,
                n == rect.width as int * rect.height as int,
                n * bpp <= pixels@.len(),
                pixels@.len() == plen,
                p <= n,
                decoded@.len() == p,
                forall|q: int|
                    0 <= q < p ==> decode_ok(
                        fmt,
                        cm,
                        #[trigger] pixel_bytes(pixels@, bpp as int, q),
                    ),
                forall|q: int|
                    0 <= q < p ==> cf_matches(
                        #[trigger] decoded@[q],
                        decoded_rgb(fmt, cm, pixel_bytes(pixels@, bpp as int, q)),
                    ),
                forall|q: int|
                    0 <= q < p ==> ((is_format16(fmt) || is_format32(fmt))
                        ==> (#[trigger] decoded@[q]) is U8),
                forall|q: int| 0 <= q < p ==> (is_format8(fmt) ==> (#[trigger] decoded@[q]) is U16),
            decreases n - p,
        {
            proof {
                assert(p * bpp + bpp <= n * bpp) by (nonlinear_arith)
                    requires
                        p < n,
                        bpp >= 1,
                ;
            }
            let start = p * bpp;
            let slice = vstd::slice::slice_subrange(pixels, start, start + bpp);
            proof {
                assert(slice@ == pixel_bytes(pixels@, bpp as int, p as int));
            }
            match pixel_to_rgb(&f, &self.colour_map, slice) {
                Ok(c) => {
                    proof {
                        assert(decode_ok(fmt, cm, pixel_bytes(pixels@, bpp as int, p as int)));
                        if is_format16(fmt) {
                            let bs = pixel_bytes(pixels@, bpp as int, p as int);
                            let pxv = px16(fmt, bs);
                            let rawr = raw_channel(pxv, fmt.red_shift, fmt.red_max) as int;
                            let rawg = raw_channel(pxv, fmt.green_shift, fmt.green_max) as int;
                            let rawb = raw_channel(pxv, fmt.blue_shift, fmt.blue_max) as int;
                            let powr = pow2_int(8 - ones(fmt.red_max as int));
                            let powg = pow2_int(8 - ones(fmt.green_max as int));
                            let powb = pow2_int(8 - ones(fmt.blue_max as int));
                            lemma_pow2_pos(8 - ones(fmt.red_max as int));
                            lemma_pow2_pos(8 - ones(fmt.green_max as int));
                            lemma_pow2_pos(8 - ones(fmt.blue_max as int));
                            assert(rawr * powr >= 0 && rawg * powg >= 0 && rawb * powb >= 0)
                                by (nonlinear_arith)
                                requires
                                    rawr >= 0,
                                    rawg >= 0,
                                    rawb >= 0,
                                    powr >= 1,
                                    powg >= 1,
                                    powb >= 1,
                            ;
                        }
                        assert(cf_matches(
                            c,
                            decoded_rgb(fmt, cm, pixel_bytes(pixels@, bpp as int, p as int)),
                        ));
                    }
                    decoded.push(c);
                },
                Err(e) => {
                    proof {
                        assert(!decode_ok(fmt, cm, pixel_bytes(pixels@, bpp as int, p as int)));
                    }
                    return Err(e);
                },
            }
            p = p + 1;
        }
        proof {
            if n > 0 {
                assert(decode_ok(fmt, cm, pixel_bytes(pixels@, bpp as int, 0)));
                assert(!(is_format8(fmt) && cm is None));
            }
        }
        let ghost vals = old(self).spec_decoded(rect, pixels@);
        let left = rect.left as usize;
        let top = rect.top as usize;
        let rw = rect.width as usize;
        let rh = rect.height as usize;
        let w = self.width as usize;
        let h = self.height as usize;
        if rw == 0 || rh == 0 {
            proof {
                assert(final (self).wf());
                assert(old(self).image matches FrameBuffer::Rgb8(v0) ==> v0@ =~= blit3_u8(
                    v0@,
                    w as int,
                    left as int,
                    top as int,
                    rw as int,
                    rh as int,
                    n as int,
                    vals,
                ));
                assert(old(self).image matches FrameBuffer::Rgb16(v0) ==> v0@ =~= blit3_u16(
                    v0@,
                    w as int,
                    left as int,
                    top as int,
                    rw as int,
                    rh as int,
                    n as int,
                    vals,
                ));
            }
            return Ok(());
        }
        match &mut self.image {
            FrameBuffer::Rgb8(v) => {
                let ghost fb0 = v@;
                let vlen = v.len();
                proof {
                    assert(w * h <= v@.len() && v@.len() == w * h * 3) by (nonlinear_arith)
                        requires
                            v@.len() == w * h * 3,
                    ;
                    assert(rw * rh <= w * h) by (nonlinear_arith)
                        requires
                            rw <= w,
                            rh <= h,
                    ;
                }
                let mut q: usize = 0;
                while q < n
                    invariant
                        v@.len() == w * h * 3,
                        v@.len() == vlen,
                        w * h <= v@.len(),
                        0 < rw,
                        left + rw <= w,
                        top + rh <= h,
                        n == rw * rh,
                        q <= n,
                        decoded@.len() == n,
                        vals.len() == n,
                        forall|k: int|
                            0 <= k < n ==> (#[trigger] decoded@[k]) is U8 && cf_matches(
                                decoded@[k],
                                vals[k],
                            ),
                        v@ == blit3_u8(
                            fb0,
                            w as int,
                            left as int,
                            top as int,
                            rw as int,
                            rh as int,
                            q as int,
                            vals,
                        ),
                    decreases n - q,
                {
                    let rem = q % rw;
                    let quo = q / rw;
                    proof {
                        assert(rem < rw && quo < rh) by (nonlinear_arith)
                            requires
                                0 < rw,
                                q < n,
                                n == rw * rh,
                                rem == q % rw,
                                quo == q / rw,
                        ;
                    }
                    let x = left + rem;
                    let y = top + quo;
                    proof {
                        assert(y * w + x < w * h) by (nonlinear_arith)
                            requires
                                y < h,
                                x < w,
                                w > 0,
                        ;
                    }
                    let cell = y * w + x;
                    proof {
                        lemma_rect_cells(w as int, h as int, left as int, top as int, rw as int,
                            rh as int);
                        assert(cell == rect_cell(w as int, left as int, top as int, rw as int,
                            q as int));
                        assert(cell * 3 + 2 < v@.len()) by (nonlinear_arith)
                            requires
                                cell < w * h,
                                v@.len() == w * h * 3,
                        ;
                    }
                    let base = cell * 3;
                    match decoded[q] {
                        ColourFormat::U8((cr, cg, cb)) => {
                            v[base] = cr;
                            v[base + 1] = cg;
                            v[base + 2] = cb;
                        },
                        ColourFormat::U16(_) => {
                            proof {
                                assert(false);
                            }
                        },
                    }
                    proof {
                        lemma_covered_cells(w as int, h as int, left as int, top as int, rw as int,
                            rh as int);
                        assert(v@ =~= blit3_u8(
                            fb0,
                            w as int,
                            left as int,
                            top as int,
                            rw as int,
                            rh as int,
                            q + 1,
                            vals,
                        ));
                    }
                    q = q + 1;
                }
                Ok(())
            },
            FrameBuffer::Rgb16(v) => {
                let ghost fb0 = v@;
                let vlen = v.len();
                proof {
                    assert(w * h <= v@.len() && v@.len() == w * h * 3) by (nonlinear_arith)
                        requires
                            v@.len() == w * h * 3,
                    ;
                    assert(rw * rh <= w * h) by (nonlinear_arith)
                        requires
                            rw <= w,
                            rh <= h,
                    ;
                }
                let mut q: usize = 0;
                while q < n
                    invariant
                        v@.len() == w * h * 3,
                        v@.len() == vlen,
                        w * h <= v@.len(),
                        0 < rw,
                        left + rw <= w,
                        top + rh <= h,
                        n == rw * rh,
                        q <= n,
                        decoded@.len() == n,
                        vals.len() == n,
                        forall|k: int|
                            0 <= k < n ==> (#[trigger] decoded@[k]) is U16 && cf_matches(
                                decoded@[k],
                                vals[k],
                            ),
                        v@ == blit3_u16(
                            fb0,
                            w as int,
                            left as int,
                            top as int,
                            rw as int,
                            rh as int,
                            q as int,
                            vals,
                        ),
                    decreases n - q,
                {
                    let rem = q % rw;
                    let quo = q / rw;
                    proof {
                        assert(rem < rw && quo < rh) by (nonlinear_arith)
                            requires
                                0 < rw,
                                q < n,
                                n == rw * rh,
                                rem == q % rw,
                                quo == q / rw,
                        ;
                    }
                    let x = left + rem;
                    let y = top + quo;
                    proof {
                        assert(y * w + x < w * h) by (nonlinear_arith)
                            requires
                                y < h,
                                x < w,
                                w > 0,
                        ;
                    }
                    let cell = y * w + x;
                    proof {
                        lemma_rect_cells(w as int, h as int, left as int, top as int, rw as int,
                            rh as int);
                        assert(cell == rect_cell(w as int, left as int, top as int, rw as int,
                            q as int));
                        assert(cell * 3 + 2 < v@.len()) by (nonlinear_arith)
                            requires
                                cell < w * h,
                                v@.len() == w * h * 3,
                        ;
                    }
                    let base = cell * 3;
                    match decoded[q] {
                        ColourFormat::U16((cr, cg, cb)) => {
                            v[base] = cr;
                            v[base + 1] = cg;
                            v[base + 2] = cb;
                        },
                        ColourFormat::U8(_) => {
                            proof {
                                assert(false);
                            }
                        },
                    }
                    proof {
                        lemma_covered_cells(w as int, h as int, left as int, top as int, rw as int,
                            rh as int);
                        assert(v@ =~= blit3_u16(
                            fb0,
                            w as int,
                            left as int,
                            top as int,
                            rw as int,
                            rh as int,
                            q + 1,
                            vals,
                        ));
                    }
                    q = q + 1;
                }
                Ok(())
            },
        }
    }
}

/// What one dispatched event does, as a relation between the image
/// before and after it and the outcome (`None` stands for an error):
/// rectangles blit when every pixel decodes, a colour map installs when
/// it has 256 entries, end-of-frame and disconnection finish the frame
/// untouched, and unknown events change nothing.
pub open spec fn event_applied(
    pre: VncImage,
    post: VncImage,
    event: VncEvent,
    outcome: Option<VncStep>,
) -> bool {
    &&& post.format == pre.format
    &&& post.width == pre.width
    &&& post.height == pre.height
    &&& (event is EndOfFrame ==> outcome == Some(VncStep::Finished) && post == pre)
    &&& (event is Disconnected ==> outcome == Some(VncStep::Finished) && post == pre)
    &&& (event is Other ==> outcome == Some(VncStep::Continue) && post == pre)
    &&& (event matches VncEvent::PutPixels(rect, pixels) ==> {
        &&& (outcome matches Some(s) ==> s == VncStep::Continue)
        &&& (outcome is Some <==> pre.spec_put_ok(rect, pixels@))
        &&& post.colour_map == pre.colour_map
        &&& (outcome is None ==> post.image == pre.image)
        &&& (outcome is Some ==> {
            let vals = pre.spec_decoded(rect, pixels@);
            &&& (pre.image matches FrameBuffer::Rgb8(v0) ==> (post.image
                matches FrameBuffer::Rgb8(v1) && v1@ == blit3_u8(
                v0@,
                pre.width as int,
                rect.left as int,
                rect.top as int,
                rect.width as int,
                rect.height as int,
                rect.width as int * rect.height as int,
                vals,
            )))
            &&& (pre.image matches FrameBuffer::Rgb16(v0) ==> (post.image
                matches FrameBuffer::Rgb16(v1) && v1@ == blit3_u16(
                v0@,
                pre.width as int,
                rect.left as int,
                rect.top as int,
                rect.width as int,
                rect.height as int,
                rect.width as int * rect.height as int,
                vals,
            )))
        })
    })
    &&& (event matches VncEvent::SetColourMap(fc, colours) ==> {
        &&& (outcome matches Some(s) ==> s == VncStep::Continue)
        &&& (outcome is Some <==> colours@.len() == 256)
        &&& post.image == pre.image
        &&& (outcome is None ==> post == pre)
        &&& (outcome is Some ==> (post.colour_map matches Some(m) && m.first_colour == fc
            && m.colours@ == colours@))
    })
}

/// The outcome half of a `handle_event` result, for contracts.
pub open spec fn step_of(r: Result<VncStep, Error>) -> Option<VncStep> {
    match r {
        Ok(s) => Some(s),
        Err(_) => Option::<VncStep>::None,
    }
}

impl VncImage {
    /// Dispatch one session event, as the polling loop receives them:
    /// pixel rectangles are blitted, a colour map is installed, the
    /// end-of-frame signal and a disconnection both finish the frame
    /// (the latter as a best-effort image), and any other event is
    /// ignored. An error from a rectangle or colour map aborts the
    /// session's capture.
    pub fn handle_event(&mut self, event: VncEvent) -> (r: Result<VncStep, Error>)
        requires
            old(self).wf(),
        ensures
            final (self).wf(),
            event_applied(*old(self), *final (self), event, step_of(r)),
    {
        match event {
            VncEvent::PutPixels(rect, pixels) => {
                match self.put_pixels(rect, pixels.as_slice()) {
                    Ok(()) => Ok(VncStep::Continue),
                    Err(e) => Err(e),
                }
            },
            VncEvent::SetColourMap(first_colour, colours) => {
                match self.set_colour_map(first_colour, colours) {
                    Ok(()) => Ok(VncStep::Continue),
                    Err(e) => Err(e),
                }
            },
            VncEvent::EndOfFrame => Ok(VncStep::Finished),
            VncEvent::Disconnected => Ok(VncStep::Finished),
            VncEvent::Other => Ok(VncStep::Continue),
        }
    }
}

/// Where a VNC capture stands.
#[derive(Copy, Clone, PartialEq, Eq, Structural, Debug)]
pub enum VncState {
    /// Resolving the target and opening the transport.
    Connecting,
    /// Waiting for the server's authentication offer.
    Authenticating,
    /// Requesting encodings and reading the advertised format and size.
    Negotiating,
    /// A full-framebuffer update was requested; events are coming in.
    Polling,
    /// The frame is complete: encode and report it.
    Finalizing,
    /// The capture failed before a frame could be completed.
    Failed,
}

/// One observation the capture loop reports to the state machine.
#[derive(Debug)]
pub enum VncSessionEvent {
    /// The transport is open.
    Connected,
    /// The transport could not be opened.
    ConnectFailed(String),
    /// The authentication schemes the server offers.
    AuthOffer(Vec<AuthMethod>),
    /// The handshake finished: the advertised pixel format and desktop
    /// size.
    ServerInit(PixelFormat, u16, u16),
    /// One framebuffer event from the polling loop.
    Frame(VncEvent),
}

/// The capture state machine for one VNC target: it owns the
/// framebuffer under assembly and decides every transition; the caller
/// does the I/O and feeds events in.
#[derive(Debug)]
pub struct VncSession {
    pub state: VncState,
    pub image: Option<VncImage>,
    pub error: Option<Error>,
}

impl VncSession {
    pub open spec fn wf(&self) -> bool {
        &&& (self.image matches Some(im) ==> im.wf())
        &&& (self.state == VncState::Polling ==> self.image is Some)
    }

    /// Whether an event belongs to the given state; any other pairing
    /// is a stray message and changes nothing.
    pub open spec fn event_belongs(state: VncState, event: VncSessionEvent) -> bool {
        match event {
            VncSessionEvent::Connected => state == VncState::Connecting,
            VncSessionEvent::ConnectFailed(_) => state == VncState::Connecting,
            VncSessionEvent::AuthOffer(_) => state == VncState::Authenticating,
            VncSessionEvent::ServerInit(_, _, _) => state == VncState::Negotiating,
            VncSessionEvent::Frame(_) => state == VncState::Polling,
        }
    }

    pub fn new() -> (r: Self)
        ensures
            r.wf(),
            r.state == VncState::Connecting,
            r.image is None,
            r.error is None,
    {
        VncSession { state: VncState::Connecting, image: None, error: None }
    }

    /// Advance on one event. Connection failures, a server without the
    /// no-authentication option, an unsupported advertised format and
    /// any decode error are all fatal for this target; the end-of-frame
    /// signal (or a disconnection) moves the capture to finalization.
    /// Events that do not belong to the current state change nothing.
    pub fn on_event(&mut self, event: VncSessionEvent)
        requires
            old(self).wf(),
        ensures
            final (self).wf(),
            !Self::event_belongs(old(self).state, event) ==> *final (self) == *old(self),
            old(self).state == VncState::Connecting && event is Connected ==> *final (self) == (
            VncSession {
                state: VncState::Authenticating,
                ..*old(self)
            }),
            old(self).state == VncState::Connecting ==> (event matches VncSessionEvent::ConnectFailed(
                m,
            ) ==> final (self).state == VncState::Failed && (final (self).error matches Some(
                Error::Io(em),
            ) && em@ == m@) && final (self).image == old(self).image),
            old(self).state == VncState::Authenticating ==> (event matches VncSessionEvent::AuthOffer(
                methods,
            ) ==> {
                if exists|i: int| 0 <= i < methods@.len() && methods@[i] == AuthMethod::NoAuth {
                    *final (self) == (VncSession { state: VncState::Negotiating, ..*old(self) })
                } else {
                    final (self).state == VncState::Failed && (final (self).error matches Some(
                        Error::Vnc(em),
                    ) && em@ == "Server requires authentication, only no-auth is supported"@)
                        && final (self).image == old(self).image
                }
            }),
            old(self).state == VncState::Negotiating ==> (event matches VncSessionEvent::ServerInit(
                f,
                w,
                h,
            ) ==> {
                if (vnc_true_mode(f) || vnc_palette_mode(f)) && w as int * h as int * 3
                    <= usize::MAX as int {
                    &&& final (self).state == VncState::Polling
                    &&& final (self).image matches Some(im) && im.wf() && im.format == f
                        && im.width == w && im.height == h && im.colour_map is None
                    &&& final (self).error == old(self).error
                } else {
                    &&& final (self).state == VncState::Failed
                    &&& final (self).error matches Some(e) && e is Vnc
                    &&& final (self).image == old(self).image
                }
            }),
            old(self).state == VncState::Polling ==> (event matches VncSessionEvent::Frame(e)
                ==> exists|oc: Option<VncStep>|
                {
                    &&& #[trigger] event_applied(old(self).image->0, final (self).image->0, e, oc)
                    &&& final (self).image is Some
                    &&& (oc == Some(VncStep::Continue) ==> final (self).state == VncState::Polling
                        && final (self).error == old(self).error)
                    &&& (oc == Some(VncStep::Finished) ==> final (self).state
                        == VncState::Finalizing && final (self).error == old(self).error)
                    &&& (oc is None ==> final (self).state == VncState::Failed && final (self).error is Some)
                }),
    {
        match event {
            VncSessionEvent::Connected => {
                if self.state == VncState::Connecting {
                    self.state = VncState::Authenticating;
                }
            },
            VncSessionEvent::ConnectFailed(m) => {
                if self.state == VncState::Connecting {
                    self.state = VncState::Failed;
                    self.error = Some(Error::Io(m));
                }
            },
            VncSessionEvent::AuthOffer(methods) => {
                if self.state == VncState::Authenticating {
                    match choose_auth(&methods) {
                        Some(AuthChoice::NoAuth) => {
                            self.state = VncState::Negotiating;
                        },
                        None => {
                            self.state = VncState::Failed;
                            self.error = Some(
                                Error::Vnc(
                                    String::from_str(
                                        "Server requires authentication, only no-auth is supported",
                                    ),
                                ),
                            );
                        },
                    }
                }
            },
            VncSessionEvent::ServerInit(f, w, h) => {
                if self.state == VncState::Negotiating {
                    match VncImage::new(f, w, h) {
                        Ok(im) => {
                            self.image = Some(im);
                            self.state = VncState::Polling;
                        },
                        Err(e) => {
                            self.state = VncState::Failed;
                            self.error = Some(e);
                        },
                    }
                }
            },
            VncSessionEvent::Frame(e) => {
                if self.state == VncState::Polling {
                    match &mut self.image {
                        Some(im) => {
                            match im.handle_event(e) {
                                Ok(VncStep::Continue) => {},
                                Ok(VncStep::Finished) => {
                                    self.state = VncState::Finalizing;
                                },
                                Err(err) => {
                                    self.state = VncState::Failed;
                                    self.error = Some(err);
                                },
                            }
                        },
                        None => {
                            proof {
                                assert(false);
                            }
                        },
                    }
                }
            },
        }
    }
}

/// A successful VNC capture, ready for the report sink.
#[derive(Debug)]
pub struct VncOutput {
    pub target: String,
    pub file: String,
}

impl VncOutput {
    /// Wrap the outcome as a report-channel message.
    pub fn as_report_message(self) -> (r: crate::reporting::ReportMessage)
        ensures
            r matches crate::reporting::ReportMessage::Output(c) && c.mode
                == crate::argparse::Mode::Vnc && c.target@ == self.target@ && (
            c.output matches crate::reporting::FileError::File(f) && f@ == self.file@),
    {
        crate::reporting::ReportMessage::Output(
            crate::reporting::ReportMessageContent {
                mode: crate::argparse::Mode::Vnc,
                target: self.target,
                output: crate::reporting::FileError::File(self.file),
            },
        )
    }

    /// The target this capture came from.
    pub fn target(&self) -> (r: &str)
        ensures
            r@ == self.target@,
    {
        self.target.as_str()
    }

    /// The file the image went to, relative to the output directory.
    pub fn file(&self) -> (r: &str)
        ensures
            r@ == self.file@,
    {
        self.file.as_str()
    }
}

/// An authentication scheme the server offers.
#[derive(Copy, Clone, PartialEq, Eq, Structural, Debug)]
pub enum AuthMethod {
    /// No authentication required.
    NoAuth,
    /// A password challenge.
    Password,
    /// Anything else the server may propose.
    Other,
}

/// The scheme this client answers with.
#[derive(Copy, Clone, PartialEq, Eq, Structural, Debug)]
pub enum AuthChoice {
    NoAuth,
}

/// Pick an authentication method from the server's offer: only "no
/// authentication" is spoken here, so any server that does not offer it
/// goes unanswered and the capture fails as unsupported.
pub fn choose_auth(methods: &Vec<AuthMethod>) -> (r: Option<AuthChoice>)
    ensures
        r == (if exists|i: int| 0 <= i < methods@.len() && methods@[i] == AuthMethod::NoAuth {
            Some(AuthChoice::NoAuth)
        } else {
            Option::<AuthChoice>::None
        }),
{
    let mut i: usize = 0;
    while i < methods.len()
        invariant
            i <= methods@.len(),
            forall|j: int| 0 <= j < i ==> methods@[j] != AuthMethod::NoAuth,
        decreases methods@.len() - i,
    {
        if methods[i] == AuthMethod::NoAuth {
            return Some(AuthChoice::NoAuth);
        }
        i = i + 1;
    }
    None
}

/// An RFB encoding this client asks for.
#[derive(Copy, Clone, PartialEq, Eq, Structural, Debug)]
pub enum Encoding {
    Zrle,
    CopyRect,
    Raw,
    Cursor,
    DesktopSize,
}

/// The encodings requested at negotiation, in preference order:
/// compressed tiles first, plain copies and raw pixels as fallbacks,
/// plus cursor and desktop-size pseudo-encodings.
pub fn preferred_encodings() -> (r: Vec<Encoding>)
    ensures
        r@ == seq![
            Encoding::Zrle,
            Encoding::CopyRect,
            Encoding::Raw,
            Encoding::Cursor,
            Encoding::DesktopSize,
        ],
{
    let mut v: Vec<Encoding> = Vec::new();
    v.push(Encoding::Zrle);
    v.push(Encoding::CopyRect);
    v.push(Encoding::Raw);
    v.push(Encoding::Cursor);
    v.push(Encoding::DesktopSize);
    proof {
        assert(v@ =~= seq![
            Encoding::Zrle,
            Encoding::CopyRect,
            Encoding::Raw,
            Encoding::Cursor,
            Encoding::DesktopSize,
        ]);
    }
    v
}

/// A VNC capture target must already be a socket address: VNC URLs are
/// resolved before they reach the capture engine.
pub fn target_address(target: &crate::parsing::Target) -> (r: Result<
    crate::parsing::SocketAddress,
    Error,
>)
    ensures
        target matches crate::parsing::Target::Address(a) ==> r == Ok::<
            crate::parsing::SocketAddress,
            Error,
        >(*a),
        target is Url ==> (r matches Err(Error::Vnc(m)) && m@ == "Invalid VNC target: "@
            + target.display_seq()),
{
    match target {
        crate::parsing::Target::Address(a) => Ok(*a),
        crate::parsing::Target::Url(_) => {
            let mut m = String::from_str("Invalid VNC target: ");
            let d = target.display_string();
            m.append(d.as_str());
            Err(Error::Vnc(m))
        },
    }
}

/// Close a capture once the frame is complete: encode the framebuffer
/// as PNG for `vnc/<target>.png` and hand back the report entry. A
/// true-colour session yields an 8-bit RGB PNG, a palette session a
/// 16-bit one.
pub fn finalise_capture(image: VncImage, target: &crate::parsing::Target) -> (r: Result<
    (VncOutput, Vec<u8>),
    Error,
>)
    requires
        image.wf(),
    ensures
        r is Ok <==> (match image.image {
            FrameBuffer::Rgb8(v) => crate::png::png8_encode_ok(
                v@,
                image.width as u32,
                image.height as u32,
                false,
            ),
            FrameBuffer::Rgb16(v) => crate::png::png16_encode_ok(
                v@,
                image.width as u32,
                image.height as u32,
            ),
        }),
        r matches Ok(out) ==> {
            &&& out.0.target@ == target.display_seq()
            &&& out.0.file@ == "vnc/"@ + crate::util::spec_target_filename(*target) + ".png"@
            &&& (image.image matches FrameBuffer::Rgb8(v) ==> out.1@ == crate::png::png_bytes_of(
                v@,
                image.width as u32,
                image.height as u32,
                false,
            ))
            &&& (image.image matches FrameBuffer::Rgb16(v) ==> out.1@
                == crate::png::png_bytes16_of(v@, image.width as u32, image.height as u32))
        },
        r matches Err(e) ==> e is Vnc,
{
    let w32 = image.width as u32;
    let h32 = image.height as u32;
    proof {
        assert((image.width as int) * (image.height as int) * 3 == 3 * (w32 as int) * (h32 as int))
            by (nonlinear_arith)
            requires
                w32 == image.width as int,
                h32 == image.height as int,
        ;
    }
    let encoded = match &image.image {
        FrameBuffer::Rgb8(v) => crate::png::encode_png8(v, w32, h32, false),
        FrameBuffer::Rgb16(v) => crate::png::encode_png16(v, w32, h32),
    };
    match encoded {
        Ok(png) => {
            let filename = crate::util::target_to_filename(target);
            let mut rel = String::from_str("vnc/");
            rel.append(filename.as_str());
            rel.append(".png");
            let out = VncOutput { target: target.display_string(), file: rel };
            Ok((out, png))
        },
        Err(m) => Err(Error::Vnc(m)),
    }
}

/// Whether a decoded pixel value carries exactly the given channels.
pub open spec fn cf_matches(cf: ColourFormat, v: (int, int, int)) -> bool {
    match cf {
        ColourFormat::U8((a, b, c)) => a == v.0 && b == v.1 && c == v.2,
        ColourFormat::U16((a, b, c)) => a == v.0 && b == v.1 && c == v.2,
    }
}

} // verus!
