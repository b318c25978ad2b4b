//! RDP capture: reassembly of dirty-rectangle bitmap chunks into one
//! RGBA framebuffer. The wire hands pixels over in BGR(A) byte order;
//! they are stored as RGBA with full opacity, since the alpha channel
//! servers send is unreliable.

use vstd::prelude::*;
use crate::argparse::Opts;
use crate::parsing::Target;
use crate::parsing::SocketAddress;
use crate::raster::covered;
use crate::raster::pixel_of_cell;
use crate::raster::rect_cell;
use crate::raster::lemma_rect_cells;
use crate::raster::lemma_covered_cells;

verus! {

/// One decompressed bitmap update from the RDP stream. The rectangle
/// `[left, right) x [top, bottom)` names the dirty region; `data` holds
/// its pixels in wire order, 4 bytes each.
#[derive(Debug)]
pub struct BitmapChunk {
    pub width: u32,
    pub height: u32,
    pub left: u32,
    pub top: u32,
    pub right: u32,
    pub bottom: u32,
    pub bpp: u32,
    pub data: Vec<u8>,
}

/// The reassembled raster: RGBA, 4 bytes per pixel, row-major.
#[derive(Debug)]
pub struct Framebuffer {
    pub data: Vec<u8>,
    pub width: u32,
    pub height: u32,
}

impl Framebuffer {
    pub open spec fn wf(&self) -> bool {
        self.data@.len() == self.width as int * self.height as int * 4
    }
}

/// The colour layout of the reassembled image.
#[derive(Debug)]
pub enum ImageMode {
    Rgba32(Framebuffer),
}

impl ImageMode {
    pub open spec fn fb(&self) -> Framebuffer {
        match self {
            ImageMode::Rgba32(fb) => *fb,
        }
    }

    pub fn extract(self) -> (r: Framebuffer)
        ensures
            r == self.fb(),
    {
        match self {
            ImageMode::Rgba32(di) => di,
        }
    }
}

/// The RDP reassembler. The framebuffer is allocated lazily, on the
/// first chunk, at the configured output size.
#[derive(Debug)]
pub struct Image {
    pub image: Option<ImageMode>,
    pub component_width: Option<usize>,
    pub width: Option<u32>,
    pub height: Option<u32>,
}

impl Default for Image {
    fn default() -> (r: Self)
        ensures
            r.image is None,
            r.component_width is None,
            r.width is None,
            r.height is None,
    {
        Image { image: None, component_width: None, width: None, height: None }
    }
}

/// One output channel of a chunk pixel: wire order is BGR(A), stored
/// order is RGBA, and alpha is forced to full opacity.
pub open spec fn chunk_channel(data: Seq<u8>, p: int, ch: int) -> u8 {
    if ch == 0 {
        data[4 * p + 2]
    } else if ch == 1 {
        data[4 * p + 1]
    } else if ch == 2 {
        data[4 * p]
    } else {
        0xff
    }
}

/// The framebuffer bytes after blitting the first `n_px` pixels of a
/// chunk into the rectangle at `(left, top)`, `rw` pixels wide and `rh`
/// rows tall, of a raster `width` cells wide.
pub open spec fn blit_chunk(
    fb: Seq<u8>,
    width: int,
    left: int,
    top: int,
    rw: int,
    rh: int,
    n_px: int,
    data: Seq<u8>,
) -> Seq<u8> {
    Seq::new(
        fb.len(),
        |i: int|
            {
                let cell = i / 4;
                let ch = i % 4;
                let p = pixel_of_cell(width, left, top, rw, cell);
                if covered(width, left, top, rw, rh, cell) && 0 <= p < n_px {
                    chunk_channel(data, p, ch)
                } else {
                    fb[i]
                }
            },
    )
}

/// A chunk whose rectangle has no area.
pub open spec fn degenerate(c: &BitmapChunk) -> bool {
    c.right <= c.left || c.bottom <= c.top
}

/// A chunk whose rectangle does not fit the framebuffer.
pub open spec fn out_of_bounds(c: &BitmapChunk, width: u32, height: u32) -> bool {
    c.right > width || c.bottom > height
}

/// How many chunk pixels get written: the rectangle's area, or fewer if
/// the chunk carries fewer pixels.
pub open spec fn chunk_px_count(c: &BitmapChunk) -> int {
    let area = (c.right - c.left) * (c.bottom - c.top);
    if c.data@.len() as int / 4 < area {
        c.data@.len() as int / 4
    } else {
        area
    }
}

impl Image {
    pub open spec fn wf(&self) -> bool {
        self.image matches Some(m) ==> {
            &&& m.fb().wf()
            &&& self.width == Some(m.fb().width)
            &&& self.height == Some(m.fb().height)
            &&& self.component_width == Some(4usize)
        }
    }

    /// The framebuffer bytes, for contracts.
    pub open spec fn fb_data(&self) -> Seq<u8> {
        self.image->0.fb().data@
    }

    /// Whether the configured output size is too large to allocate.
    pub open spec fn alloc_too_big(opts: &Opts) -> bool {
        (opts.size.0 as u32) as int * (opts.size.1 as u32) as int > usize::MAX as int / 4
    }

    /// Allocate the framebuffer at the configured output size, 32-bit
    /// RGBA, all channels zero. The chunk's own width and height describe
    /// only the dirty rectangle, so they play no part here.
    pub fn initialise_buffer(&mut self, opts: &Opts, _target: &Target, _chunk: &BitmapChunk) -> (r:
        Result<(), ()>)
        ensures
            r is Ok <==> !Self::alloc_too_big(opts),
            r is Err ==> *final (self) == *old(self),
            r is Ok ==> {
                let w = opts.size.0 as u32;
                let h = opts.size.1 as u32;
                &&& final (self).image matches Some(ImageMode::Rgba32(fb)) && fb.width == w
                    && fb.height == h && fb.data@ == Seq::new(
                    (w as int * h as int * 4) as nat,
                    |i: int| 0u8,
                )
                &&& final (self).width == Some(w)
                &&& final (self).height == Some(h)
                &&& final (self).component_width == Some(4usize)
            },
    {
        let width = opts.size.0 as u32;
        let height = opts.size.1 as u32;
        proof {
            assert((width as int) * (height as int) <= 0xffffffff * 0xffffffff)
                by (nonlinear_arith)
                requires
                    width <= 0xffffffffu32,
                    height <= 0xffffffffu32,
            ;
        }
        let wh: u64 = (width as u64) * (height as u64);
        if wh > (usize::MAX as u64) / 4 {
            return Err(());
        }
        let total: usize = (wh as usize) * 4;
        let data = crate::raster::zero_vec_u8(total);
        self.component_width = Some(4);
        self.image = Some(ImageMode::Rgba32(Framebuffer { data, width, height }));
        self.width = Some(width);
        self.height = Some(height);
        Ok(())
    }

    /// What one `add_chunk` call does, as a relation between the
    /// reassembler before and after it: the first chunk allocates the
    /// framebuffer at the configured size; a degenerate or out-of-range
    /// rectangle is rejected with the pixels untouched; an accepted
    /// chunk's pixels land row-major in `[left, right) x [top, bottom)`.
    pub open spec fn add_chunk_post(
        pre: Image,
        post: Image,
        opts: &Opts,
        chunk: &BitmapChunk,
        ok: bool,
    ) -> bool {
        &&& (pre.image is None && Self::alloc_too_big(opts) ==> !ok && post == pre)
        &&& ((pre.image is Some || !Self::alloc_too_big(opts)) ==> {
            let w = if pre.image is Some {
                pre.image->0.fb().width
            } else {
                opts.size.0 as u32
            };
            let h = if pre.image is Some {
                pre.image->0.fb().height
            } else {
                opts.size.1 as u32
            };
            let fb0 = if pre.image is Some {
                pre.fb_data()
            } else {
                Seq::new((w as int * h as int * 4) as nat, |i: int| 0u8)
            };
            &&& post.image matches Some(ImageMode::Rgba32(fb)) && fb.width == w && fb.height == h
            &&& post.width == Some(w) && post.height == Some(h)
            &&& post.component_width == Some(4usize)
            &&& degenerate(chunk) ==> !ok && post.fb_data() == fb0
            &&& !degenerate(chunk) && out_of_bounds(chunk, w, h) ==> !ok && post.fb_data() == fb0
            &&& !degenerate(chunk) && !out_of_bounds(chunk, w, h) ==> ok && post.fb_data()
                == blit_chunk(
                fb0,
                w as int,
                chunk.left as int,
                chunk.top as int,
                chunk.right - chunk.left,
                chunk.bottom - chunk.top,
                chunk_px_count(chunk),
                chunk.data@,
            )
        })
    }

    /// Fold one bitmap chunk into the framebuffer. The first chunk
    /// allocates the buffer at the configured size; a chunk with an
    /// empty rectangle, or one that does not fit the framebuffer, is
    /// rejected without touching the pixels. An accepted chunk's pixels
    /// are copied row-major into `[left, right) x [top, bottom)`, from
    /// BGR(A) wire order into RGBA with forced opacity.
    pub fn add_chunk(&mut self, opts: &Opts, target: &Target, chunk: &BitmapChunk) -> (r: Result<
        (),
        (),
    >)
        requires
            old(self).wf(),
        ensures
            final (self).wf(),
            Self::add_chunk_post(*old(self), *final (self), opts, chunk, r is Ok),
    {
        if self.image.is_none() {
            if self.initialise_buffer(opts, target, chunk).is_err() {
                return Err(());
            }
        }
        if chunk.left >= chunk.right || chunk.top >= chunk.bottom {
            return Err(());
        }
        match &mut self.image {
            Some(ImageMode::Rgba32(fb)) => {
                if chunk.right > fb.width || chunk.bottom > fb.height {
                    return Err(());
                }
                let left = chunk.left as usize;
                let top = chunk.top as usize;
                let rw = (chunk.right - chunk.left) as usize;
                let rh = (chunk.bottom - chunk.top) as usize;
                let w = fb.width as usize;
                let h = fb.height as usize;
                let ghost fb0 = fb.data@;
                proof {
                    assert(w * h <= fb.data@.len() && w * h * 4 == fb.data@.len())
                        by (nonlinear_arith)
                        requires
                            fb.data@.len() == w * h * 4,
                    ;
                    assert(rw * rh <= w * h) by (nonlinear_arith)
                        requires
                            rw <= w,
                            rh <= h,
                    ;
                    lemma_rect_cells(w as int, h as int, left as int, top as int, rw as int,
                        rh as int);
                    lemma_covered_cells(w as int, h as int, left as int, top as int, rw as int,
                        rh as int);
                }
                let data_len = fb.data.len();
                let cap = chunk.data.len() / 4;
                let area = rw * rh;
                let n_px = if cap < area {
                    cap
                } else {
                    area
                };
                let mut p: usize = 0;
                while p < n_px
                    invariant
                        fb.width as int == w && fb.height as int == h,
                        fb.data@.len() == w * h * 4,
                        fb.data@.len() == data_len,
                        w * h <= fb.data@.len(),
                        rw * rh <= w * h,
                        0 < rw,
                        left + rw <= w,
                        top + rh <= h,
                        p <= n_px,
                        n_px <= rw * rh,
                        4 * n_px <= chunk.data@.len(),
                        fb.data@ == blit_chunk(
                            fb0,
                            w as int,
                            left as int,
                            top as int,
                            rw as int,
                            rh as int,
                            p as int,
                            chunk.data@,
                        ),
                    decreases n_px - p,
                {
                    proof {
                        lemma_rect_cells(w as int, h as int, left as int, top as int, rw as int,
                            rh as int);
                        assert(rect_cell(w as int, left as int, top as int, rw as int, p as int)
                            < w * h);
                    }
                    let rem = p % rw;
                    let quo = p / rw;
                    proof {
                        assert(rem < rw && quo < rh) by (nonlinear_arith)
                            requires
                                0 < rw,
                                p < n_px,
                                n_px <= rw * rh,
                                rem == p % rw,
                                quo == p / rw,
                        ;
                    }
                    let x = left + rem;
                    let y = top + quo;
                    proof {
                        assert(y * w + x < w * h) by (nonlinear_arith)
                            requires
                                y < h,
                                x < w,
                                w > 0,
                        ;
                    }
                    let cell = y * w + x;
                    proof {
                        assert(cell == rect_cell(w as int, left as int, top as int, rw as int,
                            p as int));
                        assert(cell * 4 + 3 < fb.data@.len()) by (nonlinear_arith)
                            requires
                                cell < w * h,
                                fb.data@.len() == w * h * 4,
                        ;
                    }
                    let base = cell * 4;
                    let ghost pre = fb.data@;
                    fb.data[base] = chunk.data[4 * p + 2];
                    fb.data[base + 1] = chunk.data[4 * p + 1];
                    fb.data[base + 2] = chunk.data[4 * p];
                    fb.data[base + 3] = 0xff;
                    proof {
                        lemma_covered_cells(w as int, h as int, left as int, top as int, rw as int,
                            rh as int);
                        assert(fb.data@ =~= blit_chunk(
                            fb0,
                            w as int,
                            left as int,
                            top as int,
                            rw as int,
                            rh as int,
                            p + 1,
                            chunk.data@,
                        ));
                    }
                    p = p + 1;
                }
                Ok(())
            },
            None => {
                proof {
                    assert(false);
                }
                Err(())
            },
        }
    }
}

/// An RDP capture failure: a protocol-level error with its message, or
/// any other error already rendered as text.
#[derive(Debug)]
pub enum Error {
    Rdp(String),
    Other(String),
}

impl Error {
    /// What this error reads as in logs and reports.
    pub open spec fn spec_message(&self) -> Seq<char> {
        match self {
            Error::Rdp(m) => "RDP error: "@ + m@,
            Error::Other(m) => m@,
        }
    }

    /// Render the error for a log line or a report entry.
    pub fn to_message(&self) -> (r: String)
        ensures
            r@ == self.spec_message(),
    {
        match self {
            Error::Rdp(m) => {
                let mut s = String::from_str("RDP error: ");
                s.append(m.as_str());
                s
            },
            Error::Other(m) => m.clone(),
        }
    }
}

/// An RDP capture target must already be a socket address: RDP URLs are
/// resolved before they reach the capture engine.
pub fn target_address(target: &Target) -> (r: Result<SocketAddress, Error>)
    ensures
        target matches Target::Address(a) ==> r == Ok::<SocketAddress, Error>(*a),
        target is Url ==> (r matches Err(Error::Rdp(m)) && m@ == "Invalid RDP target: "@
            + target.display_seq()),
{
    match target {
        Target::Address(a) => Ok(*a),
        Target::Url(_) => {
            let mut m = String::from_str("Invalid RDP target: ");
            let d = target.display_string();
            m.append(d.as_str());
            Err(Error::Rdp(m))
        },
    }
}

/// How the connector is to authenticate, derived from the run options:
/// supplied credentials with an optional domain, or blank credentials
/// with network-level authentication turned off so that legacy servers
/// still answer.
#[derive(Debug, PartialEq, Eq)]
pub struct CredentialPlan {
    pub domain: String,
    pub user: String,
    pub pass: String,
    pub use_nla: bool,
    pub blank_creds: bool,
}

/// Decide the handshake credentials for a capture.
pub fn credential_plan(opts: &Opts) -> (r: CredentialPlan)
    ensures
        opts.rdp_user matches Some(u) ==> (opts.rdp_pass matches Some(p) ==> (r.user@ == u@
            && r.pass@ == p@ && r.use_nla && !r.blank_creds && (match opts.rdp_domain {
            Some(d) => r.domain@ == d@,
            None => r.domain@.len() == 0,
        }))),
        (opts.rdp_user is None || opts.rdp_pass is None) ==> (r.user@.len() == 0 && r.pass@.len()
            == 0 && r.domain@.len() == 0 && !r.use_nla && r.blank_creds),
{
    match (&opts.rdp_user, &opts.rdp_pass) {
        (Some(user), Some(pass)) => CredentialPlan {
            domain: match &opts.rdp_domain {
                Some(d) => d.clone(),
                None => String::new(),
            },
            user: user.clone(),
            pass: pass.clone(),
            use_nla: true,
            blank_creds: false,
        },
        _ => CredentialPlan {
            domain: String::new(),
            user: String::new(),
            pass: String::new(),
            use_nla: false,
            blank_creds: true,
        },
    }
}

/// Where an RDP capture stands.
#[derive(Copy, Clone, PartialEq, Eq, Structural, Debug)]
pub enum RdpState {
    /// Resolving the target and opening the transport.
    Connecting,
    /// Negotiating screen size, security and credentials.
    Handshaking,
    /// Receiving bitmap chunks until the stream goes silent.
    Streaming,
    /// Silence fell: encode and report what was assembled.
    Finalizing,
    /// The capture failed before any image could be assembled.
    Failed,
}

/// One observation the capture loop reports to the state machine.
#[derive(Debug)]
pub enum RdpEvent {
    /// The transport is open.
    Connected,
    /// The transport could not be opened.
    ConnectFailed(String),
    /// The protocol handshake succeeded and the reader thread runs.
    HandshakeDone,
    /// The protocol handshake was rejected.
    HandshakeFailed(String),
    /// One decompressed bitmap chunk arrived on the channel.
    Chunk(BitmapChunk),
    /// Nothing arrived within the inactivity window, or the channel
    /// closed. This is the normal completion signal: RDP servers never
    /// say "frame complete", so silence is the heuristic.
    Silence,
}

/// The capture state machine for one RDP target: it owns the
/// reassembler and decides every transition; the caller does the I/O
/// and feeds events in.
#[derive(Debug)]
pub struct RdpSession {
    pub state: RdpState,
    pub image: Image,
    pub error: Option<Error>,
}

impl RdpSession {
    pub open spec fn wf(&self) -> bool {
        self.image.wf()
    }

    /// Whether an event belongs to the given state; any other pairing
    /// is a stray message and changes nothing.
    pub open spec fn event_belongs(state: RdpState, event: RdpEvent) -> bool {
        match event {
            RdpEvent::Connected => state == RdpState::Connecting,
            RdpEvent::ConnectFailed(_) => state == RdpState::Connecting,
            RdpEvent::HandshakeDone => state == RdpState::Handshaking,
            RdpEvent::HandshakeFailed(_) => state == RdpState::Handshaking,
            RdpEvent::Chunk(_) => state == RdpState::Streaming,
            RdpEvent::Silence => state == RdpState::Streaming,
        }
    }

    pub fn new() -> (r: Self)
        ensures
            r.wf(),
            r.state == RdpState::Connecting,
            r.image.image is None,
            r.error is None,
    {
        RdpSession { state: RdpState::Connecting, image: Image::default(), error: None }
    }

    /// Advance on one event. Connection and handshake failures are
    /// fatal for this target; a chunk that the reassembler rejects is
    /// dropped and the stream continues; silence moves the capture to
    /// finalization. Events that do not belong to the current state
    /// change nothing.
    pub fn on_event(&mut self, opts: &Opts, target: &Target, event: RdpEvent)
        requires
            old(self).wf(),
        ensures
            final (self).wf(),
            !Self::event_belongs(old(self).state, event) ==> *final (self) == *old(self),
            old(self).state == RdpState::Connecting && event is Connected ==> final (self).state
                == RdpState::Handshaking && final (self).image == old(self).image && final (self).error == old(self).error,
            old(self).state == RdpState::Connecting ==> (event matches RdpEvent::ConnectFailed(
                m,
            ) ==> final (self).state == RdpState::Failed && (final (self).error matches Some(
                Error::Other(em),
            ) && em@ == m@) && final (self).image == old(self).image),
            old(self).state == RdpState::Handshaking && event is HandshakeDone ==> final (self).state == RdpState::Streaming && final (self).image == old(self).image && final (self).error == old(self).error,
            old(self).state == RdpState::Handshaking ==> (event matches RdpEvent::HandshakeFailed(
                m,
            ) ==> final (self).state == RdpState::Failed && (final (self).error matches Some(
                Error::Rdp(em),
            ) && em@ == m@) && final (self).image == old(self).image),
            old(self).state == RdpState::Streaming ==> (event matches RdpEvent::Chunk(c)
                ==> final (self).state == RdpState::Streaming && (exists|ok: bool|
                Image::add_chunk_post(old(self).image, final (self).image, opts, &c, ok)) && final (self).error == old(self).error),
            old(self).state == RdpState::Streaming && event is Silence ==> final (self).state
                == RdpState::Finalizing && final (self).image == old(self).image && final (self).error == old(self).error,
    {
        match event {
            RdpEvent::Connected => {
                if self.state == RdpState::Connecting {
                    self.state = RdpState::Handshaking;
                }
            },
            RdpEvent::ConnectFailed(m) => {
                if self.state == RdpState::Connecting {
                    self.state = RdpState::Failed;
                    self.error = Some(Error::Other(m));
                }
            },
            RdpEvent::HandshakeDone => {
                if self.state == RdpState::Handshaking {
                    self.state = RdpState::Streaming;
                }
            },
            RdpEvent::HandshakeFailed(m) => {
                if self.state == RdpState::Handshaking {
                    self.state = RdpState::Failed;
                    self.error = Some(Error::Rdp(m));
                }
            },
            RdpEvent::Chunk(c) => {
                if self.state == RdpState::Streaming {
                    // a rejected chunk is dropped; the capture goes on
                    let _ = self.image.add_chunk(opts, target, &c);
                }
            },
            RdpEvent::Silence => {
                if self.state == RdpState::Streaming {
                    self.state = RdpState::Finalizing;
                }
            },
        }
    }
}

/// A finished capture: the PNG bytes, where they go relative to the
/// output directory, and the message for the report sink.
#[derive(Debug)]
pub struct RdpCaptureOutput {
    pub relative_path: String,
    pub png: Vec<u8>,
    pub report: crate::reporting::ReportMessage,
}

/// Close a capture once the stream has gone silent. A framebuffer that
/// was never initialised means the server disconnected before sending
/// any bitmap data, the dominant failure class for incompatible
/// servers, and is reported as such; otherwise the image is encoded as
/// PNG for `rdp/<target>.png`.
pub fn finalise_capture(image: Image, target: &Target) -> (r: Result<RdpCaptureOutput, Error>)
    requires
        image.wf(),
    ensures
        image.image is None ==> (r matches Err(Error::Rdp(m)) && m@
            == "Error receiving image, perhaps the server disconnected"@),
        image.image is Some ==> {
            let fb = image.image->0.fb();
            &&& (r is Ok <==> crate::png::png8_encode_ok(fb.data@, fb.width, fb.height, true))
            &&& (r matches Ok(out) ==> {
                &&& out.png@ == crate::png::png_bytes_of(fb.data@, fb.width, fb.height, true)
                &&& out.relative_path@ == "rdp/"@ + crate::util::spec_target_filename(*target)
                    + ".png"@
                &&& out.report matches crate::reporting::ReportMessage::Output(c) && c.mode
                    == crate::argparse::Mode::Rdp && c.target@ == target.display_seq() && (
                c.output matches crate::reporting::FileError::File(f) && f@ == out.relative_path@)
            })
            &&& (r matches Err(e) ==> e is Other)
        },
{
    match image.image {
        Some(mode) => {
            let fb = mode.extract();
            proof {
                assert(fb.data@.len() == 4 * (fb.width as int) * (fb.height as int))
                    by (nonlinear_arith)
                    requires
                        fb.data@.len() == fb.width as int * fb.height as int * 4,
                ;
            }
            match crate::png::encode_png8(&fb.data, fb.width, fb.height, true) {
                Ok(png) => {
                    let filename = crate::util::target_to_filename(target);
                    let mut rel = String::from_str("rdp/");
                    rel.append(filename.as_str());
                    rel.append(".png");
                    let report = crate::reporting::ReportMessage::Output(
                        crate::reporting::ReportMessageContent {
                            mode: crate::argparse::Mode::Rdp,
                            target: target.display_string(),
                            output: crate::reporting::FileError::File(rel.clone()),
                        },
                    );
                    Ok(RdpCaptureOutput { relative_path: rel, png, report })
                },
                Err(e) => Err(Error::Other(e)),
            }
        },
        None => Err(
            Error::Rdp(
                String::from_str("Error receiving image, perhaps the server disconnected"),
            ),
        ),
    }
}

/// The report entry for a failed capture. An error whose message shows
/// the stream broke off mid-read marks a legacy server that speaks a
/// protocol era this client does not support, and is reported with a
/// clearer explanation.
pub fn error_report(target: &Target, e: &Error) -> (r: crate::reporting::ReportMessage)
    ensures
        r matches crate::reporting::ReportMessage::Output(c) && c.mode
            == crate::argparse::Mode::Rdp && c.target@ == target.display_seq() && (
        c.output matches crate::reporting::FileError::Error(m) && m@ == {
            if e matches Error::Rdp(inner) && crate::util::spec_contains(
                inner@,
                "failed to fill whole buffer"@,
            ) {
                "Unexpected disconnection, target may be XP-era which is currently unsupported"@
            } else {
                e.spec_message()
            }
        }),
{
    let is_xp_era = match e {
        Error::Rdp(inner) => crate::util::str_contains(
            inner.as_str(),
            "failed to fill whole buffer",
        ),
        Error::Other(_) => false,
    };
    let msg = if is_xp_era {
        String::from_str(
            "Unexpected disconnection, target may be XP-era which is currently unsupported",
        )
    } else {
        e.to_message()
    };
    crate::reporting::ReportMessage::Output(
        crate::reporting::ReportMessageContent {
            mode: crate::argparse::Mode::Rdp,
            target: target.display_string(),
            output: crate::reporting::FileError::Error(msg),
        },
    )
}

/// Blitting a chunk is idempotent: every cell the chunk covers takes
/// its value from the chunk alone, and every other cell keeps its old
/// value, so a second blit of the same chunk changes nothing.
pub proof fn lemma_blit_chunk_idempotent(
    fb: Seq<u8>,
    width: int,
    left: int,
    top: int,
    rw: int,
    rh: int,
    n_px: int,
    data: Seq<u8>,
)
    ensures
        blit_chunk(
            blit_chunk(fb, width, left, top, rw, rh, n_px, data),
            width,
            left,
            top,
            rw,
            rh,
            n_px,
            data,
        ) == blit_chunk(fb, width, left, top, rw, rh, n_px, data),
{
    assert(blit_chunk(
        blit_chunk(fb, width, left, top, rw, rh, n_px, data),
        width,
        left,
        top,
        rw,
        rh,
        n_px,
        data,
    ) =~= blit_chunk(fb, width, left, top, rw, rh, n_px, data));
}

} // verus!
