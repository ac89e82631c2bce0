use crate::errors::labelled;
use crate::text::{chars_of, decimal, push_decimal, string_from_chars, trim, trim_chars};
use vstd::prelude::*;

verus! {

/// The output resolutions that an NDI session can use.
#[derive(Debug, Clone, Copy, PartialEq, Eq)]
pub enum NdiResolution {
    R720p,
    R1080p,
    R4k,
}

/// The width and height, in pixels, of a resolution.
pub open spec fn resolution_dimensions(r: NdiResolution) -> (u32, u32) {
    match r {
        NdiResolution::R720p => (1280, 720),
        NdiResolution::R1080p => (1920, 1080),
        NdiResolution::R4k => (3840, 2160),
    }
}

impl NdiResolution {
    /// The width and height, in pixels.
    pub fn dimensions(self) -> (r: (u32, u32))
        ensures
            r == resolution_dimensions(self),
    {
        match self {
            Self::R720p => (1280, 720),
            Self::R1080p => (1920, 1080),
            Self::R4k => (3840, 2160),
        }
    }
}

/// The frame rates that an NDI session can use.
#[derive(Debug, Clone, Copy, PartialEq, Eq)]
pub enum NdiFrameRate {
    Fps24,
    Fps30,
    Fps60,
}

/// The frames per second of a frame rate.
pub open spec fn frame_rate_fps(f: NdiFrameRate) -> u32 {
    match f {
        NdiFrameRate::Fps24 => 24,
        NdiFrameRate::Fps30 => 30,
        NdiFrameRate::Fps60 => 60,
    }
}

impl NdiFrameRate {
    /// The frames per second.
    pub fn fps(self) -> (r: u32)
        ensures
            r == frame_rate_fps(self),
    {
        match self {
            Self::Fps24 => 24,
            Self::Fps30 => 30,
            Self::Fps60 => 60,
        }
    }
}

/// How the alpha channel of sent frames is treated.
#[derive(Debug, Clone, Copy, PartialEq, Eq)]
pub enum NdiAlphaMode {
    NoneOpaque,
    StraightAlpha,
    PremultipliedAlpha,
}

/// A request to start an NDI output session.
#[derive(Debug, Clone)]
pub struct NdiStartRequest {
    pub source_name: String,
    pub resolution: NdiResolution,
    pub frame_rate: NdiFrameRate,
    pub alpha_mode: NdiAlphaMode,
}

/// What an active NDI session sends.
#[derive(Debug, Clone)]
pub struct NdiSessionInfo {
    pub source_name: String,
    pub resolution: NdiResolution,
    pub frame_rate: NdiFrameRate,
    pub alpha_mode: NdiAlphaMode,
    pub width: u32,
    pub height: u32,
    pub fps: u32,
}

/// The errors of NDI output.
#[derive(Debug)]
pub enum NdiError {
    EmptySourceName,
    LibraryNotFound(String),
    LibraryLoad(String),
    SymbolLoad { symbol: &'static str, message: String },
    InitializeFailed,
    SenderCreateFailed,
    SessionNotActive,
    FrameDimensionsMismatch { expected_width: u32, expected_height: u32 },
    InvalidFrameBufferSize { width: u32, height: u32 },
}

impl NdiSessionInfo {
    /// The session that a start request describes: the source name trimmed of
    /// surrounding white space, and the resolution's dimensions and frame
    /// rate. A name that is empty after trimming is refused.
    pub fn from_request(request: &NdiStartRequest) -> (r: Result<NdiSessionInfo, NdiError>)
        ensures
            trim(request.source_name@).len() == 0 <==> r is Err,
            r matches Err(e) ==> e is EmptySourceName,
            r matches Ok(info) ==> {
                &&& info.source_name@ == trim(request.source_name@)
                &&& info.resolution == request.resolution
                &&& info.frame_rate == request.frame_rate
                &&& info.alpha_mode == request.alpha_mode
                &&& (info.width, info.height) == resolution_dimensions(request.resolution)
                &&& info.fps == frame_rate_fps(request.frame_rate)
            },
    {
        let name = chars_of(request.source_name.as_str());
        let trimmed = trim_chars(&name);
        if trimmed.len() == 0 {
            return Err(NdiError::EmptySourceName);
        }
        let (width, height) = request.resolution.dimensions();
        Ok(
            NdiSessionInfo {
                source_name: string_from_chars(&trimmed),
                resolution: request.resolution,
                frame_rate: request.frame_rate,
                alpha_mode: request.alpha_mode,
                width,
                height,
                fps: request.frame_rate.fps(),
            },
        )
    }
}

/// The value of the alpha byte sent for a pixel whose alpha is `a`.
pub open spec fn sent_alpha(mode: NdiAlphaMode, a: u8) -> u8 {
    match mode {
        NdiAlphaMode::NoneOpaque => 255,
        _ => a,
    }
}

/// Whether `out` holds the pixels of `rgba` in BGRA order, the alpha byte
/// treated as `mode` says.
pub open spec fn is_bgra_of(out: Seq<u8>, rgba: Seq<u8>, mode: NdiAlphaMode) -> bool {
    &&& out.len() == rgba.len()
    &&& forall|i: int|
        0 <= i < rgba.len() / 4 ==> {
            &&& #[trigger] out[4 * i] == rgba[4 * i + 2]
            &&& out[4 * i + 1] == rgba[4 * i + 1]
            &&& out[4 * i + 2] == rgba[4 * i]
            &&& out[4 * i + 3] == sent_alpha(mode, rgba[4 * i + 3])
        }
}

/// The number of bytes of an RGBA frame of `width` by `height` pixels.
pub open spec fn frame_bytes(width: u32, height: u32) -> int {
    width as int * height as int * 4
}

/// The header values of a video frame that a session sends.
#[derive(Debug, Clone, Copy, PartialEq, Eq)]
pub struct NdiVideoFormat {
    pub xres: i32,
    pub yres: i32,
    /// The FourCC code of BGRA, its four letters read as a little-endian word.
    pub fourcc: u32,
    pub frame_rate_n: i32,
    pub frame_rate_d: i32,
    pub line_stride_in_bytes: i32,
}

/// The FourCC code of BGRA: the bytes `B`, `G`, `R`, `A` as a little-endian
/// 32-bit word.
pub open spec fn bgra_fourcc() -> u32 {
    (0x42u32 + 0x47u32 * 0x100u32 + 0x52u32 * 0x10000u32 + 0x41u32 * 0x1000000u32) as u32
}

/// The state of an active session that the library computes: its settings,
/// the frames sent so far, and the BGRA buffer that the next frame is written
/// to.
pub struct NdiSession {
    pub info: NdiSessionInfo,
    pub frame_count: u64,
    pub frame_buffer: Vec<u8>,
}

impl NdiSession {
    /// Whether the session's frame size fits the 32-bit sizes the sender uses.
    pub open spec fn wf(&self) -> bool {
        frame_bytes(self.info.width, self.info.height) <= u32::MAX
    }

    /// A session with no frame sent yet and a zeroed buffer of one frame.
    pub fn new(info: NdiSessionInfo) -> (r: NdiSession)
        requires
            frame_bytes(info.width, info.height) <= u32::MAX,
        ensures
            r.wf(),
            r.info == info,
            r.frame_count == 0,
            r.frame_buffer@.len() == frame_bytes(info.width, info.height),
            forall|i: int| 0 <= i < r.frame_buffer@.len() ==> r.frame_buffer@[i] == 0,
    {
        let size = (info.width * info.height * 4) as usize;
        let mut buffer: Vec<u8> = Vec::new();
        let mut i: usize = 0;
        while i < size
            invariant
                i <= size,
                buffer@.len() == i,
                forall|j: int| 0 <= j < i ==> buffer@[j] == 0,
            decreases size - i,
        {
            buffer.push(0);
            i = i + 1;
        }
        NdiSession { info, frame_count: 0, frame_buffer: buffer }
    }

    /// Checks an RGBA frame against the session's settings and writes it to
    /// the frame buffer as BGRA. A frame of other dimensions, or whose size is
    /// not four bytes a pixel, is refused and nothing changes.
    pub fn prepare_frame_rgba(&mut self, width: u32, height: u32, rgba_data: Vec<u8>) -> (r:
        Result<(), NdiError>)
        requires
            old(self).wf(),
        ensures
            final(self).wf(),
            final(self).info == old(self).info,
            final(self).frame_count == old(self).frame_count,
            (width != old(self).info.width || height != old(self).info.height) ==> r == Err::<
                (),
                NdiError,
            >(
                NdiError::FrameDimensionsMismatch {
                    expected_width: old(self).info.width,
                    expected_height: old(self).info.height,
                },
            ),
            (width == old(self).info.width && height == old(self).info.height
                && rgba_data@.len() != frame_bytes(width, height)) ==> r == Err::<(), NdiError>(
                NdiError::InvalidFrameBufferSize { width, height },
            ),
            r is Err ==> final(self).frame_buffer@ == old(self).frame_buffer@,
            (width == old(self).info.width && height == old(self).info.height
                && rgba_data@.len() == frame_bytes(width, height)) ==> r is Ok,
            r is Ok ==> is_bgra_of(final(self).frame_buffer@, rgba_data@, old(self).info.alpha_mode),
    {
        if width != self.info.width || height != self.info.height {
            return Err(
                NdiError::FrameDimensionsMismatch {
                    expected_width: self.info.width,
                    expected_height: self.info.height,
                },
            );
        }
        let expected = (width * height * 4) as usize;
        if rgba_data.len() != expected {
            return Err(NdiError::InvalidFrameBufferSize { width, height });
        }
        if self.frame_buffer.len() != expected {
            self.frame_buffer.resize(expected, 0);
        }
        let pixels = expected / 4;
        let mode = self.info.alpha_mode;
        let ghost info0 = self.info;
        let ghost count0 = self.frame_count;
        let mut idx: usize = 0;
        while idx < pixels
            invariant
                self.info == info0,
                self.frame_count == count0,
                frame_bytes(info0.width, info0.height) <= u32::MAX,
                pixels * 4 == expected,
                expected == rgba_data@.len(),
                self.frame_buffer@.len() == expected,
                idx <= pixels,
                self.info.alpha_mode == mode,
                forall|i: int|
                    0 <= i < idx ==> {
                        &&& #[trigger] self.frame_buffer@[4 * i] == rgba_data@[4 * i + 2]
                        &&& self.frame_buffer@[4 * i + 1] == rgba_data@[4 * i + 1]
                        &&& self.frame_buffer@[4 * i + 2] == rgba_data@[4 * i]
                        &&& self.frame_buffer@[4 * i + 3] == sent_alpha(mode, rgba_data@[4 * i + 3])
                    },
            decreases pixels - idx,
        {
            let offset = idx * 4;
            let r = rgba_data[offset];
            let g = rgba_data[offset + 1];
            let b = rgba_data[offset + 2];
            let a = rgba_data[offset + 3];
            let alpha: u8 = match mode {
                NdiAlphaMode::NoneOpaque => 255,
                NdiAlphaMode::StraightAlpha | NdiAlphaMode::PremultipliedAlpha => a,
            };
            let ghost before = self.frame_buffer@;
            self.frame_buffer.set(offset, b);
            self.frame_buffer.set(offset + 1, g);
            self.frame_buffer.set(offset + 2, r);
            self.frame_buffer.set(offset + 3, alpha);
            assert forall|i: int| 0 <= i < idx + 1 implies {
                &&& #[trigger] self.frame_buffer@[4 * i] == rgba_data@[4 * i + 2]
                &&& self.frame_buffer@[4 * i + 1] == rgba_data@[4 * i + 1]
                &&& self.frame_buffer@[4 * i + 2] == rgba_data@[4 * i]
                &&& self.frame_buffer@[4 * i + 3] == sent_alpha(mode, rgba_data@[4 * i + 3])
            } by {
                if i < idx {
                    assert(before[4 * i] == rgba_data@[4 * i + 2]);
                }
            }
            idx = idx + 1;
        }
        assert(rgba_data@.len() / 4 == pixels);
        assert(mode == old(self).info.alpha_mode);
        assert(self.frame_buffer@.len() == rgba_data@.len());
        assert forall|i: int| 0 <= i < rgba_data@.len() / 4 implies {
            &&& #[trigger] self.frame_buffer@[4 * i] == rgba_data@[4 * i + 2]
            &&& self.frame_buffer@[4 * i + 1] == rgba_data@[4 * i + 1]
            &&& self.frame_buffer@[4 * i + 2] == rgba_data@[4 * i]
            &&& self.frame_buffer@[4 * i + 3] == sent_alpha(mode, rgba_data@[4 * i + 3])
        } by {
            assert(i < idx);
        }
        assert(is_bgra_of(self.frame_buffer@, rgba_data@, mode));
        Ok(())
    }

    /// The header values of the frames this session sends: its dimensions,
    /// the BGRA FourCC, the frame rate as `fps * 1000 / 1001`, and four bytes a
    /// pixel per line.
    pub fn video_format(&self) -> (r: NdiVideoFormat)
        requires
            self.info.width * 4 <= u32::MAX,
            self.info.fps * 1000 <= u32::MAX,
        ensures
            r.xres == self.info.width as i32,
            r.yres == self.info.height as i32,
            r.fourcc == bgra_fourcc(),
            r.frame_rate_n == (self.info.fps * 1000) as i32,
            r.frame_rate_d == 1001,
            r.line_stride_in_bytes == (self.info.width * 4) as i32,
    {
        NdiVideoFormat {
            xres: self.info.width as i32,
            yres: self.info.height as i32,
            fourcc: 0x41524742,
            frame_rate_n: (self.info.fps * 1000) as i32,
            frame_rate_d: 1001,
            line_stride_in_bytes: (self.info.width * 4) as i32,
        }
    }

    /// Counts a sent frame and returns the new count.
    pub fn record_frame_sent(&mut self) -> (r: u64)
        requires
            old(self).frame_count < u64::MAX,
        ensures
            final(self).frame_count == old(self).frame_count + 1,
            final(self).info == old(self).info,
            final(self).frame_buffer == old(self).frame_buffer,
            r == final(self).frame_count,
    {
        self.frame_count = self.frame_count + 1;
        self.frame_count
    }
}

/// Whether a progress message is due after `frame_count` frames: after the
/// first and after every three hundredth.
pub fn frame_report_due(frame_count: u64) -> (r: bool)
    ensures
        r == (frame_count == 1 || frame_count % 300 == 0),
{
    frame_count == 1 || frame_count % 300 == 0
}


/// The message that describes an NDI error.
pub open spec fn ndi_error_message(e: NdiError) -> Seq<char> {
    match e {
        NdiError::EmptySourceName => "NDI source name must not be empty"@,
        NdiError::LibraryNotFound(p) => "Unable to locate NDI library at "@ + p@,
        NdiError::LibraryLoad(m) => "Failed to load NDI library: "@ + m@,
        NdiError::SymbolLoad { symbol, message } => "Failed to load symbol "@ + symbol@ + ": "@
            + message@,
        NdiError::InitializeFailed => "NDI initialization failed"@,
        NdiError::SenderCreateFailed => "Failed to create NDI sender instance"@,
        NdiError::SessionNotActive => "NDI session is not active"@,
        NdiError::FrameDimensionsMismatch { expected_width, expected_height } =>
            "Frame dimensions do not match active NDI settings ("@ + decimal(expected_width as int)
            + "x"@ + decimal(expected_height as int) + ")"@,
        NdiError::InvalidFrameBufferSize { width, height } =>
            "Frame buffer size is invalid for dimensions "@ + decimal(width as int) + "x"@
            + decimal(height as int),
    }
}

fn push_str_chars(out: &mut Vec<char>, s: &str)
    ensures
        final(out)@ == old(out)@ + s@,
{
    let cs = chars_of(s);
    let mut i: usize = 0;
    let ghost before = out@;
    while i < cs.len()
        invariant
            i <= cs@.len(),
            out@ == before + cs@.take(i as int),
        decreases cs@.len() - i,
    {
        out.push(cs[i]);
        assert(cs@.take(i + 1) =~= cs@.take(i as int).push(cs@[i as int]));
        i = i + 1;
    }
    assert(cs@.take(cs@.len() as int) =~= cs@);
}

fn dimensions_message(prefix: &str, w: u32, h: u32, suffix: &str) -> (r: String)
    ensures
        r@ == prefix@ + decimal(w as int) + "x"@ + decimal(h as int) + suffix@,
{
    let mut out: Vec<char> = Vec::new();
    push_str_chars(&mut out, prefix);
    push_decimal(&mut out, w as i64);
    push_str_chars(&mut out, "x");
    push_decimal(&mut out, h as i64);
    push_str_chars(&mut out, suffix);
    assert(out@ =~= prefix@ + decimal(w as int) + "x"@ + decimal(h as int) + suffix@);
    string_from_chars(&out)
}

impl NdiError {
    /// The message that describes the error.
    pub fn message(&self) -> (r: String)
        ensures
            r@ == ndi_error_message(*self),
    {
        match self {
            NdiError::EmptySourceName => String::from_str("NDI source name must not be empty"),
            NdiError::LibraryNotFound(p) => labelled("Unable to locate NDI library at ", p),
            NdiError::LibraryLoad(m) => labelled("Failed to load NDI library: ", m),
            NdiError::SymbolLoad { symbol, message } => {
                let mut s = String::from_str("Failed to load symbol ");
                s.append(symbol);
                s.append(": ");
                s.append(message.as_str());
                s
            },
            NdiError::InitializeFailed => String::from_str("NDI initialization failed"),
            NdiError::SenderCreateFailed => String::from_str("Failed to create NDI sender instance"),
            NdiError::SessionNotActive => String::from_str("NDI session is not active"),
            NdiError::FrameDimensionsMismatch { expected_width, expected_height } => {
                dimensions_message(
                    "Frame dimensions do not match active NDI settings (",
                    *expected_width,
                    *expected_height,
                    ")",
                )
            },
            NdiError::InvalidFrameBufferSize { width, height } => {
                let r = dimensions_message(
                    "Frame buffer size is invalid for dimensions ",
                    *width,
                    *height,
                    "",
                );
                proof {
                    reveal_strlit("");
                    assert(r@ =~= "Frame buffer size is invalid for dimensions "@ + decimal(
                        *width as int,
                    ) + "x"@ + decimal(*height as int));
                }
                r
            },
        }
    }
}


/// The frame of every resolution fits the 32-bit sizes that the sender uses,
/// so a session can be made for any start request.
pub proof fn law_resolution_frames_fit(r: NdiResolution, f: NdiFrameRate)
    ensures
        frame_bytes(resolution_dimensions(r).0, resolution_dimensions(r).1) <= u32::MAX,
        resolution_dimensions(r).0 * 4 <= u32::MAX,
        frame_rate_fps(f) * 1000 <= u32::MAX,
{
}


/// The operating systems whose NDI runtime libraries are looked for.
#[derive(Debug, Clone, Copy, PartialEq, Eq)]
pub enum HostOs {
    MacOs,
    Windows,
    /// Linux and every other system.
    Other,
}

/// The paths, relative to the application's root, where the NDI runtime
/// library of `os` is looked for, in order.
pub open spec fn library_candidates_spec(os: HostOs) -> Seq<Seq<char>> {
    match os {
        HostOs::MacOs => seq!["sdk/ndi/macos/libndi.dylib"@],
        HostOs::Windows => seq!["sdk/ndi/windows/Processing.NDI.Lib.x64.dll"@],
        HostOs::Other => seq![
            "sdk/ndi/linux/libndi.so"@,
            "sdk/ndi/linux/x86_64/libndi.so.6"@,
            "sdk/ndi/linux/libndi.so.6"@,
        ],
    }
}

/// The paths where the NDI runtime library of `os` is looked for.
pub fn library_candidates(os: HostOs) -> (r: Vec<&'static str>)
    ensures
        r@.map_values(|p: &str| p@) == library_candidates_spec(os),
{
    let r = match os {
        HostOs::MacOs => vec!["sdk/ndi/macos/libndi.dylib"],
        HostOs::Windows => vec!["sdk/ndi/windows/Processing.NDI.Lib.x64.dll"],
        HostOs::Other => vec![
            "sdk/ndi/linux/libndi.so",
            "sdk/ndi/linux/x86_64/libndi.so.6",
            "sdk/ndi/linux/libndi.so.6",
        ],
    };
    assert(r@.map_values(|p: &str| p@) =~= library_candidates_spec(os));
    r
}

/// Paths joined by ", ".
pub open spec fn joined_paths(ps: Seq<Seq<char>>) -> Seq<char>
    decreases ps.len(),
{
    if ps.len() == 0 {
        Seq::empty()
    } else if ps.len() == 1 {
        ps[0]
    } else {
        joined_paths(ps.drop_last()) + ", "@ + ps.last()
    }
}

/// The error for a library found at none of the candidate paths: it lists them
/// all, separated by ", ".
pub fn library_not_found(candidates: &Vec<&str>) -> (r: NdiError)
    ensures
        r matches NdiError::LibraryNotFound(list) && list@ == joined_paths(
            candidates@.map_values(|p: &str| p@),
        ),
{
    let ghost ps = candidates@.map_values(|p: &str| p@);
    let mut out: Vec<char> = Vec::new();
    let mut i: usize = 0;
    while i < candidates.len()
        invariant
            ps == candidates@.map_values(|p: &str| p@),
            i <= candidates@.len(),
            out@ == joined_paths(ps.take(i as int)),
        decreases candidates@.len() - i,
    {
        assert(ps.take(i + 1).drop_last() =~= ps.take(i as int));
        assert(ps.take(i + 1).last() == candidates@[i as int]@);
        let ghost before = out@;
        if i > 0 {
            push_str_chars(&mut out, ", ");
        }
        push_str_chars(&mut out, candidates[i]);
        assert(i == 0 ==> ps.take(1) =~= seq![candidates@[0]@]);
        assert(i == 0 ==> before =~= Seq::<char>::empty());
        assert(out@ =~= joined_paths(ps.take(i + 1)));
        i = i + 1;
    }
    assert(ps.take(candidates@.len() as int) =~= ps);
    NdiError::LibraryNotFound(string_from_chars(&out))
}

/// A converted frame swaps red and blue and keeps green; its alpha byte is
/// the input's own alpha in straight and premultiplied modes alike, and 255
/// only when the frame is sent as opaque.
pub proof fn law_bgra_alpha_passes_through_unless_opaque(
    out: Seq<u8>,
    rgba: Seq<u8>,
    mode: NdiAlphaMode,
)
    requires
        is_bgra_of(out, rgba, mode),
    ensures
        out.len() == rgba.len(),
        forall|i: int|
            #![trigger out[4 * i]]
            0 <= i < rgba.len() / 4 ==> out[4 * i] == rgba[4 * i + 2] && out[4 * i + 1] == rgba[4
                * i + 1] && out[4 * i + 2] == rgba[4 * i],
        forall|i: int|
            #![trigger out[4 * i + 3]]
            0 <= i < rgba.len() / 4 ==> out[4 * i + 3] == (if mode == NdiAlphaMode::NoneOpaque {
                255u8
            } else {
                rgba[4 * i + 3]
            }),
{
    assert forall|i: int| #![trigger out[4 * i + 3]] 0 <= i < rgba.len() / 4 implies out[4 * i + 3]
        == (if mode == NdiAlphaMode::NoneOpaque {
        255u8
    } else {
        rgba[4 * i + 3]
    }) by {
        let x = out[4 * i];
        match mode {
            NdiAlphaMode::NoneOpaque => {},
            NdiAlphaMode::StraightAlpha => {},
            NdiAlphaMode::PremultipliedAlpha => {},
        }
    }
}

/// Straight and premultiplied alpha convert a frame of whole pixels to the
/// same bytes: the mode only tells the receiver how to read the alpha.
pub proof fn law_straight_and_premultiplied_send_the_same_bytes(
    straight: Seq<u8>,
    premultiplied: Seq<u8>,
    rgba: Seq<u8>,
)
    requires
        rgba.len() % 4 == 0,
        is_bgra_of(straight, rgba, NdiAlphaMode::StraightAlpha),
        is_bgra_of(premultiplied, rgba, NdiAlphaMode::PremultipliedAlpha),
    ensures
        straight == premultiplied,
{
    assert forall|k: int| 0 <= k < straight.len() implies straight[k] == premultiplied[k] by {
        let i = k / 4;
        assert(0 <= i < rgba.len() / 4);
        assert(straight[4 * i] == premultiplied[4 * i]);
        assert(k == 4 * i || k == 4 * i + 1 || k == 4 * i + 2 || k == 4 * i + 3);
    }
    assert(straight =~= premultiplied);
}

} // verus!
