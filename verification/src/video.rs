//! Video watermark removal: the public types, errors, and the integer
//! decisions of the pipeline (probe frames, frame sizes, map choice, ROI
//! bounds, border reflection).
use vstd::prelude::*;
use vstd::string::*;
use vstd::arithmetic::div_mod::{lemma_div_plus_one, lemma_div_is_ordered};

verus! {

/// Which watermark family to look for / remove.
#[derive(Clone, Copy, Debug, PartialEq, Eq, Structural)]
pub enum MarkKind {
    /// Probe and pick diamond or Veo automatically.
    Auto,
    /// Gemini diamond / sparkle-style mark.
    Diamond,
    /// Veo-style mark.
    Veo,
}

/// Summary returned after a successful video remove run.
#[derive(Clone, Copy)]
pub struct VideoRemoveResult {
    /// Frames that received reverse-blend.
    pub frames_processed: u32,
    /// Frames skipped (e.g. detect miss / no-op).
    pub frames_skipped: u32,
    /// Resolved mark kind after Auto detection when applicable.
    pub mark: MarkKind,
    /// Detected region `(x, y, w, h)` when known.
    pub region: (u32, u32, u32, u32),
}

#[verifier::external_type_specification]
#[verifier::external_body]
pub struct ExIoError(std::io::Error);

/// Errors produced while detecting or removing video watermarks.
#[derive(Debug)]
pub enum VideoError {
    /// ffmpeg / ffprobe CLI failure (message includes stderr when available).
    Ffmpeg(String),
    /// Local filesystem or temp-dir I/O failure.
    Io(std::io::Error),
    /// Mark detection failed or produced an unusable result.
    Detect(String),
    /// Caller-supplied path / options / container was invalid.
    InvalidInput(String),
}

/// `<std::io::Error as Display>::to_string`: the text std renders for an I/O
/// error. What that text is rests on the operating system's messages and is
/// left unsaid.
#[verifier::external_body]
fn io_error_text(err: &std::io::Error) -> String {
    err.to_string()
}

/// The message of an error other than `Io`, as characters.
pub open spec fn describe_spec(e: VideoError) -> Seq<char> {
    match e {
        VideoError::Ffmpeg(m) => "ffmpeg error: "@ + m@,
        VideoError::Detect(m) => "detection error: "@ + m@,
        VideoError::InvalidInput(m) => "invalid input: "@ + m@,
        VideoError::Io(_) => "I/O error: "@,
    }
}

impl VideoError {
    /// Human-readable message: the category and the detail.
    pub fn describe(&self) -> (s: String)
        ensures
            !(self is Io) ==> s@ == describe_spec(*self),
            self is Io ==> s@.subrange(0, describe_spec(*self).len() as int) == describe_spec(*self),
    {
        match self {
            VideoError::Ffmpeg(msg) => {
                let mut s = String::from_str("ffmpeg error: ");
                s.append(msg.as_str());
                s
            },
            VideoError::Io(err) => {
                let mut s = String::from_str("I/O error: ");
                let ghost head = s@;
                s.append(io_error_text(err).as_str());
                assert(s@.subrange(0, head.len() as int) =~= head);
                s
            },
            VideoError::Detect(msg) => {
                let mut s = String::from_str("detection error: ");
                s.append(msg.as_str());
                s
            },
            VideoError::InvalidInput(msg) => {
                let mut s = String::from_str("invalid input: ");
                s.append(msg.as_str());
                s
            },
        }
    }
}

/// The checks made on a removal request before any tool runs: the input
/// must be a file, and Veo removal is not available yet.
pub fn check_request(input_is_file: bool, input_display: &str, mark: MarkKind) -> (r: Result<(), VideoError>)
    ensures
        !input_is_file ==> (r matches Err(VideoError::InvalidInput(m)) && m@ == "input is not a file: "@ + input_display@),
        input_is_file && mark is Veo ==> (r matches Err(VideoError::Detect(m))
            && m@ == "Veo mark removal is not available in phase 1"@),
        input_is_file && !(mark is Veo) ==> r is Ok,
{
    if !input_is_file {
        let mut m = String::from_str("input is not a file: ");
        m.append(input_display);
        return Err(VideoError::InvalidInput(m));
    }
    match mark {
        MarkKind::Veo => Err(VideoError::Detect(String::from_str("Veo mark removal is not available in phase 1"))),
        _ => Ok(()),
    }
}

/// The probed stream must have a non-zero frame size.
pub fn check_stream(width: u32, height: u32) -> (r: Result<(), VideoError>)
    ensures
        (width == 0 || height == 0) ==> (r matches Err(VideoError::InvalidInput(m))
            && m@ == "ffprobe reported zero width/height"@),
        (width != 0 && height != 0) ==> r is Ok,
{
    if width == 0 || height == 0 {
        return Err(VideoError::InvalidInput(String::from_str("ffprobe reported zero width/height")));
    }
    Ok(())
}

/// Decoding must have produced at least one frame.
pub fn check_decoded(frame_count: u32) -> (r: Result<(), VideoError>)
    ensures
        frame_count == 0 ==> (r matches Err(VideoError::InvalidInput(m)) && m@ == "no frames decoded from input"@),
        frame_count != 0 ==> r is Ok,
{
    if frame_count == 0 {
        return Err(VideoError::InvalidInput(String::from_str("no frames decoded from input")));
    }
    Ok(())
}

/// Number of evenly spaced frames used for multi-frame probes.
pub const PROBE_FRAME_COUNT: usize = 5;

/// Evenly spaced indices into `n` frames: `min(5, n)` of them, the first 0
/// and (for more than one) the last `n - 1`, sample `i` at `i·(n−1)/(k−1)`.
pub open spec fn probe_indices_spec(n: int) -> Seq<usize> {
    let k = if n < PROBE_FRAME_COUNT { n } else { PROBE_FRAME_COUNT as int };
    Seq::new(k as nat, |i: int| if k == 1 { 0usize } else { (i * (n - 1) / (k - 1)) as usize })
}

/// Evenly spaced probe indices into `n` frames.
pub fn probe_indices(n: usize) -> (r: Vec<usize>)
    requires
        n <= usize::MAX / 4,
    ensures
        r@ == probe_indices_spec(n as int),
{
    let mut r: Vec<usize> = Vec::new();
    if n == 0 {
        proof {
            assert(r@ =~= probe_indices_spec(n as int));
        }
        return r;
    }
    let samples: usize = if n < PROBE_FRAME_COUNT { n } else { PROBE_FRAME_COUNT };
    let mut i: usize = 0;
    while i < samples
        invariant
            1 <= n <= usize::MAX / 4,
            samples == (if n < PROBE_FRAME_COUNT { n } else { PROBE_FRAME_COUNT }),
            0 <= i <= samples,
            r@ == probe_indices_spec(n as int).subrange(0, i as int),
        decreases samples - i,
    {
        let v = if samples == 1 {
            0
        } else {
            assert(i * (n - 1) <= 4 * (n - 1)) by (nonlinear_arith)
                requires i < 5, n >= 1;
            i * (n - 1) / (samples - 1)
        };
        r.push(v);
        proof {
            assert(r@ =~= probe_indices_spec(n as int).subrange(0, i + 1));
        }
        i = i + 1;
    }
    proof {
        assert(r@ =~= probe_indices_spec(n as int));
    }
    r
}

/// Bytes of one RGBA frame, or an error when the size overflows.
pub fn frame_nbytes(width: u32, height: u32) -> (r: Result<usize, VideoError>)
    ensures
        width * height * 4 <= usize::MAX ==> r == Ok::<usize, VideoError>((width * height * 4) as usize),
        width * height * 4 > usize::MAX ==> (r matches Err(VideoError::InvalidInput(m)) && m@ == "frame size overflow"@),
{
    let w = width as usize;
    let h = height as usize;
    match w.checked_mul(h) {
        Some(n) => match n.checked_mul(4) {
            Some(b) => Ok(b),
            None => Err(VideoError::InvalidInput(String::from_str("frame size overflow"))),
        },
        None => {
            assert(w * h * 4 > usize::MAX) by (nonlinear_arith)
                requires w * h > usize::MAX;
            Err(VideoError::InvalidInput(String::from_str("frame size overflow")))
        },
    }
}

/// The character of decimal digit `d`.
pub open spec fn digit_char(d: int) -> char {
    (48 + d) as char
}

/// The decimal digits of `n`, most significant first, with no leading zeros.
pub open spec fn decimal_spec(n: nat) -> Seq<char>
    decreases n,
{
    if n < 10 {
        seq![digit_char(n as int)]
    } else {
        decimal_spec(n / 10).push(digit_char((n % 10) as int))
    }
}

/// The one-character string of decimal digit `d`.
fn digit_str(d: usize) -> (s: &'static str)
    requires
        d < 10,
    ensures
        s@ == seq![digit_char(d as int)],
{
    proof {
        reveal_strlit("0");
        reveal_strlit("1");
        reveal_strlit("2");
        reveal_strlit("3");
        reveal_strlit("4");
        reveal_strlit("5");
        reveal_strlit("6");
        reveal_strlit("7");
        reveal_strlit("8");
        reveal_strlit("9");
    }
    let s = match d {
        0 => "0",
        1 => "1",
        2 => "2",
        3 => "3",
        4 => "4",
        5 => "5",
        6 => "6",
        7 => "7",
        8 => "8",
        _ => "9",
    };
    assert(s@ =~= seq![digit_char(d as int)]);
    s
}

/// `n` written in decimal.
pub fn decimal(n: usize) -> (s: String)
    ensures
        s@ == decimal_spec(n as nat),
    decreases n,
{
    if n < 10 {
        String::from_str(digit_str(n))
    } else {
        let mut s = decimal(n / 10);
        s.append(digit_str(n % 10));
        s
    }
}

/// The message for a probe frame of the wrong size.
pub open spec fn frame_size_message(idx: nat, len: nat, expected: nat) -> Seq<char> {
    "frame "@ + decimal_spec(idx) + " size "@ + decimal_spec(len) + " != expected "@ + decimal_spec(expected)
}

/// The probe frames taken from `frames`: the evenly spaced ones of
/// `probe_indices`, each with its size, once all of them hold a full frame.
pub fn select_probe_frames(frames: &Vec<Vec<u8>>, width: u32, height: u32)
    -> (r: Result<Vec<(u32, u32, Vec<u8>)>, VideoError>)
    requires
        frames@.len() >= 1 || width * height * 4 > usize::MAX,
        frames@.len() <= u32::MAX / 4,
    ensures
        width * height * 4 > usize::MAX ==> (r matches Err(VideoError::InvalidInput(m)) && m@ == "frame size overflow"@),
        width * height * 4 <= usize::MAX ==> ({
            let idx = probe_indices_spec(frames@.len() as int);
            let nb = width * height * 4;
            &&& (forall|j: int| 0 <= j < idx.len() ==> #[trigger] frames@[idx[j] as int]@.len() == nb) ==> (
                r matches Ok(v) && v@.len() == idx.len() && forall|j: int| 0 <= j < idx.len() ==>
                    (#[trigger] v@[j]).0 == width && v@[j].1 == height && v@[j].2@ == frames@[idx[j] as int]@)
            &&& (exists|j: int| 0 <= j < idx.len() && #[trigger] frames@[idx[j] as int]@.len() != nb) ==> (
                r matches Err(VideoError::InvalidInput(m)) && exists|j: int|
                    0 <= j < idx.len() && #[trigger] frames@[idx[j] as int]@.len() != nb
                    && (forall|i: int| 0 <= i < j ==> #[trigger] frames@[idx[i] as int]@.len() == nb)
                    && m@ == frame_size_message(idx[j] as nat, frames@[idx[j] as int]@.len(), nb as nat))
        }),
{
    let nbytes = match frame_nbytes(width, height) {
        Ok(b) => b,
        Err(e) => return Err(e),
    };
    let idxs = probe_indices(frames.len());
    let ghost idx = probe_indices_spec(frames@.len() as int);
    let mut out: Vec<(u32, u32, Vec<u8>)> = Vec::new();
    let mut j: usize = 0;
    while j < idxs.len()
        invariant
            idxs@ == idx,
            idx == probe_indices_spec(frames@.len() as int),
            1 <= frames@.len() <= u32::MAX / 4,
            nbytes == width * height * 4,
            0 <= j <= idxs@.len(),
            out@.len() == j,
            forall|i: int| 0 <= i < j ==> #[trigger] frames@[idx[i] as int]@.len() == nbytes,
            forall|i: int| 0 <= i < j ==>
                (#[trigger] out@[i]).0 == width && out@[i].1 == height && out@[i].2@ == frames@[idx[i] as int]@,
        decreases idxs@.len() - j,
    {
        let k = idxs[j];
        assert(k < frames@.len()) by {
            if frames@.len() >= 2 {
                if (j as int) < idx.len() - 1 {
                    lemma_probe_indices_spread(frames@.len() as int, j as int, (idx.len() - 1) as int);
                } else {
                    lemma_probe_indices_spread(frames@.len() as int, 0, j as int);
                }
            }
        }
        let rgba = &frames[k];
        if rgba.len() != nbytes {
            let mut m = String::from_str("frame ");
            m.append(decimal(k).as_str());
            m.append(" size ");
            m.append(decimal(rgba.len()).as_str());
            m.append(" != expected ");
            m.append(decimal(nbytes).as_str());
            proof {
                assert(m@ =~= frame_size_message(idx[j as int] as nat, frames@[idx[j as int] as int]@.len(), nbytes as nat));
            }
            return Err(VideoError::InvalidInput(m));
        }
        out.push((width, height, vstd::slice::slice_to_vec(rgba.as_slice())));
        j = j + 1;
    }
    Ok(out)
}

/// The ffmpeg tools the pipeline runs.
#[derive(Clone, Copy, Debug, PartialEq, Eq, Structural)]
pub enum FfTool {
    Ffmpeg,
    Ffprobe,
}

/// The environment variable that overrides a tool's path, read at run time
/// and, for the vendored copy, at build time.
pub fn tool_env_key(tool: FfTool) -> (k: &'static str)
    ensures
        k@ == (match tool { FfTool::Ffmpeg => "GUM_FFMPEG"@, FfTool::Ffprobe => "GUM_FFPROBE"@ }),
{
    match tool {
        FfTool::Ffmpeg => "GUM_FFMPEG",
        FfTool::Ffprobe => "GUM_FFPROBE",
    }
}

/// The tool's name, looked up on `PATH`.
pub open spec fn tool_name(tool: FfTool) -> Seq<char> {
    match tool {
        FfTool::Ffmpeg => "ffmpeg"@,
        FfTool::Ffprobe => "ffprobe"@,
    }
}

/// The path a tool resolves to: the run-time override when it names a file,
/// else the build-time vendored path when it names a file, else the bare
/// name, looked up on `PATH`.
pub open spec fn resolve_tool_spec(tool: FfTool, env: Option<Seq<char>>, env_is_file: bool,
    vendored: Option<Seq<char>>, vendored_is_file: bool) -> Seq<char> {
    match env {
        Some(p) if env_is_file => p,
        _ => match vendored {
            Some(p) if vendored_is_file => p,
            _ => tool_name(tool),
        },
    }
}

/// Choose a tool's path from its run-time override and its vendored path,
/// each with whether it names an existing file.
pub fn resolve_tool_path(tool: FfTool, env: Option<String>, env_is_file: bool,
    vendored: Option<String>, vendored_is_file: bool) -> (r: String)
    ensures
        r@ == resolve_tool_spec(tool, match env { Some(p) => Some(p@), None => None }, env_is_file,
            match vendored { Some(p) => Some(p@), None => None }, vendored_is_file),
{
    if let Some(p) = env {
        if env_is_file {
            return p;
        }
    }
    if let Some(p) = vendored {
        if vendored_is_file {
            return p;
        }
    }
    match tool {
        FfTool::Ffmpeg => String::from_str("ffmpeg"),
        FfTool::Ffprobe => String::from_str("ffprobe"),
    }
}

/// The characters of each argument.
pub open spec fn arg_chars(args: Seq<String>) -> Seq<Seq<char>> {
    args.map_values(|a: String| a@)
}

/// The ffmpeg arguments that encode RGBA rawvideo from stdin at `fps` into
/// H.264 `output`, taking the audio of `input` when it has any.
pub open spec fn encode_args_spec(size: Seq<char>, fps: Seq<char>, input: Seq<char>, output: Seq<char>, has_audio: bool)
    -> Seq<Seq<char>> {
    let head = seq!["-hide_banner"@, "-loglevel"@, "error"@, "-y"@, "-f"@, "rawvideo"@, "-pix_fmt"@, "rgba"@,
        "-s"@, size, "-framerate"@, fps, "-i"@, "pipe:0"@, "-i"@, input, "-map"@, "0:v:0"@];
    let audio = if has_audio { seq!["-map"@, "1:a:0"@, "-c:a"@, "copy"@] } else { Seq::empty() };
    let tail = seq!["-c:v"@, "libx264"@, "-pix_fmt"@, "yuv420p"@, "-crf"@, "18"@, "-movflags"@, "+faststart"@, output];
    head + audio + tail
}

/// Push an argument.
fn push_arg(args: &mut Vec<String>, a: &str)
    ensures
        arg_chars(final(args)@) == arg_chars(old(args)@).push(a@),
{
    let ghost before = args@;
    args.push(String::from_str(a));
    proof {
        assert(arg_chars(args@) =~= arg_chars(before).push(a@));
    }
}

/// The encode arguments for a `width × height` stream; `fps` is the frame
/// rate as the caller renders it.
pub fn encode_args(width: u32, height: u32, fps: &str, input: &str, output: &str, has_audio: bool) -> (r: Vec<String>)
    ensures
        arg_chars(r@) == encode_args_spec(
            decimal_spec(width as nat) + "x"@ + decimal_spec(height as nat), fps@, input@, output@, has_audio),
{
    let mut size = decimal(width as usize);
    size.append("x");
    size.append(decimal(height as usize).as_str());
    let mut args: Vec<String> = Vec::new();
    push_arg(&mut args, "-hide_banner");
    push_arg(&mut args, "-loglevel");
    push_arg(&mut args, "error");
    push_arg(&mut args, "-y");
    push_arg(&mut args, "-f");
    push_arg(&mut args, "rawvideo");
    push_arg(&mut args, "-pix_fmt");
    push_arg(&mut args, "rgba");
    push_arg(&mut args, "-s");
    push_arg(&mut args, size.as_str());
    push_arg(&mut args, "-framerate");
    push_arg(&mut args, fps);
    push_arg(&mut args, "-i");
    push_arg(&mut args, "pipe:0");
    push_arg(&mut args, "-i");
    push_arg(&mut args, input);
    push_arg(&mut args, "-map");
    push_arg(&mut args, "0:v:0");
    if has_audio {
        push_arg(&mut args, "-map");
        push_arg(&mut args, "1:a:0");
        push_arg(&mut args, "-c:a");
        push_arg(&mut args, "copy");
    }
    push_arg(&mut args, "-c:v");
    push_arg(&mut args, "libx264");
    push_arg(&mut args, "-pix_fmt");
    push_arg(&mut args, "yuv420p");
    push_arg(&mut args, "-crf");
    push_arg(&mut args, "18");
    push_arg(&mut args, "-movflags");
    push_arg(&mut args, "+faststart");
    push_arg(&mut args, output);
    proof {
        let sz = decimal_spec(width as nat) + "x"@ + decimal_spec(height as nat);
        assert(arg_chars(args@) =~= encode_args_spec(sz, fps@, input@, output@, has_audio));
    }
    args
}

/// The message for a frame of the wrong size handed to the encoder.
pub open spec fn encode_frame_message(i: nat, len: nat, expected: nat) -> Seq<char> {
    "encode frame "@ + decimal_spec(i) + " size "@ + decimal_spec(len) + " != "@ + decimal_spec(expected)
}

/// Frame `i` handed to the encoder must hold `nbytes` bytes.
pub fn check_encode_frame(i: usize, len: usize, nbytes: usize) -> (r: Result<(), VideoError>)
    ensures
        len == nbytes ==> r is Ok,
        len != nbytes ==> (r matches Err(VideoError::InvalidInput(m))
            && m@ == encode_frame_message(i as nat, len as nat, nbytes as nat)),
{
    if len == nbytes {
        return Ok(());
    }
    let mut m = String::from_str("encode frame ");
    m.append(decimal(i).as_str());
    m.append(" size ");
    m.append(decimal(len).as_str());
    m.append(" != ");
    m.append(decimal(nbytes).as_str());
    proof {
        assert(m@ =~= encode_frame_message(i as nat, len as nat, nbytes as nat));
    }
    Err(VideoError::InvalidInput(m))
}

/// Which diamond alpha map the pipeline uses.
#[derive(Clone, Copy, Debug, PartialEq, Eq, Structural)]
pub enum MapChoice {
    /// 44×44 compact 720p map.
    Compact720,
    /// 48×48 standard 720p map.
    Standard720,
    /// 72×72 standard 1080p map.
    Standard1080,
}

/// The map the pipeline picks for a detection: the compact map when asked
/// for legacy geometry or when the detection is 44×44 (if it is available),
/// the 1080p map for a 72×72 detection, else the 720p map; Veo has no map.
pub open spec fn select_map_spec(mark: MarkKind, det_w: u32, det_h: u32, legacy: bool, compact_available: bool)
    -> Option<MapChoice> {
    if legacy && compact_available {
        Some(MapChoice::Compact720)
    } else if det_w == 44 && det_h == 44 && compact_available {
        Some(MapChoice::Compact720)
    } else if det_w == 72 && det_h == 72 {
        Some(MapChoice::Standard1080)
    } else {
        match mark {
            MarkKind::Veo => None,
            _ => Some(MapChoice::Standard720),
        }
    }
}

/// Choose the map for a detection of `mark` sized `det_w × det_h`.
pub fn select_map(mark: MarkKind, det_w: u32, det_h: u32, legacy: bool, compact_available: bool)
    -> (r: Result<MapChoice, VideoError>)
    ensures
        match select_map_spec(mark, det_w, det_h, legacy, compact_available) {
            Some(c) => r == Ok::<MapChoice, VideoError>(c),
            None => r matches Err(VideoError::Detect(m)) && m@ == "Veo maps not available in phase 1"@,
        },
{
    if legacy && compact_available {
        return Ok(MapChoice::Compact720);
    }
    if det_w == 44 && det_h == 44 && compact_available {
        return Ok(MapChoice::Compact720);
    }
    if det_w == 72 && det_h == 72 {
        return Ok(MapChoice::Standard1080);
    }
    match mark {
        MarkKind::Diamond | MarkKind::Auto => Ok(MapChoice::Standard720),
        MarkKind::Veo => Err(VideoError::Detect(String::from_str("Veo maps not available in phase 1"))),
    }
}

/// OpenCV `BORDER_REFLECT_101` of a coordinate into `0..len`: mirror about
/// the first and last sample without repeating them.
pub open spec fn reflect101_spec(p: int, len: int) -> int
    decreases (if p < 0 { -2 * p + 1 } else { 2 * p }),
{
    if len <= 1 {
        0
    } else if p < 0 {
        reflect101_spec(-p, len)
    } else if p >= len {
        reflect101_spec(2 * len - 2 - p, len)
    } else {
        p
    }
}

/// Reflect `p` into `0..len` (101 reflection; 0 when `len <= 1`).
pub fn reflect101(p: i32, len: i32) -> (r: i32)
    requires
        p > i32::MIN,
        len <= i32::MAX / 2,
    ensures
        r == reflect101_spec(p as int, len as int),
        len >= 1 ==> 0 <= r < len,
{
    if len <= 1 {
        return 0;
    }
    let mut x = p;
    loop
        invariant
            2 <= len <= i32::MAX / 2,
            x > i32::MIN,
            reflect101_spec(x as int, len as int) == reflect101_spec(p as int, len as int),
        decreases (if x < 0 { -2 * x + 1 } else { 2 * x }),
    {
        if x < 0 {
            x = -x;
        } else if x >= len {
            x = 2 * len - 2 - x;
        } else {
            return x;
        }
    }
}

/// The logo colour of map pixel `i`: the companion RGB when it covers the
/// pixel, else white.
pub open spec fn logo_rgb_spec(rgb: Option<Seq<u8>>, i: int) -> (u8, u8, u8) {
    match rgb {
        Some(v) if v.len() >= (i + 1) * 3 => (v[i * 3], v[i * 3 + 1], v[i * 3 + 2]),
        _ => (255u8, 255u8, 255u8),
    }
}

/// Logo colour of map pixel `i` (white when no companion RGB covers it).
pub fn logo_rgb(rgb: &Option<Vec<u8>>, i: usize) -> (r: (u8, u8, u8))
    requires
        i < usize::MAX / 4,
    ensures
        r == logo_rgb_spec(match rgb { Some(v) => Some(v@), None => None }, i as int),
{
    match rgb {
        Some(v) if v.len() >= (i + 1) * 3 => {
            let o = i * 3;
            (v[o], v[o + 1], v[o + 2])
        },
        _ => (255, 255, 255),
    }
}

/// `w·h·4` saturated at `usize::MAX`.
pub open spec fn saturated_len(w: int, h: int) -> int {
    if w * h * 4 <= usize::MAX { w * h * 4 } else { usize::MAX as int }
}

/// A frame and map agree in size and the map's box at `(det_x, det_y)` lies
/// inside the `w × h` frame (lengths and box ends compared saturated, as
/// the machine integers hold them).
pub open spec fn dims_ok_spec(frame_len: int, w: int, h: int, det_x: int, det_y: int, map_w: int, map_h: int, alpha_len: int) -> bool {
    &&& w != 0 && h != 0 && map_w != 0 && map_h != 0
    &&& frame_len == saturated_len(w, h)
    &&& alpha_len == map_w * map_h
    &&& saturated_u32(det_x + map_w) <= w
    &&& saturated_u32(det_y + map_h) <= h
}

/// `v` saturated at `u32::MAX`.
pub open spec fn saturated_u32(v: int) -> int {
    if v <= u32::MAX { v } else { u32::MAX as int }
}

/// Whether the region and map dimensions are usable on a frame.
pub fn dims_ok(frame_len: usize, w: u32, h: u32, det_x: u32, det_y: u32, map_w: u32, map_h: u32, alpha_len: usize)
    -> (r: bool)
    requires
        map_w * map_h <= usize::MAX,
    ensures
        r == dims_ok_spec(frame_len as int, w as int, h as int, det_x as int, det_y as int, map_w as int, map_h as int, alpha_len as int),
{
    if w == 0 || h == 0 || map_w == 0 || map_h == 0 {
        return false;
    }
    let expected: usize = match (w as usize).checked_mul(h as usize) {
        Some(n) => match n.checked_mul(4) {
            Some(b) => b,
            None => usize::MAX,
        },
        None => {
            assert(w * h * 4 > usize::MAX) by (nonlinear_arith)
                requires w * h > usize::MAX;
            usize::MAX
        },
    };
    if frame_len != expected {
        return false;
    }
    if alpha_len != (map_w as usize) * (map_h as usize) {
        return false;
    }
    det_x.saturating_add(map_w) <= w && det_y.saturating_add(map_h) <= h
}

/// The rectangle `[x0, x1) × [y0, y1)` of the 4-pixel ring around a map box
/// at `(det_x, det_y)`, clipped to the frame.
pub fn ring_bounds(w: u32, h: u32, det_x: u32, det_y: u32, map_w: u32, map_h: u32) -> (r: (u32, u32, u32, u32))
    requires
        det_x + map_w + 4 <= u32::MAX,
        det_y + map_h + 4 <= u32::MAX,
    ensures
        r.0 == (if det_x >= 4 { det_x - 4 } else { 0 }),
        r.1 == (if det_y >= 4 { det_y - 4 } else { 0 }),
        r.2 == (if det_x + map_w + 4 <= w { det_x + map_w + 4 } else { w as int }),
        r.3 == (if det_y + map_h + 4 <= h { det_y + map_h + 4 } else { h as int }),
{
    let x0 = det_x.saturating_sub(4);
    let y0 = det_y.saturating_sub(4);
    let xe = det_x + map_w + 4;
    let ye = det_y + map_h + 4;
    let x1 = if xe <= w { xe } else { w };
    let y1 = if ye <= h { ye } else { h };
    (x0, y0, x1, y1)
}

/// The right and bottom margin ranges `(mx_lo, mx_hi, my_lo, my_hi)` searched
/// for a `map_w × map_h` map on a `width × height` frame, given the margin
/// prior `m_lo..=m_hi`: each bound clipped to the room the map leaves;
/// `None` when a range is empty.
pub fn margin_window(width: u32, height: u32, map_w: u32, map_h: u32, m_lo: u32, m_hi: u32)
    -> (r: Option<(u32, u32, u32, u32)>)
    ensures
        ({
            let max_mx: int = if width >= map_w { width - map_w } else { 0 };
            let max_my: int = if height >= map_h { height - map_h } else { 0 };
            let mx_lo = if m_lo <= max_mx { m_lo as int } else { max_mx };
            let mx_hi = if m_hi <= max_mx { m_hi as int } else { max_mx };
            let my_lo = if m_lo <= max_my { m_lo as int } else { max_my };
            let my_hi = if m_hi <= max_my { m_hi as int } else { max_my };
            if mx_lo > mx_hi || my_lo > my_hi {
                r is None
            } else {
                r == Some((mx_lo as u32, mx_hi as u32, my_lo as u32, my_hi as u32))
            }
        }),
{
    let max_mx = width.saturating_sub(map_w);
    let max_my = height.saturating_sub(map_h);
    let mx_lo = if m_lo <= max_mx { m_lo } else { max_mx };
    let mx_hi = if m_hi <= max_mx { m_hi } else { max_mx };
    let my_lo = if m_lo <= max_my { m_lo } else { max_my };
    let my_hi = if m_hi <= max_my { m_hi } else { max_my };
    if mx_lo > mx_hi || my_lo > my_hi {
        return None;
    }
    Some((mx_lo, mx_hi, my_lo, my_hi))
}

/// Probe indices are strictly increasing and lie in `0..n`; the first is 0
/// and the last is `n − 1`, so probes spread over the whole clip.
pub proof fn lemma_probe_indices_spread(n: int, i: int, j: int)
    requires
        1 <= n <= usize::MAX,
        0 <= i < j < probe_indices_spec(n).len(),
    ensures
        probe_indices_spec(n)[i] < probe_indices_spec(n)[j] < n,
        probe_indices_spec(n)[0] == 0,
        probe_indices_spec(n)[probe_indices_spec(n).len() - 1] == n - 1,
{
    let k: int = if n < PROBE_FRAME_COUNT { n } else { PROBE_FRAME_COUNT as int };
    let d = k - 1;
    assert(k >= 2);
    assert(d >= 1);
    let a = i * (n - 1);
    let b = j * (n - 1);
    assert(a + d <= b) by (nonlinear_arith)
        requires a == i * (n - 1), b == j * (n - 1), i < j, d <= n - 1, d >= 1;
    lemma_div_plus_one(a, d);
    lemma_div_is_ordered(d + a, b, d);
    assert(b <= d * (n - 1)) by (nonlinear_arith)
        requires b == j * (n - 1), j <= d, n >= 1;
    assert(d * (n - 1) / d == n - 1) by (nonlinear_arith) requires d >= 1;
    lemma_div_is_ordered(b, d * (n - 1), d);
    assert(a >= 0) by (nonlinear_arith) requires a == i * (n - 1), i >= 0, n >= 1;
    assert(a / d >= 0) by (nonlinear_arith) requires a >= 0, d >= 1;
    assert(probe_indices_spec(n)[i] as int == a / d);
    assert(probe_indices_spec(n)[j] as int == b / d);
    assert(probe_indices_spec(n)[0] as int == (0 * (n - 1)) / d);
    assert(probe_indices_spec(n)[k - 1] as int == (d * (n - 1)) / d);
}

/// Reflection leaves in-range coordinates alone and maps every coordinate
/// into `0..len`.
pub proof fn lemma_reflect101_in_range(p: int, len: int)
    requires
        len >= 2,
    ensures
        0 <= p < len ==> reflect101_spec(p, len) == p,
        0 <= reflect101_spec(p, len) < len,
    decreases (if p < 0 { -2 * p + 1 } else { 2 * p }),
{
    if p < 0 {
        lemma_reflect101_in_range(-p, len);
    } else if p >= len {
        lemma_reflect101_in_range(2 * len - 2 - p, len);
    }
}

/// A 72×72 detection takes the 1080p map whatever the mark kind, unless
/// legacy geometry is asked for and the compact map exists; the mark kind
/// matters only for a detection that is neither 72×72 nor a compact 44×44;
/// and every kind but Veo always gets a map.
pub proof fn lemma_select_map_by_size(m1: MarkKind, m2: MarkKind, det_w: u32, det_h: u32, legacy: bool, compact_available: bool)
    ensures
        det_w == 72 && det_h == 72 && !(legacy && compact_available) ==>
            select_map_spec(m1, det_w, det_h, legacy, compact_available) == Some(MapChoice::Standard1080),
        (det_w == 72 && det_h == 72) || compact_available ==> (
            (legacy || (det_w == 44 && det_h == 44) || (det_w == 72 && det_h == 72)) ==>
            select_map_spec(m1, det_w, det_h, legacy, compact_available)
                == select_map_spec(m2, det_w, det_h, legacy, compact_available)),
        !(m1 is Veo) ==> select_map_spec(m1, det_w, det_h, legacy, compact_available) is Some,
{
}

/// The encoder reads the cleaned frames as input 0 from its stdin and the
/// source file as input 1, and always takes its video from input 0: the
/// arguments hold `-i pipe:0 -i <input> -map 0:v:0` at the same place with
/// or without audio. Adding audio inserts exactly `-map 1:a:0 -c:a copy`
/// after that and changes nothing else; the output path comes last.
pub proof fn lemma_encode_maps_video_from_pipe(size: Seq<char>, fps: Seq<char>, input: Seq<char>, output: Seq<char>)
    ensures
        forall|a: bool| #![trigger encode_args_spec(size, fps, input, output, a)] {
            let v = encode_args_spec(size, fps, input, output, a);
            &&& v[8] == "-s"@ && v[9] == size && v[10] == "-framerate"@ && v[11] == fps
            &&& v[12] == "-i"@ && v[13] == "pipe:0"@ && v[14] == "-i"@ && v[15] == input
            &&& v[16] == "-map"@ && v[17] == "0:v:0"@
            &&& v[v.len() - 1] == output
        },
        ({
            let with = encode_args_spec(size, fps, input, output, true);
            let without = encode_args_spec(size, fps, input, output, false);
            &&& with.len() == without.len() + 4
            &&& with.subrange(18, 22) == seq!["-map"@, "1:a:0"@, "-c:a"@, "copy"@]
            &&& with.subrange(0, 18) == without.subrange(0, 18)
            &&& with.subrange(22, with.len() as int) == without.subrange(18, without.len() as int)
        }),
{
    let with = encode_args_spec(size, fps, input, output, true);
    let without = encode_args_spec(size, fps, input, output, false);
    assert(with.subrange(18, 22) =~= seq!["-map"@, "1:a:0"@, "-c:a"@, "copy"@]);
    assert(with.subrange(0, 18) =~= without.subrange(0, 18));
    assert(with.subrange(22, with.len() as int) =~= without.subrange(18, without.len() as int));
}

/// A tool's path is the run-time override whenever that names a file;
/// otherwise the vendored path whenever that names a file, whether or not an
/// override was set; otherwise the bare name. It is always one of the three.
pub proof fn lemma_tool_path_order(tool: FfTool, env: Option<Seq<char>>, env_is_file: bool,
    vendored: Option<Seq<char>>, vendored_is_file: bool)
    ensures
        ({
            let r = resolve_tool_spec(tool, env, env_is_file, vendored, vendored_is_file);
            &&& (env is Some && env_is_file) ==> env == Some(r)
            &&& (!(env is Some && env_is_file) && (vendored is Some && vendored_is_file)) ==> vendored == Some(r)
            &&& (!(env is Some && env_is_file) && !(vendored is Some && vendored_is_file)) ==>
                    r == (match tool { FfTool::Ffmpeg => "ffmpeg"@, FfTool::Ffprobe => "ffprobe"@ })
            &&& r == tool_name(tool) || env == Some(r) || vendored == Some(r)
        }),
        resolve_tool_spec(tool, None, false, vendored, vendored_is_file)
            == resolve_tool_spec(tool, None, true, vendored, vendored_is_file),
{
}

} // verus!
