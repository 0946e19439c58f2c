//! The video export protocol: frame sizing, the encoder's command line, and
//! a typestate that makes writing after finishing unrepresentable. The
//! process that does the encoding belongs to the caller.
use vstd::prelude::*;
use core::marker::PhantomData;
use crate::text::{
    decimal, lemma_decimal_starts_with_a_digit, push_decimal, push_signed_decimal, signed_decimal,
};

verus! {

#[verifier::external_type_specification]
#[verifier::external_body]
pub struct ExIoError(std::io::Error);

/// Why an encode could not start, continue, or complete.
#[derive(Debug)]
#[non_exhaustive]
pub enum MediaError {
    /// `ffmpeg` is not on `PATH`, or could not be started.
    NotInstalled(std::io::Error),
    /// A frame was not exactly `width * height * 4` bytes.
    WrongFrameSize {
        /// Bytes the dimensions imply.
        expected: usize,
        /// Bytes actually supplied.
        got: usize,
    },
    /// The encoder closed its input early, usually because it rejected the
    /// arguments.
    Closed(std::io::Error),
    /// `ffmpeg` exited with a failure status.
    Failed(Option<i32>),
}

/// The one-line description of a media error.
pub open spec fn media_message(e: MediaError) -> Seq<char> {
    match e {
        MediaError::NotInstalled(_) => "could not start ffmpeg; is it installed and on PATH?"@,
        MediaError::WrongFrameSize { expected, got } => "expected "@ + decimal(expected as nat)
            + " bytes per frame, got "@ + decimal(got as nat),
        MediaError::Closed(_) => "ffmpeg closed its input before the last frame"@,
        MediaError::Failed(Some(code)) => "ffmpeg exited with status "@ + signed_decimal(
            code as int,
        ),
        MediaError::Failed(None) => "ffmpeg was killed by a signal"@,
    }
}

impl MediaError {
    /// Describe the error in one line, for display.
    pub fn message(&self) -> (s: String)
        ensures
            s@ == media_message(*self),
    {
        match self {
            MediaError::NotInstalled(_) => String::from_str(
                "could not start ffmpeg; is it installed and on PATH?",
            ),
            MediaError::WrongFrameSize { expected, got } => {
                let mut s = String::from_str("expected ");
                push_decimal(&mut s, *expected as u64);
                s.append(" bytes per frame, got ");
                push_decimal(&mut s, *got as u64);
                s
            },
            MediaError::Closed(_) => String::from_str("ffmpeg closed its input before the last frame"),
            MediaError::Failed(Some(code)) => {
                let mut s = String::from_str("ffmpeg exited with status ");
                push_signed_decimal(&mut s, *code as i64);
                s
            },
            MediaError::Failed(None) => String::from_str("ffmpeg was killed by a signal"),
        }
    }
}

/// How to encode. The defaults are a sane H.264 that plays everywhere.
#[derive(Clone, Copy, Debug)]
#[non_exhaustive]
pub struct EncodeOptions {
    /// Output frame rate.
    pub fps: u32,
    /// Constant rate factor: lower is better quality and a larger file.
    /// 18 is visually lossless, 23 is the ffmpeg default, 28 is small.
    pub crf: u8,
    /// x264 preset, trading encode speed against file size.
    pub preset: &'static str,
    /// Video codec, as ffmpeg names it.
    pub codec: &'static str,
}

/// The default options, at the given frame rate.
pub open spec fn default_options_at(o: EncodeOptions, fps: u32) -> bool {
    &&& o.fps == fps
    &&& o.crf == 18
    &&& o.preset@ == "medium"@
    &&& o.codec@ == "libx264"@
}

impl EncodeOptions {
    /// The defaults at a chosen frame rate; assign the public fields you care
    /// about afterwards.
    pub fn new(fps: u32) -> (o: Self)
        ensures
            default_options_at(o, fps),
    {
        let d = Self::default();
        EncodeOptions { fps, ..d }
    }
}

impl Default for EncodeOptions {
    fn default() -> (o: Self)
        ensures
            default_options_at(o, 30),
    {
        EncodeOptions { fps: 30, crf: 18, preset: "medium", codec: "libx264" }
    }
}

/// The encoder is accepting frames.
#[derive(Debug)]
pub struct Open;

/// The file is closed and complete.
#[derive(Debug)]
pub struct Finished;

/// Bytes in one RGBA8 frame of the given size, each side at least one pixel.
pub open spec fn frame_size(width: u32, height: u32) -> int {
    let w = if width == 0 {
        1int
    } else {
        width as int
    };
    let h = if height == 0 {
        1int
    } else {
        height as int
    };
    w * h * 4
}

/// A frame holds four bytes for every pixel of the size a resize to the
/// same width and height would give, and as many as a texture of that size.
pub proof fn lemma_frame_is_four_bytes_a_pixel(width: u32, height: u32)
    ensures
        ({
            let c = crate::surface::clamped_size(width, height);
            &&& frame_size(width, height) == c.0 as int * c.1 as int * 4
            &&& frame_size(width, height) == crate::texture::texture_bytes(c.0, c.1)
        }),
{
}

/// Whether one RGBA8 frame of the given size can be addressed at all.
pub fn frame_size_fits(width: u32, height: u32) -> (b: bool)
    ensures
        b == (frame_size(width, height) <= usize::MAX),
{
    let w: u64 = if width == 0 {
        1
    } else {
        width as u64
    };
    let h: u64 = if height == 0 {
        1
    } else {
        height as u64
    };
    assert(w * h <= 0xFFFF_FFFE_0000_0001) by (nonlinear_arith)
        requires
            w <= 0xFFFF_FFFF,
            h <= 0xFFFF_FFFF,
    ;
    let wh = w * h;
    if wh > (usize::MAX as u64) / 4 {
        false
    } else {
        true
    }
}

/// The bookkeeping of an in-progress or completed encode: how big a frame
/// must be, and how many have been written. The state parameter is the
/// protocol: frames are accepted only while `Open`, and `finish` consumes it.
#[derive(Debug)]
pub struct EncodeState<S> {
    frame_bytes: usize,
    frames: u64,
    state: PhantomData<S>,
}

impl<S> EncodeState<S> {
    /// Bytes every frame must have.
    pub closed spec fn spec_frame_bytes(self) -> nat {
        self.frame_bytes as nat
    }

    /// A frame's byte count is one a `usize` can hold, so the `expected`
    /// that `check_frame` reports is exactly it.
    pub proof fn lemma_frame_bytes_fit(self)
        ensures
            self.spec_frame_bytes() <= usize::MAX,
    {
    }

    /// Frames written so far.
    pub closed spec fn spec_frames(self) -> nat {
        self.frames as nat
    }

    /// Frames written so far.
    pub fn written(&self) -> (n: u64)
        ensures
            n == self.spec_frames(),
    {
        self.frames
    }

    /// Bytes every frame must have.
    pub fn frame_bytes(&self) -> (n: usize)
        ensures
            n == self.spec_frame_bytes(),
    {
        self.frame_bytes
    }
}

impl EncodeState<Open> {
    /// Start an encode of `width` by `height` RGBA8 frames; a zero side
    /// counts as one pixel.
    pub fn new(width: u32, height: u32) -> (e: Self)
        requires
            frame_size(width, height) <= usize::MAX,
        ensures
            e.spec_frame_bytes() == frame_size(width, height),
            e.spec_frames() == 0,
    {
        let w: usize = if width == 0 {
            1
        } else {
            width as usize
        };
        let h: usize = if height == 0 {
            1
        } else {
            height as usize
        };
        assert(w * h * 4 == frame_size(width, height));
        assert(w * h <= w * h * 4) by (nonlinear_arith)
            requires
                w >= 1,
                h >= 1,
        ;
        EncodeState { frame_bytes: w * h * 4, frames: 0, state: PhantomData }
    }

    /// Accept or refuse a frame of `len` bytes before it reaches the encoder.
    pub fn check_frame(&self, len: usize) -> (r: Result<(), MediaError>)
        ensures
            len == self.spec_frame_bytes() <==> r is Ok,
            r matches Err(e) ==> e == (MediaError::WrongFrameSize {
                expected: self.spec_frame_bytes() as usize,
                got: len,
            }),
    {
        if len != self.frame_bytes {
            return Err(MediaError::WrongFrameSize { expected: self.frame_bytes, got: len });
        }
        Ok(())
    }

    /// Count a frame the encoder has taken.
    pub fn record_frame(&mut self)
        requires
            old(self).spec_frames() < u64::MAX,
        ensures
            final(self).spec_frames() == old(self).spec_frames() + 1,
            final(self).spec_frame_bytes() == old(self).spec_frame_bytes(),
    {
        self.frames = self.frames + 1;
    }

    /// Close the encode; no frame can be written afterwards.
    pub fn finish(self) -> (e: EncodeState<Finished>)
        ensures
            e.spec_frames() == self.spec_frames(),
            e.spec_frame_bytes() == self.spec_frame_bytes(),
    {
        EncodeState { frame_bytes: self.frame_bytes, frames: self.frames, state: PhantomData }
    }
}

impl EncodeState<Finished> {
    /// How many frames were written.
    pub fn frames(&self) -> (n: u64)
        ensures
            n == self.spec_frames(),
    {
        self.frames
    }
}

/// The side of a frame, at least one pixel.
pub open spec fn side(v: u32) -> nat {
    if v == 0 {
        1
    } else {
        v as nat
    }
}

/// The encoder's arguments, before the output path: raw RGBA frames of the
/// given size on stdin, encoded with the given options into yuv420p.
pub open spec fn encoder_args(width: u32, height: u32, o: EncodeOptions) -> Seq<Seq<char>> {
    seq![
        "-hide_banner"@,
        "-loglevel"@,
        "error"@,
        "-y"@,
        "-f"@,
        "rawvideo"@,
        "-pix_fmt"@,
        "rgba"@,
        "-s"@,
        decimal(side(width)) + "x"@ + decimal(side(height)),
        "-r"@,
        decimal(o.fps as nat),
        "-i"@,
        "-"@,
        "-c:v"@,
        o.codec@,
        "-preset"@,
        o.preset@,
        "-crf"@,
        decimal(o.crf as nat),
        "-pix_fmt"@,
        "yuv420p"@,
    ]
}

/// Every option reaches ffmpeg after the flag that names it: the codec
/// right after the first `-c:v`, the preset after `-preset`, the quality
/// after `-crf` and the frame rate after `-r`, whatever the options hold.
pub proof fn lemma_options_follow_their_flags(width: u32, height: u32, o: EncodeOptions)
    ensures
        ({
            let a = encoder_args(width, height, o);
            &&& exists|i: int|
                0 <= i < a.len() - 1 && #[trigger] a[i] == "-c:v"@ && a[i + 1] == o.codec@ && forall|j: int|
                    0 <= j < i ==> #[trigger] a[j] != "-c:v"@
            &&& exists|i: int| 0 <= i < a.len() - 1 && #[trigger] a[i] == "-preset"@ && a[i + 1] == o.preset@
            &&& exists|i: int| 0 <= i < a.len() - 1 && #[trigger] a[i] == "-crf"@ && a[i + 1] == decimal(o.crf as nat)
            &&& exists|i: int| 0 <= i < a.len() - 1 && #[trigger] a[i] == "-r"@ && a[i + 1] == decimal(o.fps as nat)
        }),
{
    reveal_strlit("-hide_banner");
    reveal_strlit("-loglevel");
    reveal_strlit("error");
    reveal_strlit("-y");
    reveal_strlit("-f");
    reveal_strlit("rawvideo");
    reveal_strlit("-pix_fmt");
    reveal_strlit("rgba");
    reveal_strlit("-s");
    reveal_strlit("-r");
    reveal_strlit("-i");
    reveal_strlit("-");
    reveal_strlit("-c:v");
    reveal_strlit("-preset");
    reveal_strlit("-crf");
    reveal_strlit("x");
    let a = encoder_args(width, height, o);
    lemma_decimal_starts_with_a_digit(side(width));
    lemma_decimal_starts_with_a_digit(o.fps as nat);
    let size = decimal(side(width)) + "x"@ + decimal(side(height));
    assert(size[0] == decimal(side(width))[0]);
    assert(size != "-c:v"@);
    assert(decimal(o.fps as nat) != "-c:v"@);
    assert forall|j: int| 0 <= j < 14 implies a[j] != "-c:v"@ by {
        if j == 9 {
            assert(a[j] == size);
        } else if j == 11 {
            assert(a[j] == decimal(o.fps as nat));
        } else {
            assert(a[j].len() != 4 || a[j][1] != 'c');
        }
    }
    assert(a[14] == "-c:v"@ && a[15] == o.codec@);
    assert(a[16] == "-preset"@ && a[17] == o.preset@);
    assert(a[18] == "-crf"@ && a[19] == decimal(o.crf as nat));
    assert(a[10] == "-r"@ && a[11] == decimal(o.fps as nat));
}

fn arg(v: &mut Vec<String>, s: &str)
    ensures
        final(v)@.map_values(|a: String| a@) == old(v)@.map_values(|a: String| a@).push(s@),
{
    v.push(String::from_str(s));
    assert(final(v)@.map_values(|a: String| a@) =~= old(v)@.map_values(|a: String| a@).push(s@));
}

fn arg_string(v: &mut Vec<String>, s: String)
    ensures
        final(v)@.map_values(|a: String| a@) == old(v)@.map_values(|a: String| a@).push(s@),
{
    let ghost sv = s@;
    v.push(s);
    assert(final(v)@.map_values(|a: String| a@) =~= old(v)@.map_values(|a: String| a@).push(sv));
}

/// The encoder's arguments, before the output path.
pub fn ffmpeg_args(width: u32, height: u32, options: &EncodeOptions) -> (args: Vec<String>)
    ensures
        args@.map_values(|a: String| a@) == encoder_args(width, height, *options),
{
    let w: u32 = if width == 0 {
        1
    } else {
        width
    };
    let h: u32 = if height == 0 {
        1
    } else {
        height
    };
    let mut v: Vec<String> = Vec::new();
    arg(&mut v, "-hide_banner");
    arg(&mut v, "-loglevel");
    arg(&mut v, "error");
    arg(&mut v, "-y");
    arg(&mut v, "-f");
    arg(&mut v, "rawvideo");
    arg(&mut v, "-pix_fmt");
    arg(&mut v, "rgba");
    arg(&mut v, "-s");
    let mut size = String::new();
    push_decimal(&mut size, w as u64);
    size.append("x");
    push_decimal(&mut size, h as u64);
    arg_string(&mut v, size);
    arg(&mut v, "-r");
    let mut fps = String::new();
    push_decimal(&mut fps, options.fps as u64);
    arg_string(&mut v, fps);
    arg(&mut v, "-i");
    arg(&mut v, "-");
    arg(&mut v, "-c:v");
    arg(&mut v, options.codec);
    arg(&mut v, "-preset");
    arg(&mut v, options.preset);
    arg(&mut v, "-crf");
    let mut crf = String::new();
    push_decimal(&mut crf, options.crf as u64);
    arg_string(&mut v, crf);
    arg(&mut v, "-pix_fmt");
    arg(&mut v, "yuv420p");
    assert(v@.map_values(|a: String| a@) =~= encoder_args(width, height, *options));
    v
}

} // verus!
