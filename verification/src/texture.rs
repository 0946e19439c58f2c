//! Texture formats and pixel-buffer sizing.
use vstd::prelude::*;
use crate::text::{decimal, push_decimal};

verus! {

/// Byte layout of pixel data handed to a texture upload.
#[derive(Clone, Copy, Debug, PartialEq, Eq, Hash, Structural)]
#[non_exhaustive]
pub enum Format {
    /// Four bytes per pixel, red first.
    Rgba8,
    /// Four bytes per pixel, blue first.
    Bgra8,
}

impl Format {
    /// Bytes each pixel takes.
    pub fn bytes_per_pixel(self) -> (n: u32)
        ensures
            n == 4,
    {
        4
    }
}

/// How a texture is sampled when drawn at a size other than its own.
#[derive(Clone, Copy, Debug, PartialEq, Eq, Hash, Structural)]
#[non_exhaustive]
pub enum Filter {
    /// Smooth. The right default for camera frames.
    Linear,
    /// Blocky. The right choice for label maps and for pixel-peeping.
    Nearest,
}

impl Default for Filter {
    fn default() -> (f: Filter)
        ensures
            f == Filter::Linear,
    {
        Filter::Linear
    }
}

/// Why a texture could not be created or updated.
#[derive(Clone, Copy, Debug, PartialEq, Eq, Structural)]
#[non_exhaustive]
pub enum TextureError {
    /// The pixel buffer does not match `width * height * bytes_per_pixel`.
    WrongSize {
        /// Bytes the dimensions and format imply.
        expected: usize,
        /// Bytes actually supplied.
        got: usize,
    },
}

/// The one-line description of a texture error.
pub open spec fn texture_message(e: TextureError) -> Seq<char> {
    match e {
        TextureError::WrongSize { expected, got } => "expected "@ + decimal(expected as nat)
            + " bytes of pixel data, got "@ + decimal(got as nat),
    }
}

impl TextureError {
    /// Describe the error in one line, for display.
    pub fn message(&self) -> (s: String)
        ensures
            s@ == texture_message(*self),
    {
        match self {
            TextureError::WrongSize { expected, got } => {
                let mut s = String::from_str("expected ");
                push_decimal(&mut s, *expected as u64);
                s.append(" bytes of pixel data, got ");
                push_decimal(&mut s, *got as u64);
                s
            },
        }
    }
}

/// Bytes of pixel data a `width` by `height` texture of `fmt` holds.
pub open spec fn texture_bytes(width: u32, height: u32) -> int {
    width as int * height as int * 4
}

/// Whether the pixel data of a `width` by `height` texture can be counted
/// in a `u32`.
pub fn texture_bytes_fit(width: u32, height: u32) -> (b: bool)
    ensures
        b == (texture_bytes(width, height) <= u32::MAX),
{
    let (w, h) = (width as u64, height as u64);
    assert(w * h <= 0xFFFF_FFFE_0000_0001) by (nonlinear_arith)
        requires
            w <= 0xFFFF_FFFF,
            h <= 0xFFFF_FFFF,
    ;
    let n: u64 = w * h;
    n <= 0x3FFF_FFFF
}

/// Bytes of pixel data a `width` by `height` texture of `fmt` holds.
pub fn expected_bytes(width: u32, height: u32, fmt: Format) -> (n: usize)
    requires
        texture_bytes(width, height) <= u32::MAX,
    ensures
        n == texture_bytes(width, height),
{
    let bpp = fmt.bytes_per_pixel();
    assert(width * height <= width * height * 4) by (nonlinear_arith);
    (width * height * bpp) as usize
}

/// Accept `len` bytes of pixel data for a `width` by `height` texture of
/// `fmt`, or say how many it should have been.
pub fn check_pixel_data(width: u32, height: u32, fmt: Format, len: usize) -> (r: Result<
    (),
    TextureError,
>)
    requires
        texture_bytes(width, height) <= u32::MAX,
    ensures
        r is Ok <==> len == texture_bytes(width, height),
        r matches Err(e) ==> e == (TextureError::WrongSize {
            expected: texture_bytes(width, height) as usize,
            got: len,
        }),
{
    let expected = expected_bytes(width, height, fmt);
    if len != expected {
        return Err(TextureError::WrongSize { expected, got: len });
    }
    Ok(())
}

} // verus!
