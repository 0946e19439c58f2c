//! Calibration errors, and the integer checks at the edge of calibration.
use vstd::prelude::*;
use crate::text::{decimal, push_decimal};

verus! {

/// Why a calibration could not be built from the numbers given.
#[derive(Clone, Copy, Debug, PartialEq, Eq, Structural)]
#[non_exhaustive]
pub enum CalibError {
    /// A focal length was zero, negative, or not finite.
    BadFocalLength,
    /// A principal point coordinate was not finite.
    BadPrincipalPoint,
    /// A distortion coefficient was not finite.
    BadDistortion,
    /// The matrix is singular, so it has no inverse and cannot be un-applied.
    Singular,
    /// Building a homography needs at least four non-degenerate correspondences.
    TooFewCorrespondences(usize),
}

/// The one-line description of a calibration error.
pub open spec fn calib_message(e: CalibError) -> Seq<char> {
    match e {
        CalibError::BadFocalLength => "focal length must be finite and positive"@,
        CalibError::BadPrincipalPoint => "principal point must be finite"@,
        CalibError::BadDistortion => "distortion coefficients must be finite"@,
        CalibError::Singular => "matrix is singular"@,
        CalibError::TooFewCorrespondences(n) => "need at least 4 correspondences, got "@ + decimal(
            n as nat,
        ),
    }
}

impl CalibError {
    /// Describe the error in one line, for display.
    pub fn message(&self) -> (s: String)
        ensures
            s@ == calib_message(*self),
    {
        match self {
            CalibError::BadFocalLength => String::from_str("focal length must be finite and positive"),
            CalibError::BadPrincipalPoint => String::from_str("principal point must be finite"),
            CalibError::BadDistortion => String::from_str("distortion coefficients must be finite"),
            CalibError::Singular => String::from_str("matrix is singular"),
            CalibError::TooFewCorrespondences(n) => {
                let mut s = String::from_str("need at least 4 correspondences, got ");
                push_decimal(&mut s, *n as u64);
                s
            },
        }
    }
}

/// The fewest correspondences that determine a homography.
pub const MIN_CORRESPONDENCES: usize = 4;

/// How many correspondences a fit uses: the shorter side wins, and fewer
/// than four is an error that says how many there were.
pub fn correspondence_count(src_len: usize, dst_len: usize) -> (r: Result<usize, CalibError>)
    ensures
        ({
            let n = if src_len < dst_len {
                src_len
            } else {
                dst_len
            };
            &&& n >= 4 ==> r == Ok::<usize, CalibError>(n)
            &&& n < 4 ==> r == Err::<usize, CalibError>(CalibError::TooFewCorrespondences(n))
        }),
{
    let n = if src_len < dst_len {
        src_len
    } else {
        dst_len
    };
    if n < MIN_CORRESPONDENCES {
        return Err(CalibError::TooFewCorrespondences(n));
    }
    Ok(n)
}

/// Metric 3D world frame.
#[derive(Clone, Copy, Debug, PartialEq, Eq, Hash, Structural)]
pub struct World;

/// Metric 3D camera frame: +X right, +Y down, +Z forward along the optical axis.
#[derive(Clone, Copy, Debug, PartialEq, Eq, Hash, Structural)]
pub struct Camera;

/// 2D pixel frame of an image or of the window, origin at the top-left corner.
#[derive(Clone, Copy, Debug, PartialEq, Eq, Hash, Structural)]
pub struct Image;

/// 2D frame of a physical plane, such as a workcell floor viewed by a fixed camera.
#[derive(Clone, Copy, Debug, PartialEq, Eq, Hash, Structural)]
pub struct Plane;

} // verus!
