//! Checks on the shape of arrays crossing a language boundary, so a wrong
//! layout fails loudly at the boundary rather than as a subtly wrong plot.
use vstd::prelude::*;

verus! {

/// Whether an array of this shape is `N` rows of `width` elements.
pub fn has_row_width(shape: &[usize], width: usize) -> (b: bool)
    ensures
        b == (shape@.len() >= 2 && shape@[1] == width),
{
    shape.len() >= 2 && shape[1] == width
}

/// Whether an array of this shape is an `n` by `n` matrix.
pub fn is_square(shape: &[usize], n: usize) -> (b: bool)
    ensures
        b == (shape@ == seq![n, n]),
{
    let b = shape.len() == 2 && shape[0] == n && shape[1] == n;
    proof {
        if b {
            assert(shape@ =~= seq![n, n]);
        }
    }
    b
}

/// Whether an array of this shape is a stack of 4 by 4 matrices.
pub fn is_transform_stack(shape: &[usize]) -> (b: bool)
    ensures
        b == (shape@.len() >= 3 && shape@[1] == 4 && shape@[2] == 4),
{
    shape.len() >= 3 && shape[1] == 4 && shape[2] == 4
}

} // verus!
