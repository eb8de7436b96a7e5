//! The pixel buffer that a frame is drawn into.

use vstd::prelude::*;
use crate::vector::Vect_;
use crate::vector::triple_zero;

verus! {

/// The number of pixels of a `width` by `height` frame.
pub fn pixel_count(width: u32, height: u32) -> (n: u64)
    ensures
        n == width * height,
{
    assert(width * height <= 0xffff_ffff * 0xffff_ffff) by (nonlinear_arith)
        requires
            0 <= width <= 0xffff_ffff,
            0 <= height <= 0xffff_ffff,
    ;
    let w: u64 = width as u64;
    let h: u64 = height as u64;
    w * h
}

/// A buffer of `width * height` pixels, each the zero vector, in row order.
pub fn blank_image(width: u32, height: u32) -> (image: Vec<Vect_>)
    requires
        width * height <= usize::MAX,
    ensures
        image@.len() == width * height,
        forall|i: int| 0 <= i < image@.len() ==> (#[trigger] image@[i])@ == triple_zero(),
{
    let total: u64 = pixel_count(width, height);
    let mut image: Vec<Vect_> = Vec::new();
    let mut done: u64 = 0;
    while done < total
        invariant
            done <= total,
            image@.len() == done,
            forall|i: int| 0 <= i < image@.len() ==> (#[trigger] image@[i])@ == triple_zero(),
        decreases total - done,
    {
        image.push(Vect_::new());
        done = done + 1;
    }
    image
}

} // verus!
