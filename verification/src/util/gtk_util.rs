//! Helpers for the widgets, as far as they compute.

use vstd::prelude::*;

verus! {

/// The product of two numbers of 32 bits fits 64 bits.
proof fn lemma_product_fits(a: int, b: int)
    by (nonlinear_arith)
    requires
        -0x8000_0000 <= a <= 0x7fff_ffff,
        -0x8000_0000 <= b <= 0x7fff_ffff,
    ensures
        -0x4000_0000_0000_0000 <= a * b <= 0x4000_0000_0000_0000,
{
}

/// Helpers for the widgets.
pub struct GtkUtil;

impl GtkUtil {
    /// Whether an entry whose text has the given length is empty.
    pub fn is_entry_emty(text_length: u16) -> (empty: bool)
        ensures
            empty == (text_length == 0),
    {
        text_length == 0
    }

    /// The size in device pixels of a picture of the given size on a
    /// display of the given scale factor; none where a side does not fit
    /// an `i32`.
    pub fn scaled_size(width: i32, height: i32, scale_factor: i32) -> (size: Option<(i32, i32)>)
        ensures
            match size {
                Some((w, h)) => w == width * scale_factor && h == height * scale_factor,
                None => !(i32::MIN <= width * scale_factor <= i32::MAX) || !(i32::MIN <= height
                    * scale_factor <= i32::MAX),
            },
    {
        proof {
            lemma_product_fits(width as int, scale_factor as int);
            lemma_product_fits(height as int, scale_factor as int);
        }
        let w = width as i64 * scale_factor as i64;
        let h = height as i64 * scale_factor as i64;
        if w < i32::MIN as i64 || w > i32::MAX as i64 || h < i32::MIN as i64 || h > i32::MAX as i64 {
            None
        } else {
            Some((w as i32, h as i32))
        }
    }
}

} // verus!
