//! The display transform: from the coordinates of a drawing to those of the window.

use crate::fixed::{narrow, quotient_toward_zero, saturate, wide_quotient, Fixed, SCALE};
use crate::mat4::{scale_translation_cells, Mat4};
use crate::vec2::Vec2;
use vstd::prelude::*;

verus! {

/// The length, in pixels, that the longer side of a drawing is shown at.
pub const FITTED_LENGTH: i64 = 1200;

/// The longer side of an extent, as a raw value.
pub open spec fn longer_side(extent: (int, int)) -> int {
    if extent.0 >= extent.1 {
        extent.0
    } else {
        extent.1
    }
}

/// The factor that brings the longer side of a drawing to the fitted length, as a raw
/// value.
pub open spec fn fitting_ratio(extent: (int, int)) -> int {
    saturate(quotient_toward_zero(FITTED_LENGTH * SCALE, longer_side(extent)))
}

/// The raw cells of the scale that fits a drawing of `extent` into a window of `width` by
/// `height` pixels whose coordinates run from -1 to 1, upward.
pub open spec fn scale_cells(width: int, height: int, extent: (int, int)) -> Seq<int> {
    let ratio = fitting_ratio(extent);
    scale_translation_cells(
        saturate(quotient_toward_zero(2 * ratio, width * SCALE)),
        saturate(quotient_toward_zero(-2 * ratio, height * SCALE)),
        SCALE as int,
        0,
        0,
        0,
    )
}

/// The scale that fits a drawing of extent `svg_scale` into a window of `width` by `height`
/// pixels: twice the fitting ratio over the width, and over the height with the vertical
/// axis turned upward.
///
/// `None` exactly when the window or the drawing has no extent to divide by.
pub fn get_scale(width: u32, height: u32, svg_scale: Vec2) -> (r: Option<Mat4>)
    ensures
        r is None <==> width == 0 || height == 0 || longer_side(svg_scale@) == 0,
        r matches Some(m) ==> m@ == scale_cells(width as int, height as int, svg_scale@),
{
    let longest = if svg_scale.x.raw >= svg_scale.y.raw {
        svg_scale.x
    } else {
        svg_scale.y
    };
    if width == 0 || height == 0 || longest.raw == 0 {
        return None;
    }
    assert(FITTED_LENGTH * SCALE == 20132659200) by (nonlinear_arith)
        requires
            FITTED_LENGTH == 1200,
            SCALE == 16777216,
    ;
    let ratio = narrow(wide_quotient(20132659200, longest.raw));
    let twice: i128 = 2 * (ratio.raw as i128);
    let x = narrow(wide_quotient(twice, (width as i64) * SCALE));
    let y = narrow(wide_quotient(-twice, (height as i64) * SCALE));
    Some(Mat4::from_scale(x, y, Fixed { raw: SCALE }))
}

} // verus!
