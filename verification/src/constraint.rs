//! Layout constraints: where an element's box goes relative to its parent's box.

use crate::fixed::{
    div_toward_zero, lemma_div_toward_zero, lemma_mul_by_one_or_zero, lemma_product_bounds,
    mul_toward_zero, narrow, quotient_toward_zero, saturate, wide_div_toward_zero, wide_product,
    wide_quotient, Fixed, SCALE,
};
use vstd::arithmetic::div_mod::lemma_div_is_ordered;
use crate::mat4::{product_cells, scale_translation_cells, Mat4};
use vstd::prelude::*;

verus! {

/// How an element is placed along the horizontal axis.
#[derive(Clone, Copy, Debug, PartialEq, Eq, Structural)]
pub enum XConstraint {
    /// The left edge sits at the parent's left edge plus the offset.
    Left(Fixed),
    /// The right edge sits at the parent's right edge plus the offset.
    Right(Fixed),
    /// The left edge sits `left` inside the parent's left edge and the right edge `right`
    /// inside the parent's right edge; the element is stretched to fit.
    LeftAndRight { left: Fixed, right: Fixed },
    /// The centre sits at the parent's centre plus the offset.
    Center(Fixed),
    /// The element stays where its own box is.
    Scale,
}

/// How an element is placed along the vertical axis.
#[derive(Clone, Copy, Debug, PartialEq, Eq, Structural)]
pub enum YConstraint {
    /// The top edge sits at the parent's top edge plus the offset.
    Top(Fixed),
    /// The bottom edge sits at the parent's bottom edge plus the offset.
    Bottom(Fixed),
    /// The top edge sits `top` inside the parent's top edge and the bottom edge `bottom`
    /// inside the parent's bottom edge; the element is stretched to fit.
    TopAndBottom { top: Fixed, bottom: Fixed },
    /// The centre sits at the parent's centre plus the offset.
    Center(Fixed),
    /// The element stays where its own box is.
    Scale,
}

/// A placement along one axis, whichever axis it is. The start of a box is its left or top
/// edge, the end its right or bottom edge.
#[derive(Clone, Copy, Debug, PartialEq, Eq, Structural)]
pub enum AxisConstraint {
    Start(Fixed),
    End(Fixed),
    StartAndEnd { start: Fixed, end: Fixed },
    Center(Fixed),
    Scale,
}

/// One placement per axis.
#[derive(Clone, Copy, Debug, PartialEq, Eq, Structural)]
pub struct Constraint {
    pub x: XConstraint,
    pub y: YConstraint,
}

/// The factor that stretches a box of size `own_size` to `new_size`, as a raw value
/// rounded toward zero and saturated. A box without extent is not stretched.
pub open spec fn stretch(new_size: int, own_size: int) -> int {
    if own_size == 0 {
        SCALE as int
    } else {
        saturate(quotient_toward_zero(new_size, own_size))
    }
}

/// The scale and translation, as raw values, that place a box along one axis.
///
/// The box starts at `own_start` and is `own_size` long; its parent starts at
/// `parent_start` and is `parent_size` long. A point `p` of the element goes to
/// `scale * p + translation`.
pub open spec fn resolved_axis(
    policy: AxisConstraint,
    own_start: int,
    own_size: int,
    parent_start: int,
    parent_size: int,
) -> (int, int) {
    match policy {
        AxisConstraint::Scale => (SCALE as int, 0),
        AxisConstraint::Start(offset) => (
            SCALE as int,
            saturate(parent_start + offset@ - own_start),
        ),
        AxisConstraint::End(offset) => (
            SCALE as int,
            saturate(parent_start + parent_size + offset@ - own_start - own_size),
        ),
        AxisConstraint::Center(offset) => (
            SCALE as int,
            saturate(parent_start + offset@ - own_start + div_toward_zero(parent_size - own_size, 2)),
        ),
        AxisConstraint::StartAndEnd { start, end } => {
            let scale = stretch(parent_size - start@ - end@, own_size);
            (scale, saturate(parent_start + start@ - mul_toward_zero(scale, own_start)))
        },
    }
}

/// The transform, as raw cells, that places an element whose box is `bbox` inside a parent
/// whose box is `parent_bbox`, seen through `display`.
///
/// A box is a matrix that scales the unit square to the box's size and moves it to the
/// box's corner: its width, height, left and top are cells 0, 5, 12 and 13. Each axis is
/// resolved on its own; `display` is applied after the placement.
pub open spec fn resolved(
    constraint: Constraint,
    display: Seq<int>,
    bbox: Seq<int>,
    parent_bbox: Seq<int>,
) -> Seq<int> {
    let x = resolved_axis(constraint.x.axis(), bbox[12], bbox[0], parent_bbox[12], parent_bbox[0]);
    let y = resolved_axis(constraint.y.axis(), bbox[13], bbox[5], parent_bbox[13], parent_bbox[5]);
    product_cells(display, scale_translation_cells(x.0, y.0, SCALE as int, x.1, y.1, 0))
}

impl XConstraint {
    /// The same placement without its axis.
    pub open spec fn axis(self) -> AxisConstraint {
        match self {
            XConstraint::Left(offset) => AxisConstraint::Start(offset),
            XConstraint::Right(offset) => AxisConstraint::End(offset),
            XConstraint::LeftAndRight { left, right } => AxisConstraint::StartAndEnd {
                start: left,
                end: right,
            },
            XConstraint::Center(offset) => AxisConstraint::Center(offset),
            XConstraint::Scale => AxisConstraint::Scale,
        }
    }

    /// The same placement without its axis.
    pub fn to_axis(self) -> (r: AxisConstraint)
        ensures
            r == self.axis(),
    {
        match self {
            XConstraint::Left(offset) => AxisConstraint::Start(offset),
            XConstraint::Right(offset) => AxisConstraint::End(offset),
            XConstraint::LeftAndRight { left, right } => AxisConstraint::StartAndEnd {
                start: left,
                end: right,
            },
            XConstraint::Center(offset) => AxisConstraint::Center(offset),
            XConstraint::Scale => AxisConstraint::Scale,
        }
    }
}

impl YConstraint {
    /// The same placement without its axis.
    pub open spec fn axis(self) -> AxisConstraint {
        match self {
            YConstraint::Top(offset) => AxisConstraint::Start(offset),
            YConstraint::Bottom(offset) => AxisConstraint::End(offset),
            YConstraint::TopAndBottom { top, bottom } => AxisConstraint::StartAndEnd {
                start: top,
                end: bottom,
            },
            YConstraint::Center(offset) => AxisConstraint::Center(offset),
            YConstraint::Scale => AxisConstraint::Scale,
        }
    }

    /// The same placement without its axis.
    pub fn to_axis(self) -> (r: AxisConstraint)
        ensures
            r == self.axis(),
    {
        match self {
            YConstraint::Top(offset) => AxisConstraint::Start(offset),
            YConstraint::Bottom(offset) => AxisConstraint::End(offset),
            YConstraint::TopAndBottom { top, bottom } => AxisConstraint::StartAndEnd {
                start: top,
                end: bottom,
            },
            YConstraint::Center(offset) => AxisConstraint::Center(offset),
            YConstraint::Scale => AxisConstraint::Scale,
        }
    }
}

impl AxisConstraint {
    /// The scale and translation that place a box along this axis.
    pub fn resolve(
        self,
        own_start: Fixed,
        own_size: Fixed,
        parent_start: Fixed,
        parent_size: Fixed,
    ) -> (r: (Fixed, Fixed))
        ensures
            (r.0@, r.1@) == resolved_axis(
                self,
                own_start@,
                own_size@,
                parent_start@,
                parent_size@,
            ),
    {
        let one = Fixed { raw: SCALE };
        let o: i128 = own_start.raw as i128;
        let w: i128 = own_size.raw as i128;
        let p: i128 = parent_start.raw as i128;
        let big: i128 = parent_size.raw as i128;
        match self {
            AxisConstraint::Scale => (one, Fixed { raw: 0 }),
            AxisConstraint::Start(offset) => (one, narrow(p + offset.raw as i128 - o)),
            AxisConstraint::End(offset) => (one, narrow(p + big + offset.raw as i128 - o - w)),
            AxisConstraint::Center(offset) => (
                one,
                narrow(p + offset.raw as i128 - o + wide_div_toward_zero(big - w, 2)),
            ),
            AxisConstraint::StartAndEnd { start, end } => {
                let new_size: i128 = big - start.raw as i128 - end.raw as i128;
                let scale = if own_size.raw == 0 {
                    one
                } else {
                    narrow(wide_quotient(new_size, own_size.raw))
                };
                proof {
                    lemma_product_bounds(scale@, own_start@);
                    lemma_div_toward_zero(scale@ * own_start@, SCALE as int);
                    lemma_div_toward_zero(parent_size@ - own_size@, 2);
                }
                let moved: i128 = wide_div_toward_zero(wide_product(scale.raw, own_start.raw), SCALE);
                (scale, narrow(p + start.raw as i128 - moved))
            },
        }
    }
}

impl Constraint {
    /// The transform that places an element whose box is `bbox` inside a parent whose box is
    /// `parent_bbox`, seen through `display`.
    ///
    /// The result depends on the four arguments alone.
    pub fn to_mat4(self, display: Mat4, bbox: Mat4, parent_bbox: Mat4) -> (m: Mat4)
        ensures
            m@ == resolved(self, display@, bbox@, parent_bbox@),
    {
        let x = self.x.to_axis().resolve(
            bbox.cells[12],
            bbox.cells[0],
            parent_bbox.cells[12],
            parent_bbox.cells[0],
        );
        let y = self.y.to_axis().resolve(
            bbox.cells[13],
            bbox.cells[5],
            parent_bbox.cells[13],
            parent_bbox.cells[5],
        );
        let placement = Mat4::from_scale_translation(
            x.0,
            y.0,
            Fixed { raw: SCALE },
            x.1,
            y.1,
            Fixed { raw: 0 },
        );
        display.mul_mat4(&placement)
    }
}

/// Where a placement along one axis, given as (scale, translation), puts a point of the
/// element: the point times the scale, rounded toward zero, plus the translation.
pub open spec fn placed(placement: (int, int), point: int) -> int {
    mul_toward_zero(placement.0, point) + placement.1
}

/// A constraint on the start puts the element's start at the parent's start plus the
/// offset and keeps the element's size, wherever that place is representable.
pub proof fn lemma_start_anchors_the_start(
    offset: Fixed,
    own_start: int,
    own_size: int,
    parent_start: int,
    parent_size: int,
)
    requires
        i64::MIN <= parent_start + offset@ - own_start <= i64::MAX,
    ensures
        ({
            let placement = resolved_axis(
                AxisConstraint::Start(offset),
                own_start,
                own_size,
                parent_start,
                parent_size,
            );
            &&& placed(placement, own_start) == parent_start + offset@
            &&& placed(placement, own_start + own_size) - placed(placement, own_start) == own_size
        }),
{
    lemma_mul_by_one_or_zero(own_start);
    lemma_mul_by_one_or_zero(own_start + own_size);
}

/// A constraint on the end puts the element's end at the parent's end plus the offset and
/// keeps the element's size, wherever that place is representable.
pub proof fn lemma_end_anchors_the_end(
    offset: Fixed,
    own_start: int,
    own_size: int,
    parent_start: int,
    parent_size: int,
)
    requires
        i64::MIN <= parent_start + parent_size + offset@ - own_start - own_size <= i64::MAX,
    ensures
        ({
            let placement = resolved_axis(
                AxisConstraint::End(offset),
                own_start,
                own_size,
                parent_start,
                parent_size,
            );
            &&& placed(placement, own_start + own_size) == parent_start + parent_size + offset@
            &&& placed(placement, own_start + own_size) - placed(placement, own_start) == own_size
        }),
{
    lemma_mul_by_one_or_zero(own_start);
    lemma_mul_by_one_or_zero(own_start + own_size);
}

/// A constraint on the centre puts the element's centre at the parent's centre plus the
/// offset, to within half a raw unit, and keeps the element's size, wherever that place is
/// representable: the element's two ends add up to twice that centre, give or take one.
pub proof fn lemma_center_anchors_the_centre(
    offset: Fixed,
    own_start: int,
    own_size: int,
    parent_start: int,
    parent_size: int,
)
    requires
        i64::MIN <= parent_start + offset@ - own_start + div_toward_zero(
            parent_size - own_size,
            2,
        ) <= i64::MAX,
    ensures
        ({
            let placement = resolved_axis(
                AxisConstraint::Center(offset),
                own_start,
                own_size,
                parent_start,
                parent_size,
            );
            let ends = placed(placement, own_start) + placed(placement, own_start + own_size);
            &&& -1 <= ends - (2 * parent_start + parent_size + 2 * offset@) <= 1
            &&& placed(placement, own_start + own_size) - placed(placement, own_start) == own_size
        }),
{
    lemma_mul_by_one_or_zero(own_start);
    lemma_mul_by_one_or_zero(own_start + own_size);
}

/// A constraint on both ends puts the element's start at the inset from the parent's start
/// and stretches the element to the length between the insets, short of it by less than
/// one raw unit for every whole unit of the element's own size, wherever the scale and the
/// place are representable.
pub proof fn lemma_start_and_end_stretch(
    start: Fixed,
    end: Fixed,
    own_start: int,
    own_size: int,
    parent_start: int,
    parent_size: int,
)
    requires
        own_size > 0,
        parent_size - start@ - end@ >= 0,
        stretch(parent_size - start@ - end@, own_size) == quotient_toward_zero(
            parent_size - start@ - end@,
            own_size,
        ),
        i64::MIN <= parent_start + start@ - mul_toward_zero(
            stretch(parent_size - start@ - end@, own_size),
            own_start,
        ) <= i64::MAX,
    ensures
        ({
            let placement = resolved_axis(
                AxisConstraint::StartAndEnd { start, end },
                own_start,
                own_size,
                parent_start,
                parent_size,
            );
            let between = parent_size - start@ - end@;
            &&& placed(placement, own_start) == parent_start + start@
            &&& between - own_size / (SCALE as int) - 1 <= mul_toward_zero(placement.0, own_size)
                <= between
        }),
{
    let s = SCALE as int;
    let between = parent_size - start@ - end@;
    let scale = stretch(between, own_size);
    assert(between * s >= 0) by (nonlinear_arith)
        requires
            between >= 0,
            s > 0,
    ;
    lemma_div_toward_zero(between * s, own_size);
    assert(0 <= scale * own_size <= between * s < scale * own_size + own_size);
    lemma_div_toward_zero(scale * own_size, s);
    lemma_div_is_ordered(scale * own_size, between * s, s);
    assert((between * s) / s == between) by (nonlinear_arith)
        requires
            s > 0,
    ;
    lemma_div_is_ordered(between * s - own_size, scale * own_size, s);
    assert((between * s - own_size) / s >= between - own_size / s - 1) by (nonlinear_arith)
        requires
            s > 0,
            own_size > 0,
    ;
}

} // verus!
