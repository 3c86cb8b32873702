//! Layouts: an element's constraint together with its own box.

use crate::constraint::{resolved, Constraint};
use crate::fixed::{Fixed, SCALE};
use crate::mat4::{scale_translation_cells, Mat4};
use vstd::hash_map::StringHashMap;
use vstd::prelude::*;

verus! {

/// The box around an element's geometry: its left and top, and its extent.
#[derive(Clone, Copy, Debug, PartialEq, Eq, Structural)]
pub struct PathBbox {
    pub x: Fixed,
    pub y: Fixed,
    pub width: Fixed,
    pub height: Fixed,
}

/// Why a layout could not be made.
#[derive(Clone, Copy, Debug, PartialEq, Eq, Structural)]
pub enum LayoutError {
    /// The element's identifier has no constraint assigned.
    MissingConstraint,
}

/// The constraint assigned to each element identifier.
pub struct ConstraintMap(pub StringHashMap<Constraint>);

impl View for ConstraintMap {
    type V = Map<Seq<char>, Constraint>;

    open spec fn view(&self) -> Map<Seq<char>, Constraint> {
        self.0@
    }
}

/// An element's constraint and its own box, as a matrix.
#[derive(Clone, Copy, Debug, PartialEq, Eq)]
pub struct Layout {
    pub constraint: Constraint,
    pub bbox: Mat4,
}

/// The raw cells of the matrix that scales the unit square to a box and moves it to the
/// box's corner.
pub open spec fn bbox_cells(bbox: PathBbox) -> Seq<int> {
    scale_translation_cells(bbox.width@, bbox.height@, SCALE as int, bbox.x@, bbox.y@, 0)
}

/// The matrix that scales by a size in whole pixels.
pub fn size_to_mat4(width: u32, height: u32) -> (m: Mat4)
    ensures
        m@ == scale_translation_cells(width * SCALE, height * SCALE, SCALE as int, 0, 0, 0),
{
    Mat4::from_scale(
        Fixed { raw: (width as i64) * SCALE },
        Fixed { raw: (height as i64) * SCALE },
        Fixed { raw: SCALE },
    )
}

/// The matrix that scales the unit square to a box and moves it to the box's corner.
pub fn bbox_to_mat4(bbox: PathBbox) -> (m: Mat4)
    ensures
        m@ == bbox_cells(bbox),
{
    Mat4::from_scale_translation(
        bbox.width,
        bbox.height,
        Fixed { raw: SCALE },
        bbox.x,
        bbox.y,
        Fixed { raw: 0 },
    )
}

impl ConstraintMap {
    /// A map that assigns nothing.
    pub fn new() -> (r: ConstraintMap)
        ensures
            r@ == Map::<Seq<char>, Constraint>::empty(),
    {
        ConstraintMap(StringHashMap::new())
    }

    /// Assigns `constraint` to `id`, in place of what was assigned to it before.
    pub fn insert(&mut self, id: String, constraint: Constraint)
        ensures
            final(self)@ == old(self)@.insert(id@, constraint),
    {
        self.0.insert(id, constraint);
    }

    /// The constraint assigned to `id`, if there is one.
    pub fn lookup(&self, id: &str) -> (r: Option<Constraint>)
        ensures
            r == if self@.contains_key(id@) {
                Some(self@[id@])
            } else {
                None
            },
    {
        match self.0.get(id) {
            Some(constraint) => Some(*constraint),
            None => None,
        }
    }
}

impl Layout {
    /// The transform that places this element inside a parent whose box is `parent_bbox`,
    /// seen through `display`.
    pub fn to_mat4(self, display: Mat4, parent_bbox: Mat4) -> (m: Mat4)
        ensures
            m@ == resolved(self.constraint, display@, self.bbox@, parent_bbox@),
    {
        self.constraint.to_mat4(display, self.bbox, parent_bbox)
    }

    /// The layout of the element `id` with the box `bbox`, under the constraint that
    /// `constraint_map` assigns to it. Fails exactly when it assigns none.
    pub fn new(id: &str, bbox: PathBbox, constraint_map: &ConstraintMap) -> (r: Result<
        Layout,
        LayoutError,
    >)
        ensures
            r is Ok <==> constraint_map@.contains_key(id@),
            r matches Ok(layout) ==> layout.constraint == constraint_map@[id@] && layout.bbox@
                == bbox_cells(bbox),
            r matches Err(e) ==> e == LayoutError::MissingConstraint,
    {
        match constraint_map.lookup(id) {
            Some(constraint) => Ok(Layout { constraint, bbox: bbox_to_mat4(bbox) }),
            None => Err(LayoutError::MissingConstraint),
        }
    }
}

} // verus!
