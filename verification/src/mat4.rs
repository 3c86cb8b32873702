//! 4x4 matrices of fixed-point cells, stored column by column.

use crate::fixed::{
    lemma_div_toward_zero, lemma_mul_by_one_or_zero, lemma_product_bounds, magnitude,
    mul_toward_zero, narrow, saturate, wide_div_toward_zero, wide_product, Fixed, SCALE,
};
use vstd::prelude::*;

verus! {

/// A 4x4 matrix. Cell `4 * column + row` of `cells` holds the entry at that column and row.
#[derive(Clone, Copy, Debug, PartialEq, Eq)]
pub struct Mat4 {
    pub cells: [Fixed; 16],
}

impl View for Mat4 {
    type V = Seq<int>;

    /// The sixteen raw values, column by column.
    open spec fn view(&self) -> Seq<int> {
        Seq::new(16, |i: int| self.cells[i]@)
    }
}

/// Whether every cell is a raw value that a [`Fixed`] can hold.
pub open spec fn representable(cells: Seq<int>) -> bool {
    forall|i: int| 0 <= i < cells.len() ==> i64::MIN <= #[trigger] cells[i] <= i64::MAX
}

/// The raw cells of the zero matrix.
pub open spec fn zero_cells() -> Seq<int> {
    Seq::new(16, |i: int| 0int)
}

/// The raw cells of the matrix that scales by `(sx, sy, sz)` and then translates by
/// `(tx, ty, tz)`.
pub open spec fn scale_translation_cells(sx: int, sy: int, sz: int, tx: int, ty: int, tz: int) -> Seq<
    int,
> {
    seq![sx, 0, 0, 0, 0, sy, 0, 0, 0, 0, sz, 0, tx, ty, tz, SCALE as int]
}

/// The raw cells of the identity matrix.
pub open spec fn identity_cells() -> Seq<int> {
    scale_translation_cells(SCALE as int, SCALE as int, SCALE as int, 0, 0, 0)
}

/// Cell `i` of the matrix product `a * b`: the four products along row `i % 4` of `a` and
/// column `i / 4` of `b`, each rounded toward zero, summed and saturated.
pub open spec fn product_cell(a: Seq<int>, b: Seq<int>, i: int) -> int {
    let r = i % 4;
    let c = i / 4;
    saturate(
        mul_toward_zero(a[r], b[4 * c]) + mul_toward_zero(a[4 + r], b[4 * c + 1])
            + mul_toward_zero(a[8 + r], b[4 * c + 2]) + mul_toward_zero(a[12 + r], b[4 * c + 3]),
    )
}

/// The raw cells of the matrix product `a * b`.
pub open spec fn product_cells(a: Seq<int>, b: Seq<int>) -> Seq<int> {
    Seq::new(16, |i: int| product_cell(a, b, i))
}

/// Whether every cell of `a` is within `tolerance` of the same cell of `b`.
pub open spec fn cells_within(a: Seq<int>, b: Seq<int>, tolerance: int) -> bool {
    forall|i: int| 0 <= i < 16 ==> magnitude(#[trigger] a[i] - b[i]) <= tolerance
}

/// One product of two cells, rounded toward zero, as a wide value.
fn cell_product(a: Fixed, b: Fixed) -> (r: i128)
    ensures
        r as int == mul_toward_zero(a@, b@),
        -0x1000_0000_0000_0000_0000_0000_0000 <= r <= 0x1000_0000_0000_0000_0000_0000_0000,
{
    proof {
        lemma_product_bounds(a@, b@);
        lemma_div_toward_zero(a@ * b@, SCALE as int);
    }
    wide_div_toward_zero(wide_product(a.raw, b.raw), SCALE)
}

impl Mat4 {
    /// The view of a matrix is sixteen representable cells.
    pub proof fn lemma_view(&self)
        ensures
            self@.len() == 16,
            representable(self@),
    {
    }

    /// The matrix with the given cells, column by column.
    pub fn from_cols_array(cells: [Fixed; 16]) -> (m: Mat4)
        ensures
            m.cells == cells,
    {
        Mat4 { cells }
    }

    /// The cells, column by column.
    pub fn to_cols_array(&self) -> (cells: [Fixed; 16])
        ensures
            cells == self.cells,
    {
        self.cells
    }

    /// The zero matrix.
    pub fn zero() -> (m: Mat4)
        ensures
            m@ == zero_cells(),
    {
        let z = Fixed { raw: 0 };
        let m = Mat4 { cells: [z, z, z, z, z, z, z, z, z, z, z, z, z, z, z, z] };
        assert(m@ =~= zero_cells());
        m
    }

    /// The identity matrix.
    pub fn identity() -> (m: Mat4)
        ensures
            m@ == identity_cells(),
    {
        let one = Fixed { raw: SCALE };
        let z = Fixed { raw: 0 };
        Mat4::from_scale_translation(one, one, one, z, z, z)
    }

    /// The matrix that scales by `(sx, sy, sz)` and then translates by `(tx, ty, tz)`.
    pub fn from_scale_translation(
        sx: Fixed,
        sy: Fixed,
        sz: Fixed,
        tx: Fixed,
        ty: Fixed,
        tz: Fixed,
    ) -> (m: Mat4)
        ensures
            m@ == scale_translation_cells(sx@, sy@, sz@, tx@, ty@, tz@),
    {
        let one = Fixed { raw: SCALE };
        let z = Fixed { raw: 0 };
        let m = Mat4 { cells: [sx, z, z, z, z, sy, z, z, z, z, sz, z, tx, ty, tz, one] };
        assert(m@ =~= scale_translation_cells(sx@, sy@, sz@, tx@, ty@, tz@));
        m
    }

    /// The matrix that scales by `(sx, sy, sz)`.
    pub fn from_scale(sx: Fixed, sy: Fixed, sz: Fixed) -> (m: Mat4)
        ensures
            m@ == scale_translation_cells(sx@, sy@, sz@, 0, 0, 0),
    {
        let z = Fixed { raw: 0 };
        Mat4::from_scale_translation(sx, sy, sz, z, z, z)
    }

    /// The matrix that translates by `(tx, ty, tz)`.
    pub fn from_translation(tx: Fixed, ty: Fixed, tz: Fixed) -> (m: Mat4)
        ensures
            m@ == scale_translation_cells(SCALE as int, SCALE as int, SCALE as int, tx@, ty@, tz@),
    {
        let one = Fixed { raw: SCALE };
        Mat4::from_scale_translation(one, one, one, tx, ty, tz)
    }

    /// The matrix product `self * rhs`: the transform that applies `rhs` first.
    pub fn mul_mat4(&self, rhs: &Mat4) -> (m: Mat4)
        ensures
            m@ == product_cells(self@, rhs@),
    {
        let z = Fixed { raw: 0 };
        let mut cells: [Fixed; 16] = [z, z, z, z, z, z, z, z, z, z, z, z, z, z, z, z];
        let mut i: usize = 0;
        while i < 16
            invariant
                i <= 16,
                forall|j: int| 0 <= j < i ==> (#[trigger] cells[j])@ == product_cell(self@, rhs@, j),
            decreases 16 - i,
        {
            let r: usize = i % 4;
            let c: usize = i / 4;
            let sum: i128 = cell_product(self.cells[r], rhs.cells[4 * c]) + cell_product(
                self.cells[4 + r],
                rhs.cells[4 * c + 1],
            ) + cell_product(self.cells[8 + r], rhs.cells[4 * c + 2]) + cell_product(
                self.cells[12 + r],
                rhs.cells[4 * c + 3],
            );
            cells[i] = narrow(sum);
            i = i + 1;
        }
        let m = Mat4 { cells };
        assert(m@ =~= product_cells(self@, rhs@));
        m
    }

    /// Whether every cell is within `max_abs_diff` of the same cell of `rhs`.
    pub fn abs_diff_eq(&self, rhs: &Mat4, max_abs_diff: Fixed) -> (r: bool)
        ensures
            r == cells_within(self@, rhs@, max_abs_diff@),
    {
        let mut i: usize = 0;
        while i < 16
            invariant
                i <= 16,
                forall|j: int|
                    0 <= j < i ==> magnitude(#[trigger] self@[j] - rhs@[j]) <= max_abs_diff@,
            decreases 16 - i,
        {
            if !self.cells[i].within(rhs.cells[i], max_abs_diff) {
                assert(magnitude(self@[i as int] - rhs@[i as int]) > max_abs_diff@);
                return false;
            }
            i = i + 1;
        }
        true
    }
}

/// The identity is neutral: the product of a matrix with the identity, on either side, is
/// the matrix itself, cell for cell.
pub proof fn lemma_identity_is_neutral(m: Mat4)
    ensures
        product_cells(identity_cells(), m@) == m@,
        product_cells(m@, identity_cells()) == m@,
{
    let one = identity_cells();
    assert forall|i: int| 0 <= i < 16 implies product_cell(one, m@, i) == m@[i] && product_cell(
        m@,
        one,
        i,
    ) == m@[i] by {
        let r = i % 4;
        let c = i / 4;
        lemma_mul_by_one_or_zero(m@[4 * c]);
        lemma_mul_by_one_or_zero(m@[4 * c + 1]);
        lemma_mul_by_one_or_zero(m@[4 * c + 2]);
        lemma_mul_by_one_or_zero(m@[4 * c + 3]);
        lemma_mul_by_one_or_zero(m@[r]);
        lemma_mul_by_one_or_zero(m@[4 + r]);
        lemma_mul_by_one_or_zero(m@[8 + r]);
        lemma_mul_by_one_or_zero(m@[12 + r]);
        assert(one[r] == if r == 0 { SCALE as int } else { 0 });
        assert(one[4 + r] == if r == 1 { SCALE as int } else { 0 });
        assert(one[8 + r] == if r == 2 { SCALE as int } else { 0 });
        assert(one[12 + r] == if r == 3 { SCALE as int } else { 0 });
        assert(one[4 * c] == if c == 0 { SCALE as int } else { 0 });
        assert(one[4 * c + 1] == if c == 1 { SCALE as int } else { 0 });
        assert(one[4 * c + 2] == if c == 2 { SCALE as int } else { 0 });
        assert(one[4 * c + 3] == if c == 3 { SCALE as int } else { 0 });
        assert(m@[i] == m.cells[i]@);
    }
    assert(product_cells(one, m@) =~= m@);
    assert(product_cells(m@, one) =~= m@);
}

} // verus!
