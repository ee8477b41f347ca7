//! Fixed-point vectors, colors, rectangles and 4x4 matrices used by the
//! camera and the per-draw uniform data.

use vstd::prelude::*;

verus! {

/// Bound on the magnitude of camera matrix entries; keeps every entry of a
/// matrix product representable in an `i64`.
pub const MATRIX_ENTRY_LIMIT: i64 = 1073741824;

/// A three-component fixed-point vector.
#[derive(Clone, Copy, Debug, PartialEq, Eq, Structural)]
pub struct Vector3 {
    pub x: i64,
    pub y: i64,
    pub z: i64,
}

/// An RGBA color, one byte per channel.
#[derive(Clone, Copy, Debug, PartialEq, Eq, Structural)]
pub struct Color {
    pub r: u8,
    pub g: u8,
    pub b: u8,
    pub a: u8,
}

/// An integer viewport rectangle.
#[derive(Clone, Copy, Debug, PartialEq, Eq, Structural)]
pub struct Rect {
    pub x: i32,
    pub y: i32,
    pub width: i32,
    pub height: i32,
}

/// A 4x4 matrix stored row-major as 16 fixed-point entries.
#[derive(Debug)]
pub struct Matrix4 {
    pub entries: Vec<i64>,
}

impl Matrix4 {
    /// The matrix holds exactly 16 entries.
    pub open spec fn wf(self) -> bool {
        self.entries@.len() == 16
    }

    /// Every entry is small enough that products of two such matrices
    /// cannot overflow.
    pub open spec fn bounded(self) -> bool {
        &&& self.wf()
        &&& forall|i: int|
            0 <= i < 16 ==> -MATRIX_ENTRY_LIMIT <= #[trigger] self.entries@[i]
                <= MATRIX_ENTRY_LIMIT
    }

    /// The entry in row `row`, column `col`.
    pub open spec fn at(self, row: int, col: int) -> i64 {
        self.entries@[row * 4 + col]
    }

    /// One entry of the product `self * rhs`, as a mathematical integer.
    pub open spec fn product_entry(self, rhs: Matrix4, row: int, col: int) -> int {
        self.at(row, 0) * rhs.at(0, col) + self.at(row, 1) * rhs.at(1, col) + self.at(
            row,
            2,
        ) * rhs.at(2, col) + self.at(row, 3) * rhs.at(3, col)
    }

    /// Multiplies two bounded matrices; the result holds the exact integer
    /// dot products of rows and columns.
    pub fn multiply(&self, rhs: &Matrix4) -> (r: Matrix4)
        requires
            self.bounded(),
            rhs.bounded(),
        ensures
            r.wf(),
            forall|row: int, col: int|
                0 <= row < 4 && 0 <= col < 4 ==> #[trigger] r.at(row, col)
                    == self.product_entry(*rhs, row, col),
    {
        let mut out: Vec<i64> = Vec::new();
        let mut row: usize = 0;
        while row < 4
            invariant
                self.bounded(),
                rhs.bounded(),
                row <= 4,
                out@.len() == row * 4,
                forall|i: int, j: int|
                    0 <= i < row && 0 <= j < 4 ==> #[trigger] out@[i * 4 + j]
                        == self.product_entry(*rhs, i, j),
            decreases 4 - row,
        {
            let mut col: usize = 0;
            while col < 4
                invariant
                    self.bounded(),
                    rhs.bounded(),
                    row < 4,
                    col <= 4,
                    out@.len() == row * 4 + col,
                    forall|i: int, j: int|
                        0 <= i < row && 0 <= j < 4 ==> #[trigger] out@[i * 4 + j]
                            == self.product_entry(*rhs, i, j),
                    forall|j: int|
                        0 <= j < col ==> #[trigger] out@[row * 4 + j]
                            == self.product_entry(*rhs, row as int, j),
                decreases 4 - col,
            {
                let a0 = self.entries[row * 4];
                let a1 = self.entries[row * 4 + 1];
                let a2 = self.entries[row * 4 + 2];
                let a3 = self.entries[row * 4 + 3];
                let b0 = rhs.entries[col];
                let b1 = rhs.entries[4 + col];
                let b2 = rhs.entries[8 + col];
                let b3 = rhs.entries[12 + col];
                proof {
                    lemma_abs_mul_bound(a0 as int, b0 as int, MATRIX_ENTRY_LIMIT as int);
                    lemma_abs_mul_bound(a1 as int, b1 as int, MATRIX_ENTRY_LIMIT as int);
                    lemma_abs_mul_bound(a2 as int, b2 as int, MATRIX_ENTRY_LIMIT as int);
                    lemma_abs_mul_bound(a3 as int, b3 as int, MATRIX_ENTRY_LIMIT as int);
                }
                let e = a0 * b0 + a1 * b1 + a2 * b2 + a3 * b3;
                out.push(e);
                col = col + 1;
            }
            row = row + 1;
        }
        Matrix4 { entries: out }
    }

    /// The camera's up basis vector: the second column of the rotation part.
    pub fn up(&self) -> (v: Vector3)
        requires
            self.wf(),
        ensures
            v.x == self.at(0, 1),
            v.y == self.at(1, 1),
            v.z == self.at(2, 1),
    {
        Vector3 { x: self.entries[1], y: self.entries[5], z: self.entries[9] }
    }

    /// The camera's side basis vector: the first column of the rotation part.
    pub fn side(&self) -> (v: Vector3)
        requires
            self.wf(),
        ensures
            v.x == self.at(0, 0),
            v.y == self.at(1, 0),
            v.z == self.at(2, 0),
    {
        Vector3 { x: self.entries[0], y: self.entries[4], z: self.entries[8] }
    }

    /// An entry-for-entry copy of the matrix.
    pub fn duplicate(&self) -> (r: Matrix4)
        ensures
            r.entries@ == self.entries@,
    {
        let mut out: Vec<i64> = Vec::new();
        let mut i: usize = 0;
        while i < self.entries.len()
            invariant
                i <= self.entries@.len(),
                out@ == self.entries@.take(i as int),
            decreases self.entries@.len() - i,
        {
            out.push(self.entries[i]);
            i = i + 1;
        }
        proof {
            assert(out@ =~= self.entries@);
        }
        Matrix4 { entries: out }
    }
}

/// `|x| <= m` and `|y| <= m` bound `|x * y|` by `m * m`.
proof fn lemma_abs_mul_bound(x: int, y: int, m: int)
    requires
        0 <= m,
        -m <= x <= m,
        -m <= y <= m,
    ensures
        -(m * m) <= x * y <= m * m,
{
    assert(-(m * m) <= x * y <= m * m) by (nonlinear_arith)
        requires
            0 <= m,
            -m <= x <= m,
            -m <= y <= m,
    ;
}

} // verus!
