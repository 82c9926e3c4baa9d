//! Rectangular matrices of scalars, with the square-matrix algebra the
//! renderer needs: multiply, transpose, determinant by cofactor expansion,
//! and inverse via the adjugate.

use crate::scalar::{lemma_rmul_bound, rmul, sabs, Scalar, SCALE};
use crate::tuple::{in_range, Tuple, TupleView};
use crate::MathError;
use vstd::prelude::*;

verus! {

/// Absolute tolerance for matrix comparison: 0.001, looser than the tuple
/// tolerance because inverses accumulate more rounding.
pub const MATRIX_EPS: i64 = 1_000;

/// Entries handed to the determinant family must stay below this raw bound
/// (the value 500) so that a 4-by-4 cofactor expansion fits the machine.
pub const MAT_LIMIT: i64 = 500_000_000;

/// Entries handed to `mul` and `mul_tuple` must stay below this raw bound
/// (the value 1000).
pub const MAT_MUL_LIMIT: i64 = 1_000_000_000;

/// Rows a matrix product sums over are capped at this length so that the
/// running sums fit the machine.
pub const MAT_DIM_LIMIT: usize = 1_000;

/// The raw components of a sequence of scalars.
pub open spec fn raw_seq(v: Seq<Scalar>) -> Seq<int> {
    Seq::new(v.len(), |j: int| v[j]@)
}

/// `g` is a grid of `height` rows, each of length `width`.
pub open spec fn is_grid(g: Seq<Seq<int>>, width: int, height: int) -> bool {
    &&& g.len() == height
    &&& forall|i: int| 0 <= i < g.len() ==> (#[trigger] g[i]).len() == width
}

/// Every entry of the grid is at most `bound` in magnitude.
pub open spec fn entries_in_range(g: Seq<Seq<int>>, bound: int) -> bool {
    forall|i: int, j: int|
        0 <= i < g.len() && 0 <= j < g[i].len() ==> sabs(#[trigger] g[i][j]) <= bound
}

/// Every element of the sequence is at most `bound` in magnitude.
pub open spec fn seq_in_range(s: Seq<int>, bound: int) -> bool {
    forall|i: int| 0 <= i < s.len() ==> sabs(#[trigger] s[i]) <= bound
}

/// The rounded dot product of two equally long sequences of raw values.
pub open spec fn seq_dot(a: Seq<int>, b: Seq<int>) -> int
    decreases a.len(),
{
    if a.len() == 0 {
        0
    } else {
        seq_dot(a.drop_last(), b.drop_last()) + rmul(a.last(), b.last())
    }
}

/// Column `j` of the grid.
pub open spec fn spec_col(g: Seq<Seq<int>>, j: int) -> Seq<int> {
    Seq::new(g.len(), |i: int| g[i][j])
}

/// The transpose of a grid of the given width.
pub open spec fn spec_transpose(g: Seq<Seq<int>>, width: int) -> Seq<Seq<int>> {
    Seq::new(width as nat, |i: int| spec_col(g, i))
}

/// The grid with row `row` and column `col` removed.
pub open spec fn spec_submatrix(g: Seq<Seq<int>>, row: int, col: int) -> Seq<Seq<int>> {
    Seq::new(
        (g.len() - 1) as nat,
        |i: int|
            {
                let si = if i < row {
                    i
                } else {
                    i + 1
                };
                Seq::new(
                    (g[si].len() - 1) as nat,
                    |j: int|
                        if j < col {
                            g[si][j]
                        } else {
                            g[si][j + 1]
                        },
                )
            },
    )
}

/// Laplace expansion along the first row, summed over the first `j`
/// columns.
pub open spec fn det_row_sum(g: Seq<Seq<int>>, j: int) -> int
    decreases g.len(), 2int, j,
{
    if j <= 0 {
        0
    } else {
        det_row_sum(g, j - 1) + rmul(g[0][j - 1], spec_cof(g, 0, j - 1))
    }
}

/// The determinant: `ad - bc` for 2-by-2, else the Laplace expansion along
/// the first row. Meaningful for square grids of size at least two.
pub open spec fn spec_det(g: Seq<Seq<int>>) -> int
    decreases g.len(), 3int, 0int,
{
    if g.len() == 2 {
        rmul(g[0][0], g[1][1]) - rmul(g[0][1], g[1][0])
    } else {
        det_row_sum(g, g[0].len() as int)
    }
}

/// The minor: the determinant of the submatrix at `(row, col)`.
pub open spec fn spec_minor(g: Seq<Seq<int>>, row: int, col: int) -> int
    decreases g.len(), 0int, 0int,
{
    if g.len() < 1 {
        0
    } else {
        spec_det(spec_submatrix(g, row, col))
    }
}

/// The cofactor: the minor, negated where `row + col` is odd.
pub open spec fn spec_cof(g: Seq<Seq<int>>, row: int, col: int) -> int
    decreases g.len(), 1int, 0int,
{
    if (row + col) % 2 == 1 {
        -spec_minor(g, row, col)
    } else {
        spec_minor(g, row, col)
    }
}

/// A rectangular grid of scalars with explicit width and height.
#[derive(Clone, Debug)]
pub struct Matrix {
    pub width: usize,
    pub height: usize,
    pub vector: Vec<Vec<Scalar>>,
}

impl View for Matrix {
    type V = Seq<Seq<int>>;

    open spec fn view(&self) -> Seq<Seq<int>> {
        Seq::new(self.vector@.len(), |i: int| raw_seq(self.vector@[i]@))
    }
}

/// Agreement in shape, and of every entry within the matrix tolerance.
pub open spec fn spec_mat_approx(a: &Matrix, b: &Matrix) -> bool {
    &&& a.width == b.width
    &&& a.height == b.height
    &&& forall|i: int, j: int|
        0 <= i < a@.len() && 0 <= j < a@[i].len() ==> sabs(#[trigger] a@[i][j] - b@[i][j])
            <= MATRIX_EPS
}

/// Relates a well-formed matrix's view to its stored rows, so that the
/// stored vectors can be indexed wherever the view can.
proof fn lemma_view_index(m: &Matrix)
    requires
        m.wf(),
    ensures
        m.vector@.len() == m.height,
        forall|i: int| 0 <= i < m.height ==> (#[trigger] m.vector@[i])@.len() == m.width,
        forall|i: int, j: int|
            0 <= i < m.height && 0 <= j < m.width ==> m@[i][j] == (#[trigger] m.vector@[i]@[j])@,
{
    assert forall|i: int| 0 <= i < m.height implies (#[trigger] m.vector@[i])@.len()
        == m.width by {
        assert(m@[i].len() == m.width);
        assert(m@[i] == raw_seq(m.vector@[i]@));
    }
    assert forall|i: int, j: int| 0 <= i < m.height && 0 <= j < m.width implies m@[i][j] == (
    #[trigger] m.vector@[i]@[j])@ by {
        assert(m@[i] == raw_seq(m.vector@[i]@));
        assert(raw_seq(m.vector@[i]@)[j] == m.vector@[i]@[j]@);
    }
}

impl Matrix {
    /// The stored grid matches the stated width and height.
    pub open spec fn wf(&self) -> bool {
        is_grid(self@, self.width as int, self.height as int)
    }

    /// The all-zero matrix of the given shape.
    pub fn zero(width: usize, height: usize) -> (r: Matrix)
        ensures
            r.wf(),
            r.width == width,
            r.height == height,
            forall|i: int, j: int| 0 <= i < height && 0 <= j < width ==> r@[i][j] == 0,
    {
        let mut grid: Vec<Vec<Scalar>> = Vec::new();
        let mut i: usize = 0;
        while i < height
            invariant
                i <= height,
                grid@.len() == i,
                forall|a: int|
                    0 <= a < i ==> (#[trigger] grid@[a])@.len() == width && forall|b: int|
                        0 <= b < width ==> grid@[a]@[b]@ == 0,
            decreases height - i,
        {
            let mut row: Vec<Scalar> = Vec::new();
            let mut j: usize = 0;
            while j < width
                invariant
                    j <= width,
                    row@.len() == j,
                    forall|b: int| 0 <= b < j ==> (#[trigger] row@[b])@ == 0,
                decreases width - j,
            {
                row.push(Scalar { raw: 0 });
                j = j + 1;
            }
            grid.push(row);
            i = i + 1;
        }
        Matrix { width, height, vector: grid }
    }

    /// A matrix holding a copy of the given rows, which must be nonempty
    /// and all of one length.
    pub fn set(v: &Vec<Vec<Scalar>>) -> (r: Matrix)
        requires
            v@.len() >= 1,
            forall|i: int| 0 <= i < v@.len() ==> (#[trigger] v@[i])@.len() == v@[0]@.len(),
        ensures
            r.wf(),
            r.height == v@.len(),
            r.width == v@[0]@.len(),
            forall|i: int, j: int|
                0 <= i < v@.len() && 0 <= j < v@[i]@.len() ==> r@[i][j] == v@[i]@[j]@,
    {
        let mut grid: Vec<Vec<Scalar>> = Vec::new();
        let mut i: usize = 0;
        while i < v.len()
            invariant
                i <= v@.len(),
                grid@.len() == i,
                forall|a: int| 0 <= a < i ==> (#[trigger] grid@[a])@ == v@[a]@,
            decreases v@.len() - i,
        {
            let mut row: Vec<Scalar> = Vec::new();
            let mut j: usize = 0;
            while j < v[i].len()
                invariant
                    0 <= i < v@.len(),
                    j <= v@[i as int]@.len(),
                    row@.len() == j,
                    forall|b: int| 0 <= b < j ==> row@[b] == v@[i as int]@[b],
                decreases v@[i as int]@.len() - j,
            {
                row.push(v[i][j]);
                j = j + 1;
            }
            proof {
                assert(row@ =~= v@[i as int]@);
            }
            grid.push(row);
            i = i + 1;
        }
        let width = v[0].len();
        let height = v.len();
        Matrix { width, height, vector: grid }
    }

    /// The identity pattern on a grid of the given shape: one on the
    /// diagonal, zero elsewhere.
    pub fn identity(width: usize, height: usize) -> (r: Matrix)
        ensures
            r.wf(),
            r.width == width,
            r.height == height,
            forall|i: int, j: int|
                0 <= i < height && 0 <= j < width ==> r@[i][j] == (if i == j {
                    SCALE as int
                } else {
                    0
                }),
    {
        let mut grid: Vec<Vec<Scalar>> = Vec::new();
        let mut i: usize = 0;
        while i < height
            invariant
                i <= height,
                grid@.len() == i,
                forall|a: int|
                    0 <= a < i ==> (#[trigger] grid@[a])@.len() == width && forall|b: int|
                        0 <= b < width ==> grid@[a]@[b]@ == (if a == b {
                            SCALE as int
                        } else {
                            0
                        }),
            decreases height - i,
        {
            let mut row: Vec<Scalar> = Vec::new();
            let mut j: usize = 0;
            while j < width
                invariant
                    j <= width,
                    row@.len() == j,
                    forall|b: int|
                        0 <= b < j ==> (#[trigger] row@[b])@ == (if i == b {
                            SCALE as int
                        } else {
                            0
                        }),
                decreases width - j,
            {
                if i == j {
                    row.push(Scalar { raw: SCALE });
                } else {
                    row.push(Scalar { raw: 0 });
                }
                j = j + 1;
            }
            grid.push(row);
            i = i + 1;
        }
        Matrix { width, height, vector: grid }
    }

    /// The entry at row `y`, column `x`.
    pub fn get(&self, y: usize, x: usize) -> (r: Scalar)
        requires
            self.wf(),
            y < self.height,
            x < self.width,
        ensures
            r@ == self@[y as int][x as int],
    {
        proof {
            lemma_view_index(self);
        }
        self.vector[y][x]
    }

    /// Replaces the entry at row `y`, column `x`.
    pub fn set_element(&mut self, y: usize, x: usize, value: Scalar)
        requires
            old(self).wf(),
            y < old(self).height,
            x < old(self).width,
        ensures
            final(self).wf(),
            final(self).width == old(self).width,
            final(self).height == old(self).height,
            final(self)@ == old(self)@.update(
                y as int,
                old(self)@[y as int].update(x as int, value@),
            ),
    {
        proof {
            lemma_view_index(self);
        }
        self.vector[y][x] = value;
        proof {
            assert(self@ =~~= old(self)@.update(
                y as int,
                old(self)@[y as int].update(x as int, value@),
            ));
            assert forall|i: int| 0 <= i < self@.len() implies (#[trigger] self@[i]).len()
                == self.width by {
                if i != y {
                    assert(self@[i] == old(self)@[i]);
                }
            }
        }
    }

    /// A copy of row `index`.
    pub fn get_row(&self, index: usize) -> (r: Vec<Scalar>)
        requires
            self.wf(),
            index < self.height,
        ensures
            raw_seq(r@) == self@[index as int],
            r@.len() == self.width,
    {
        let source: &Vec<Scalar> = &self.vector[index];
        let mut row: Vec<Scalar> = Vec::new();
        let mut j: usize = 0;
        while j < source.len()
            invariant
                j <= source@.len(),
                row@.len() == j,
                forall|b: int| 0 <= b < j ==> row@[b] == source@[b],
            decreases source@.len() - j,
        {
            row.push(source[j]);
            j = j + 1;
        }
        proof {
            assert(raw_seq(row@) =~= self@[index as int]);
        }
        row
    }

    /// A copy of column `index`.
    pub fn get_col(&self, index: usize) -> (r: Vec<Scalar>)
        requires
            self.wf(),
            index < self.width,
        ensures
            raw_seq(r@) == spec_col(self@, index as int),
            r@.len() == self.height,
    {
        let mut col: Vec<Scalar> = Vec::new();
        let mut i: usize = 0;
        while i < self.height
            invariant
                self.wf(),
                index < self.width,
                i <= self.height,
                col@.len() == i,
                forall|a: int| 0 <= a < i ==> (#[trigger] col@[a])@ == self@[a][index as int],
            decreases self.height - i,
        {
            proof {
                lemma_view_index(self);
            }
            col.push(self.vector[i][index]);
            i = i + 1;
        }
        proof {
            assert(raw_seq(col@) =~= spec_col(self@, index as int));
        }
        col
    }

    /// The matrix with rows and columns swapped. Works on any shape.
    pub fn transpose(&self) -> (r: Matrix)
        requires
            self.wf(),
        ensures
            r.wf(),
            r.width == self.height,
            r.height == self.width,
            r@ == spec_transpose(self@, self.width as int),
    {
        let mut grid: Vec<Vec<Scalar>> = Vec::new();
        let mut i: usize = 0;
        while i < self.width
            invariant
                self.wf(),
                i <= self.width,
                grid@.len() == i,
                forall|a: int|
                    0 <= a < i ==> raw_seq((#[trigger] grid@[a])@) == spec_col(self@, a),
            decreases self.width - i,
        {
            let column = self.get_col(i);
            grid.push(column);
            i = i + 1;
        }
        let r = Matrix { width: self.height, height: self.width, vector: grid };
        proof {
            assert(r@ =~~= spec_transpose(self@, self.width as int));
        }
        r
    }

    /// Agreement in shape, and of every entry within the matrix tolerance
    /// of 0.001.
    pub fn approx_eq(&self, other: &Matrix) -> (r: bool)
        requires
            self.wf(),
            other.wf(),
        ensures
            r == spec_mat_approx(self, other),
    {
        if self.height != other.height || self.width != other.width {
            return false;
        }
        let eps = Scalar { raw: MATRIX_EPS };
        let mut i: usize = 0;
        while i < self.height
            invariant
                self.wf(),
                other.wf(),
                self.width == other.width,
                self.height == other.height,
                eps@ == MATRIX_EPS,
                i <= self.height,
                forall|a: int, b: int|
                    0 <= a < i && 0 <= b < self@[a].len() ==> sabs(
                        #[trigger] self@[a][b] - other@[a][b],
                    ) <= MATRIX_EPS,
            decreases self.height - i,
        {
            let mut j: usize = 0;
            while j < self.width
                invariant
                    self.wf(),
                    other.wf(),
                    self.width == other.width,
                    self.height == other.height,
                    eps@ == MATRIX_EPS,
                    i < self.height,
                    j <= self.width,
                    forall|b: int|
                        0 <= b < j ==> sabs(self@[i as int][b] - #[trigger] other@[i as int][b])
                            <= MATRIX_EPS,
                decreases self.width - j,
            {
                proof {
                    lemma_view_index(self);
                    lemma_view_index(other);
                    assert(self@[i as int][j as int] == self.vector@[i as int]@[j as int]@);
                    assert(other@[i as int][j as int] == other.vector@[i as int]@[j as int]@);
                }
                if !self.vector[i][j].approx_eq(other.vector[i][j], eps) {
                    proof {
                        assert(sabs(self@[i as int][j as int] - other@[i as int][j as int])
                            > MATRIX_EPS);
                    }
                    return false;
                }
                proof {
                    assert(sabs(self@[i as int][j as int] - other@[i as int][j as int])
                        <= MATRIX_EPS);
                }
                j = j + 1;
            }
            i = i + 1;
        }
        true
    }
}

/// The rounded dot product of two scalar vectors of one length.
pub fn calculate_element_sum(a: &Vec<Scalar>, b: &Vec<Scalar>) -> (r: Scalar)
    requires
        a@.len() == b@.len(),
        a@.len() <= MAT_DIM_LIMIT,
        seq_in_range(raw_seq(a@), MAT_MUL_LIMIT as int),
        seq_in_range(raw_seq(b@), MAT_MUL_LIMIT as int),
    ensures
        r@ == seq_dot(raw_seq(a@), raw_seq(b@)),
        sabs(r@) <= a@.len() * 1_000_000_000_001,
{
    let mut sum = Scalar { raw: 0 };
    let mut i: usize = 0;
    while i < a.len()
        invariant
            a@.len() == b@.len(),
            a@.len() <= MAT_DIM_LIMIT,
            seq_in_range(raw_seq(a@), MAT_MUL_LIMIT as int),
            seq_in_range(raw_seq(b@), MAT_MUL_LIMIT as int),
            i <= a@.len(),
            sum@ == seq_dot(raw_seq(a@).take(i as int), raw_seq(b@).take(i as int)),
            sabs(sum@) <= i * 1_000_000_000_001,
        decreases a@.len() - i,
    {
        proof {
            assert(raw_seq(a@)[i as int] == a@[i as int]@);
            assert(raw_seq(b@)[i as int] == b@[i as int]@);
            lemma_rmul_bound(a@[i as int]@, b@[i as int]@, MAT_MUL_LIMIT as int,
                MAT_MUL_LIMIT as int);
        }
        let term = a[i].mul(b[i]);
        sum = sum.add(term);
        proof {
            let ra = raw_seq(a@);
            let rb = raw_seq(b@);
            assert(ra.take(i + 1).drop_last() =~= ra.take(i as int));
            assert(rb.take(i + 1).drop_last() =~= rb.take(i as int));
            assert(ra.take(i + 1).last() == ra[i as int]);
            assert(rb.take(i + 1).last() == rb[i as int]);
        }
        i = i + 1;
    }
    proof {
        assert(raw_seq(a@).take(a@.len() as int) =~= raw_seq(a@));
        assert(raw_seq(b@).take(b@.len() as int) =~= raw_seq(b@));
    }
    sum
}

impl Matrix {
    /// The matrix product: entry `(i, j)` is the dot of row `i` with
    /// column `j`. Shapes that do not chain are the one error.
    pub fn mul(&self, rhs: &Matrix) -> (r: Result<Matrix, MathError>)
        requires
            self.wf(),
            rhs.wf(),
            self.width <= MAT_DIM_LIMIT,
            entries_in_range(self@, MAT_MUL_LIMIT as int),
            entries_in_range(rhs@, MAT_MUL_LIMIT as int),
        ensures
            self.width != rhs.height <==> r == Result::<Matrix, MathError>::Err(
                MathError::DimensionMismatch,
            ),
            match r {
                Ok(p) => {
                    &&& p.wf()
                    &&& p.height == self.height
                    &&& p.width == rhs.width
                    &&& forall|i: int, j: int|
                        0 <= i < self.height && 0 <= j < rhs.width ==> #[trigger] p@[i][j]
                            == seq_dot(self@[i], spec_col(rhs@, j))
                },
                Err(e) => e == MathError::DimensionMismatch,
            },
    {
        if self.width != rhs.height {
            return Err(MathError::DimensionMismatch);
        }
        let mut grid: Vec<Vec<Scalar>> = Vec::new();
        let mut i: usize = 0;
        while i < self.height
            invariant
                self.wf(),
                rhs.wf(),
                self.width == rhs.height,
                self.width <= MAT_DIM_LIMIT,
                entries_in_range(self@, MAT_MUL_LIMIT as int),
                entries_in_range(rhs@, MAT_MUL_LIMIT as int),
                i <= self.height,
                grid@.len() == i,
                forall|a: int|
                    0 <= a < i ==> (#[trigger] grid@[a])@.len() == rhs.width && forall|b: int|
                        0 <= b < rhs.width ==> grid@[a]@[b]@ == seq_dot(self@[a], spec_col(rhs@, b)),
            decreases self.height - i,
        {
            let a_row = self.get_row(i);
            let mut row: Vec<Scalar> = Vec::new();
            let mut j: usize = 0;
            while j < rhs.width
                invariant
                    self.wf(),
                    rhs.wf(),
                    self.width == rhs.height,
                    self.width <= MAT_DIM_LIMIT,
                    entries_in_range(self@, MAT_MUL_LIMIT as int),
                    entries_in_range(rhs@, MAT_MUL_LIMIT as int),
                    i < self.height,
                    raw_seq(a_row@) == self@[i as int],
                    a_row@.len() == self.width,
                    j <= rhs.width,
                    row@.len() == j,
                    forall|b: int|
                        0 <= b < j ==> (#[trigger] row@[b])@ == seq_dot(
                            self@[i as int],
                            spec_col(rhs@, b),
                        ),
                decreases rhs.width - j,
            {
                let b_col = rhs.get_col(j);
                proof {
                    assert forall|k: int| 0 <= k < raw_seq(a_row@).len() implies sabs(
                        #[trigger] raw_seq(a_row@)[k],
                    ) <= MAT_MUL_LIMIT as int by {
                        assert(raw_seq(a_row@)[k] == self@[i as int][k]);
                    }
                    assert forall|k: int| 0 <= k < raw_seq(b_col@).len() implies sabs(
                        #[trigger] raw_seq(b_col@)[k],
                    ) <= MAT_MUL_LIMIT as int by {
                        assert(raw_seq(b_col@)[k] == rhs@[k][j as int]);
                    }
                }
                let entry = calculate_element_sum(&a_row, &b_col);
                row.push(entry);
                j = j + 1;
            }
            grid.push(row);
            i = i + 1;
        }
        let r = Matrix { width: rhs.width, height: self.height, vector: grid };
        Ok(r)
    }

    /// The product of a 4-by-4 matrix with a tuple read as a column.
    pub fn mul_tuple(&self, rhs: &Tuple) -> (r: Tuple)
        requires
            self.wf(),
            self.width == 4,
            self.height == 4,
            entries_in_range(self@, MAT_MUL_LIMIT as int),
            in_range(rhs@, MAT_MUL_LIMIT as int),
        ensures
            r@ == (TupleView {
                x: seq_dot(self@[0], tuple_col(rhs@)),
                y: seq_dot(self@[1], tuple_col(rhs@)),
                z: seq_dot(self@[2], tuple_col(rhs@)),
                w: seq_dot(self@[3], tuple_col(rhs@)),
            }),
    {
        let mut column: Vec<Scalar> = Vec::new();
        column.push(rhs.x);
        column.push(rhs.y);
        column.push(rhs.z);
        column.push(rhs.w);
        proof {
            assert(raw_seq(column@) =~= tuple_col(rhs@));
        }
        let r0 = self.get_row(0);
        let r1 = self.get_row(1);
        let r2 = self.get_row(2);
        let r3 = self.get_row(3);
        proof {
            lemma_row_in_range(self@, 0, MAT_MUL_LIMIT as int);
            lemma_row_in_range(self@, 1, MAT_MUL_LIMIT as int);
            lemma_row_in_range(self@, 2, MAT_MUL_LIMIT as int);
            lemma_row_in_range(self@, 3, MAT_MUL_LIMIT as int);
        }
        let x = calculate_element_sum(&r0, &column);
        let y = calculate_element_sum(&r1, &column);
        let z = calculate_element_sum(&r2, &column);
        let w = calculate_element_sum(&r3, &column);
        Tuple { x, y, z, w }
    }
}

/// A tuple read as the column vector a matrix multiplies.
pub open spec fn tuple_col(v: TupleView) -> Seq<int> {
    seq![v.x, v.y, v.z, v.w]
}

/// How large a determinant of entries within `MAT_LIMIT` can grow, by the
/// size of the matrix.
pub open spec fn det_limit(n: int) -> int {
    if n <= 2 {
        600_000_000_000
    } else if n == 3 {
        1_000_000_000_000_000
    } else {
        2_100_000_000_000_000_000
    }
}

/// The inverse entry at `(i, j)`, `cofactor(j, i) / det`, is
/// representable.
pub open spec fn inv_cell_ok(g: Seq<Seq<int>>, i: int, j: int) -> bool {
    -0x7fff_ffff_ffff_ffff <= crate::scalar::rdiv(spec_cof(g, j, i), spec_det(g))
        <= 0x7fff_ffff_ffff_ffff
}

/// Every inverse entry `cofactor(col, row) / det` is representable.
pub open spec fn inv_fits(g: Seq<Seq<int>>) -> bool {
    forall|i: int, j: int| 0 <= i < g.len() && 0 <= j < g.len() ==> #[trigger] inv_cell_ok(g, i, j)
}

/// Removing a row and a column of a square grid leaves a square grid of
/// the next size down, with the same entry bound.
proof fn lemma_submatrix_grid(g: Seq<Seq<int>>, n: int, row: int, col: int, bound: int)
    requires
        is_grid(g, n, n),
        entries_in_range(g, bound),
        2 <= n,
        0 <= row < n,
        0 <= col < n,
    ensures
        is_grid(spec_submatrix(g, row, col), n - 1, n - 1),
        entries_in_range(spec_submatrix(g, row, col), bound),
{
    let sub = spec_submatrix(g, row, col);
    assert forall|i: int| 0 <= i < sub.len() implies (#[trigger] sub[i]).len() == n - 1 by {
        let si = if i < row {
            i
        } else {
            i + 1
        };
        assert(g[si].len() == n);
    }
    assert forall|i: int, j: int| 0 <= i < sub.len() && 0 <= j < sub[i].len() implies sabs(
        #[trigger] sub[i][j],
    ) <= bound by {
        let si = if i < row {
            i
        } else {
            i + 1
        };
        let sj = if j < col {
            j
        } else {
            j + 1
        };
        assert(g[si].len() == n);
        assert(sub[i][j] == g[si][sj]);
        assert(sabs(g[si][sj]) <= bound);
    }
}

/// A cofactor of a bounded square grid is bounded by the determinant
/// limit of the next size down.
proof fn lemma_cof_bound(g: Seq<Seq<int>>, n: int, row: int, col: int)
    requires
        is_grid(g, n, n),
        entries_in_range(g, MAT_LIMIT as int),
        3 <= n <= 5,
        0 <= row < n,
        0 <= col < n,
    ensures
        sabs(spec_cof(g, row, col)) <= det_limit(n - 1),
    decreases n, 1int, 0int,
{
    lemma_submatrix_grid(g, n, row, col, MAT_LIMIT as int);
    lemma_det_bound(spec_submatrix(g, row, col), n - 1);
}

/// A partial Laplace expansion is bounded by the number of its terms.
proof fn lemma_row_sum_bound(g: Seq<Seq<int>>, n: int, j: int)
    requires
        is_grid(g, n, n),
        entries_in_range(g, MAT_LIMIT as int),
        3 <= n <= 4,
        0 <= j <= n,
    ensures
        sabs(det_row_sum(g, j)) <= j * ((MAT_LIMIT as int) * det_limit(n - 1) / (SCALE as int)
            + 1),
    decreases n, 2int, j,
{
    let cap = (MAT_LIMIT as int) * det_limit(n - 1) / (SCALE as int) + 1;
    if j > 0 {
        lemma_row_sum_bound(g, n, j - 1);
        lemma_cof_bound(g, n, 0, j - 1);
        assert(g[0].len() == n);
        assert(sabs(g[0][j - 1]) <= MAT_LIMIT as int);
        lemma_rmul_bound(g[0][j - 1], spec_cof(g, 0, j - 1), MAT_LIMIT as int, det_limit(n - 1));
        assert(j * cap == (j - 1) * cap + cap) by (nonlinear_arith);
    }
}

/// A determinant of a bounded square grid stays within its size's limit.
proof fn lemma_det_bound(g: Seq<Seq<int>>, n: int)
    requires
        is_grid(g, n, n),
        entries_in_range(g, MAT_LIMIT as int),
        2 <= n <= 4,
    ensures
        sabs(spec_det(g)) <= det_limit(n),
    decreases n, 3int, 0int,
{
    if n == 2 {
        assert(g[0].len() == 2 && g[1].len() == 2);
        lemma_rmul_bound(g[0][0], g[1][1], MAT_LIMIT as int, MAT_LIMIT as int);
        lemma_rmul_bound(g[0][1], g[1][0], MAT_LIMIT as int, MAT_LIMIT as int);
    } else {
        assert(g[0].len() == n);
        lemma_row_sum_bound(g, n, n);
        let cap = (MAT_LIMIT as int) * det_limit(n - 1) / (SCALE as int) + 1;
        assert(n * cap <= det_limit(n)) by (nonlinear_arith)
            requires
                cap == (MAT_LIMIT as int) * det_limit(n - 1) / (SCALE as int) + 1,
                3 <= n <= 4,
                n == 3 ==> det_limit(n - 1) == 600_000_000_000 && det_limit(n)
                    == 1_000_000_000_000_000,
                n == 4 ==> det_limit(n - 1) == 1_000_000_000_000_000 && det_limit(n)
                    == 2_100_000_000_000_000_000,
                MAT_LIMIT == 500_000_000,
                SCALE == 1_000_000,
        ;
    }
}

impl Matrix {
    /// The grid with row `row` and column `col` removed.
    pub fn submatrix(&self, row: usize, col: usize) -> (r: Matrix)
        requires
            self.wf(),
            self.height >= 2,
            self.width >= 2,
            row < self.height,
            col < self.width,
        ensures
            r.wf(),
            r.height == self.height - 1,
            r.width == self.width - 1,
            r@ == spec_submatrix(self@, row as int, col as int),
    {
        let mut grid: Vec<Vec<Scalar>> = Vec::new();
        let mut i: usize = 0;
        while i < self.height
            invariant
                self.wf(),
                self.height >= 2,
                self.width >= 2,
                row < self.height,
                col < self.width,
                i <= self.height,
                grid@.len() == (if i <= row {
                    i as int
                } else {
                    i - 1
                }),
                forall|a: int|
                    0 <= a < grid@.len() ==> (#[trigger] grid@[a])@.len() == self.width - 1
                        && forall|b: int|
                        0 <= b < self.width - 1 ==> grid@[a]@[b]@ == self@[if a < row {
                            a
                        } else {
                            a + 1
                        }][if b < col {
                            b
                        } else {
                            b + 1
                        }],
            decreases self.height - i,
        {
            if i != row {
                let mut new_row: Vec<Scalar> = Vec::new();
                let mut j: usize = 0;
                while j < self.width
                    invariant
                        self.wf(),
                        i < self.height,
                        col < self.width,
                        j <= self.width,
                        new_row@.len() == (if j <= col {
                            j as int
                        } else {
                            j - 1
                        }),
                        forall|b: int|
                            0 <= b < new_row@.len() ==> (#[trigger] new_row@[b])@
                                == self@[i as int][if b < col {
                                b
                            } else {
                                b + 1
                            }],
                    decreases self.width - j,
                {
                    if j != col {
                        new_row.push(self.get(i, j));
                    }
                    j = j + 1;
                }
                grid.push(new_row);
            }
            i = i + 1;
        }
        let r = Matrix { width: self.width - 1, height: self.height - 1, vector: grid };
        proof {
            assert(r@ =~~= spec_submatrix(self@, row as int, col as int));
        }
        r
    }

    /// The determinant, by the 2-by-2 base case or Laplace expansion along
    /// the first row. Entries must stay within `MAT_LIMIT` and the matrix
    /// must be square of size 2 to 4, so every intermediate fits.
    pub fn determinant(&self) -> (r: Scalar)
        requires
            self.wf(),
            self.width == self.height,
            2 <= self.width <= 4,
            entries_in_range(self@, MAT_LIMIT as int),
        ensures
            r@ == spec_det(self@),
        decreases self.width, 3int,
    {
        if self.width == 2 && self.height == 2 {
            proof {
                lemma_rmul_bound(self@[0][0], self@[1][1], MAT_LIMIT as int, MAT_LIMIT as int);
                lemma_rmul_bound(self@[0][1], self@[1][0], MAT_LIMIT as int, MAT_LIMIT as int);
            }
            let ad = self.get(0, 0).mul(self.get(1, 1));
            let bc = self.get(0, 1).mul(self.get(1, 0));
            return ad.sub(bc);
        }
        let ghost cap = (MAT_LIMIT as int) * det_limit(self.width - 1) / (SCALE as int) + 1;
        let mut det = Scalar { raw: 0 };
        let mut j: usize = 0;
        while j < self.width
            invariant
                self.wf(),
                self.width == self.height,
                3 <= self.width <= 4,
                entries_in_range(self@, MAT_LIMIT as int),
                cap == (MAT_LIMIT as int) * det_limit(self.width - 1) / (SCALE as int) + 1,
                j <= self.width,
                det@ == det_row_sum(self@, j as int),
                sabs(det@) <= j * cap,
            decreases self.width - j,
        {
            let c = self.cofactor(0, j);
            proof {
                lemma_cof_bound(self@, self.width as int, 0, j as int);
                lemma_rmul_bound(self@[0][j as int], c@, MAT_LIMIT as int,
                    det_limit(self.width - 1));
                assert((j + 1) * cap == j * cap + cap) by (nonlinear_arith);
                assert(cap <= 500_000_000_000_000_001);
                assert(0 <= j * cap <= 3 * cap) by (nonlinear_arith)
                    requires
                        0 <= j <= 3,
                        cap >= 0,
                ;
            }
            let term = self.get(0, j).mul(c);
            det = det.add(term);
            j = j + 1;
        }
        det
    }

    /// The minor at `(row, col)`: the determinant of the submatrix there.
    pub fn minor(&self, row: usize, col: usize) -> (r: Scalar)
        requires
            self.wf(),
            self.width == self.height,
            3 <= self.width <= 5,
            row < self.height,
            col < self.width,
            entries_in_range(self@, MAT_LIMIT as int),
        ensures
            r@ == spec_minor(self@, row as int, col as int),
        decreases self.width, 0int,
    {
        proof {
            lemma_submatrix_grid(self@, self.width as int, row as int, col as int,
                MAT_LIMIT as int);
        }
        let current_sub_matrix = self.submatrix(row, col);
        current_sub_matrix.determinant()
    }

    /// The cofactor at `(row, col)`: the minor, negated where `row + col`
    /// is odd.
    pub fn cofactor(&self, row: usize, col: usize) -> (r: Scalar)
        requires
            self.wf(),
            self.width == self.height,
            3 <= self.width <= 5,
            row < self.height,
            col < self.width,
            entries_in_range(self@, MAT_LIMIT as int),
        ensures
            r@ == spec_cof(self@, row as int, col as int),
        decreases self.width, 1int,
    {
        let current_minor = self.minor(row, col);
        proof {
            lemma_cof_bound(self@, self.width as int, row as int, col as int);
        }
        if (row + col) % 2 == 1 {
            current_minor.neg()
        } else {
            current_minor
        }
    }

    /// Whether the determinant is nonzero. In fixed point the comparison
    /// with zero is exact.
    pub fn is_invertable(&self) -> (r: bool)
        requires
            self.wf(),
            self.width == self.height,
            2 <= self.width <= 4,
            entries_in_range(self@, MAT_LIMIT as int),
        ensures
            r == (spec_det(self@) != 0),
    {
        self.determinant().raw != 0
    }

    /// The inverse: entry `(row, col)` is `cofactor(col, row)` divided by
    /// the determinant, the transposed index order forming the adjugate.
    /// A zero determinant reports `NonInvertible`; an inverse entry beyond
    /// the representable range reports `OutOfRange`.
    pub fn invert(&self) -> (r: Result<Matrix, MathError>)
        requires
            self.wf(),
            self.width == self.height,
            3 <= self.width <= 4,
            entries_in_range(self@, MAT_LIMIT as int),
        ensures
            spec_det(self@) == 0 <==> r == Result::<Matrix, MathError>::Err(
                MathError::NonInvertible,
            ),
            spec_det(self@) != 0 && !inv_fits(self@) <==> r == Result::<Matrix, MathError>::Err(
                MathError::OutOfRange,
            ),
            spec_det(self@) != 0 && inv_fits(self@) <==> r is Ok,
            r matches Ok(m) ==> {
                &&& m.wf()
                &&& m.width == self.width
                &&& m.height == self.height
                &&& forall|i: int, j: int|
                    0 <= i < self.height && 0 <= j < self.width ==> #[trigger] m@[i][j]
                        == crate::scalar::rdiv(spec_cof(self@, j, i), spec_det(self@))
            },
    {
        let current_determinant = self.determinant();
        if current_determinant.raw == 0 {
            return Err(MathError::NonInvertible);
        }
        let mut return_matrix = Matrix::zero(self.width, self.height);
        let mut y: usize = 0;
        while y < self.height
            invariant
                self.wf(),
                self.width == self.height,
                3 <= self.width <= 4,
                entries_in_range(self@, MAT_LIMIT as int),
                current_determinant@ == spec_det(self@),
                current_determinant@ != 0,
                y <= self.height,
                return_matrix.wf(),
                return_matrix.width == self.width,
                return_matrix.height == self.height,
                forall|a: int, b: int|
                    0 <= a < y && 0 <= b < self.width ==> #[trigger] return_matrix@[a][b]
                        == crate::scalar::rdiv(spec_cof(self@, b, a), spec_det(self@))
                        && inv_cell_ok(self@, a, b),
            decreases self.height - y,
        {
            let mut x: usize = 0;
            while x < self.width
                invariant
                    self.wf(),
                    self.width == self.height,
                    3 <= self.width <= 4,
                    entries_in_range(self@, MAT_LIMIT as int),
                    current_determinant@ == spec_det(self@),
                    current_determinant@ != 0,
                    y < self.height,
                    x <= self.width,
                    return_matrix.wf(),
                    return_matrix.width == self.width,
                    return_matrix.height == self.height,
                    forall|a: int, b: int|
                        0 <= a < y && 0 <= b < self.width ==> #[trigger] return_matrix@[a][b]
                            == crate::scalar::rdiv(spec_cof(self@, b, a), spec_det(self@))
                            && inv_cell_ok(self@, a, b),
                    forall|b: int|
                        0 <= b < x ==> #[trigger] return_matrix@[y as int][b]
                            == crate::scalar::rdiv(spec_cof(self@, b, y as int), spec_det(self@))
                            && inv_cell_ok(self@, y as int, b),
                decreases self.width - x,
            {
                // Note the transposed indices: the cofactor of (x, y)
                // lands at (y, x).
                let current_cofactor = self.cofactor(x, y);
                let ghost before = return_matrix@;
                match current_cofactor.checked_div(current_determinant) {
                    Some(value) => {
                        return_matrix.set_element(y, x, value);
                        proof {
                            assert forall|b: int| 0 <= b < x + 1 implies #[trigger] return_matrix@[y as int][b]
                                == crate::scalar::rdiv(
                                spec_cof(self@, b, y as int),
                                spec_det(self@),
                            ) && inv_cell_ok(self@, y as int, b) by {
                                if b < x {
                                    assert(return_matrix@[y as int][b] == before[y as int][b]);
                                } else {
                                    assert(return_matrix@[y as int][b] == value@);
                                }
                            }
                            assert forall|a: int, b: int|
                                0 <= a < y && 0 <= b < self.width implies #[trigger] return_matrix@[a][b]
                                == crate::scalar::rdiv(spec_cof(self@, b, a), spec_det(self@))
                                && inv_cell_ok(self@, a, b) by {
                                assert(return_matrix@[a] == before[a]);
                                assert(before[a][b] == crate::scalar::rdiv(
                                    spec_cof(self@, b, a),
                                    spec_det(self@),
                                ) && inv_cell_ok(self@, a, b));
                            }
                        }
                    },
                    None => {
                        proof {
                            assert(!inv_cell_ok(self@, y as int, x as int));
                        }
                        return Err(MathError::OutOfRange);
                    },
                }
                x = x + 1;
            }
            proof {
                assert forall|a: int, b: int|
                    0 <= a < y + 1 && 0 <= b < self.width implies #[trigger] return_matrix@[a][b]
                    == crate::scalar::rdiv(spec_cof(self@, b, a), spec_det(self@)) && inv_cell_ok(
                    self@,
                    a,
                    b,
                ) by {
                    if a < y {
                        assert(return_matrix@[a][b] == crate::scalar::rdiv(
                            spec_cof(self@, b, a),
                            spec_det(self@),
                        ));
                        assert(inv_cell_ok(self@, a, b));
                    } else {
                        assert(return_matrix@[y as int][b] == crate::scalar::rdiv(
                            spec_cof(self@, b, y as int),
                            spec_det(self@),
                        ));
                        assert(inv_cell_ok(self@, y as int, b));
                    }
                }
            }
            y = y + 1;
        }
        proof {
            assert forall|i: int, j: int|
                0 <= i < self@.len() && 0 <= j < self@.len() implies #[trigger] inv_cell_ok(
                self@,
                i,
                j,
            ) by {
                assert(return_matrix@[i][j] == crate::scalar::rdiv(
                    spec_cof(self@, j, i),
                    spec_det(self@),
                ) && inv_cell_ok(self@, i, j));
            }
        }
        Ok(return_matrix)
    }
}

/// A row of a grid of bounded entries is a bounded sequence.
proof fn lemma_row_in_range(g: Seq<Seq<int>>, i: int, bound: int)
    requires
        entries_in_range(g, bound),
        0 <= i < g.len(),
    ensures
        seq_in_range(g[i], bound),
{
    assert forall|k: int| 0 <= k < g[i].len() implies sabs(#[trigger] g[i][k]) <= bound by {
        assert(sabs(g[i][k]) <= bound);
    }
}

/// LAW: transposing twice gives back the grid it started from.
pub proof fn lemma_transpose_involution(m: &Matrix)
    requires
        m.wf(),
    ensures
        spec_transpose(spec_transpose(m@, m.width as int), m.height as int) == m@,
{
    let t = spec_transpose(m@, m.width as int);
    assert(spec_transpose(t, m.height as int) =~~= m@);
}

} // verus!
