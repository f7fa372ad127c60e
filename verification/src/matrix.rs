//! A generic fixed-extent 2D matrix over flat row-major storage, with
//! validated coordinate access.

use vstd::prelude::*;

verus! {

use vstd::pervasive::VecAdditionalExecFns;

/// Error returned by indexed access with a coordinate outside the matrix.
#[derive(Clone, Copy, Debug, PartialEq, Eq)]
pub struct OutOfBoundsError;

/// Error returned by construction when an extent is zero or the cell count
/// would overflow `usize`.
#[derive(Clone, Copy, Debug, PartialEq, Eq)]
pub struct UnachieveableSize;

/// Represents a matrix of n rows and m columns, stored row-major in one
/// contiguous vector: the cell at `(x, y)` lives at offset `x * columns + y`.
pub struct SmallMatrix<T> {
    rows: usize,
    columns: usize,
    data: Vec<T>,
}

impl<T> SmallMatrix<T> {
    /// The number of rows.
    pub closed spec fn spec_rows(&self) -> usize {
        self.rows
    }

    /// The number of columns.
    pub closed spec fn spec_columns(&self) -> usize {
        self.columns
    }

    /// The backing storage in its native linear (row-major) order.
    pub closed spec fn cells(&self) -> Seq<T> {
        self.data@
    }

    /// Well-formedness: both extents are at least 1, their product is
    /// representable, and the storage holds exactly one value per cell.
    pub open spec fn wf(&self) -> bool {
        &&& 1 <= self.spec_rows()
        &&& 1 <= self.spec_columns()
        &&& self.spec_rows() * self.spec_columns() <= usize::MAX
        &&& self.cells().len() == self.spec_rows() * self.spec_columns()
    }

    /// Whether `(x, y)` addresses a cell of the matrix.
    pub open spec fn in_bounds(&self, x: int, y: int) -> bool {
        &&& 0 <= x < self.spec_rows()
        &&& 0 <= y < self.spec_columns()
    }

    /// The linear offset of coordinate `(x, y)`.
    pub open spec fn offset(&self, x: int, y: int) -> int {
        x * self.spec_columns() + y
    }

    /// The value stored at `(x, y)`.
    pub open spec fn spec_index(&self, x: int, y: int) -> T {
        self.cells()[self.offset(x, y)]
    }
}

/// For an in-bounds coordinate the row-major offset lands inside the
/// storage.
pub proof fn lemma_offset_in_range(rows: int, columns: int, x: int, y: int)
    requires
        0 <= x < rows,
        0 <= y < columns,
    ensures
        0 <= x * columns + y < rows * columns,
{
    assert(0 <= x * columns + y < rows * columns) by (nonlinear_arith)
        requires
            0 <= x < rows,
            0 <= y < columns,
    ;
}

/// Distinct coordinates with valid column parts land at distinct row-major
/// offsets: the coordinate-to-offset translation is injective.
pub proof fn lemma_offset_injective(columns: int, x1: int, y1: int, x2: int, y2: int)
    requires
        0 <= y1 < columns,
        0 <= y2 < columns,
        x1 != x2 || y1 != y2,
    ensures
        x1 * columns + y1 != x2 * columns + y2,
{
    assert(x1 * columns + y1 != x2 * columns + y2) by (nonlinear_arith)
        requires
            0 <= y1 < columns,
            0 <= y2 < columns,
            x1 != x2 || y1 != y2,
    ;
}

impl<T: Default + Clone> SmallMatrix<T> {
    /// Creates a new instance of a matrix and returns it. Note that a matrix
    /// cannot have an n and an m such that m * n would cause usize to
    /// overflow. Neither n nor m may be 0.
    /// * `n`: the number of rows.
    /// * `m`: the number of columns.
    ///
    /// Every cell of the new matrix holds a value produced by `T::default()`.
    pub fn new(n: usize, m: usize) -> (r: Result<Self, UnachieveableSize>)
        ensures
            r is Ok <==> (1 <= n && 1 <= m && n * m <= usize::MAX),
            r matches Ok(g) ==> {
                &&& g.wf()
                &&& g.spec_rows() == n
                &&& g.spec_columns() == m
                &&& forall|k: int|
                    0 <= k < n * m ==> call_ensures(T::default, (), #[trigger] g.cells()[k])
            },
    {
        let total = match n.checked_mul(m) {
            Some(t) => t,
            None => {
                return Err(UnachieveableSize);
            },
        };
        if total == 0 {
            proof {
                assert(n == 0 || m == 0) by (nonlinear_arith)
                    requires
                        n * m == 0,
                ;
            }
            return Err(UnachieveableSize);
        }
        assert(1 <= n && 1 <= m) by (nonlinear_arith)
            requires
                n * m != 0,
        ;
        let mut data: Vec<T> = Vec::new();
        let mut i: usize = 0;
        while i < total
            invariant
                i <= total,
                data@.len() == i,
                forall|k: int| 0 <= k < i ==> call_ensures(T::default, (), #[trigger] data@[k]),
            decreases total - i,
        {
            data.push(T::default());
            i = i + 1;
        }
        Ok(Self { rows: n, columns: m, data })
    }
}

impl OutOfBoundsError {
    /// A human-readable description of the error.
    pub fn message(&self) -> (m: &'static str)
        ensures
            m@ == "Program tried to access memory outside of bounds"@,
    {
        "Program tried to access memory outside of bounds"
    }
}

impl UnachieveableSize {
    /// A human-readable description of the error.
    pub fn message(&self) -> (m: &'static str)
        ensures
            m@ == "Program tried to create a matrix with an unachievable size"@,
    {
        "Program tried to create a matrix with an unachievable size"
    }
}

impl<T> SmallMatrix<T> {
    /// Exposes the backing storage in its native linear (row-major) order.
    pub fn linear_view(&self) -> (v: &Vec<T>)
        ensures
            v@ == self.cells(),
    {
        &self.data
    }

    /// Returns a tuple that represents the size of the matrix as (n, m).
    pub fn get_size(&self) -> (r: (usize, usize))
        ensures
            r.0 == self.spec_rows(),
            r.1 == self.spec_columns(),
    {
        (self.rows, self.columns)
    }

    /// Returns the value located at the (x, y) position in the matrix, or
    /// `OutOfBoundsError` when the coordinate lies outside the half-open
    /// valid ranges `0 <= x < rows`, `0 <= y < columns`.
    /// * `x`: the row position.
    /// * `y`: the column position.
    pub fn get_val_at(&self, x: usize, y: usize) -> (r: Result<&T, OutOfBoundsError>)
        requires
            self.wf(),
        ensures
            r is Ok <==> self.in_bounds(x as int, y as int),
            r matches Ok(v) ==> *v == self.spec_index(x as int, y as int),
    {
        if x >= self.rows || y >= self.columns {
            return Err(OutOfBoundsError);
        }
        proof {
            lemma_offset_in_range(self.rows as int, self.columns as int, x as int, y as int);
        }
        let position_in_vector: usize = x * self.columns + y;
        Ok(&self.data[position_in_vector])
    }

    /// Sets value at a provided (x, y) position in the vector. Returns an
    /// empty result if successful; all other cells are left unchanged.
    /// * `x`: the row position.
    /// * `y`: the column position.
    /// * `value`: the value to put into the matrix.
    pub fn set_val_at(&mut self, x: usize, y: usize, value: T) -> (r: Result<
        (),
        OutOfBoundsError,
    >)
        requires
            old(self).wf(),
        ensures
            final(self).wf(),
            final(self).spec_rows() == old(self).spec_rows(),
            final(self).spec_columns() == old(self).spec_columns(),
            r is Ok <==> old(self).in_bounds(x as int, y as int),
            r is Ok ==> final(self).cells() == old(self).cells().update(
                old(self).offset(x as int, y as int),
                value,
            ),
            r is Err ==> final(self).cells() == old(self).cells(),
    {
        if x >= self.rows || y >= self.columns {
            return Err(OutOfBoundsError);
        }
        proof {
            lemma_offset_in_range(self.rows as int, self.columns as int, x as int, y as int);
        }
        let position_in_vector: usize = x * self.columns + y;
        self.data.set(position_in_vector, value);
        Ok(())
    }

    /// Returns a mutable reference to the value located at the (x, y)
    /// position in the matrix, or `OutOfBoundsError` when the coordinate is
    /// outside the matrix, in which case the matrix is unchanged.
    /// * `x`: the row position.
    /// * `y`: the column position.
    pub fn get_mut_val_at(&mut self, x: usize, y: usize) -> (r: Result<
        &mut T,
        OutOfBoundsError,
    >)
        requires
            old(self).wf(),
        ensures
            r is Ok <==> old(self).in_bounds(x as int, y as int),
            r matches Ok(v) ==> {
                &&& *v == old(self).spec_index(x as int, y as int)
                &&& final(self).cells() == old(self).cells().update(
                    old(self).offset(x as int, y as int),
                    *final(v),
                )
            },
            r is Err ==> final(self).cells() == old(self).cells(),
            final(self).wf(),
            final(self).spec_rows() == old(self).spec_rows(),
            final(self).spec_columns() == old(self).spec_columns(),
    {
        if x >= self.rows || y >= self.columns {
            return Err(OutOfBoundsError);
        }
        proof {
            lemma_offset_in_range(self.rows as int, self.columns as int, x as int, y as int);
        }
        let position_in_vector: usize = x * self.columns + y;
        Ok(&mut self.data[position_in_vector])
    }
}

} // verus!
