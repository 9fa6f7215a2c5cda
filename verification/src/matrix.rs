use vstd::prelude::*;

verus! {

/// Position of entry `(i, j)` in the row-major storage of a matrix with `cols` columns.
pub open spec fn row_major(cols: int, i: int, j: int) -> int {
    i * cols + j
}

/// Entries of a row-major matrix with `rows` rows and `cols` columns lie below `rows * cols`,
/// and every entry of row `i` lies below the start of row `i + 1`.
pub proof fn lemma_row_major_bounds(rows: int, cols: int, i: int, j: int)
    requires
        0 <= i < rows,
        0 <= j < cols,
    ensures
        0 <= row_major(cols, i, j),
        row_major(cols, i, j) < (i + 1) * cols,
        (i + 1) * cols <= rows * cols,
        row_major(cols, i, j) < rows * cols,
{
    assert(0 <= i * cols + j) by (nonlinear_arith)
        requires
            0 <= i,
            0 <= j,
            0 < cols,
    ;
    assert(i * cols + j < (i + 1) * cols) by (nonlinear_arith)
        requires
            j < cols,
    ;
    assert((i + 1) * cols <= rows * cols) by (nonlinear_arith)
        requires
            i + 1 <= rows,
            0 <= cols,
    ;
}

/// Row-major positions are strictly increasing in the row for a fixed column bound:
/// any entry of an earlier row comes before the start of a later row.
pub proof fn lemma_row_major_earlier_row(cols: int, a: int, b: int, i: int)
    requires
        0 <= a < i,
        0 <= b < cols,
    ensures
        row_major(cols, a, b) < i * cols,
{
    assert(a * cols + b < i * cols) by (nonlinear_arith)
        requires
            0 <= a < i,
            0 <= b < cols,
    ;
}

/// Every position below `rows * cols` is the row-major position of some in-range coordinate.
pub proof fn lemma_row_major_decompose(rows: int, cols: int, k: int)
    requires
        0 <= k < rows * cols,
        0 < cols,
    ensures
        0 <= k / cols < rows,
        0 <= k % cols < cols,
        row_major(cols, k / cols, k % cols) == k,
{
    assert(k == (k / cols) * cols + k % cols && 0 <= k % cols < cols) by (nonlinear_arith)
        requires
            0 < cols,
    ;
    assert(0 <= k / cols) by (nonlinear_arith)
        requires
            0 <= k,
            0 < cols,
    ;
    if k / cols >= rows {
        assert((k / cols) * cols >= rows * cols) by (nonlinear_arith)
            requires
                k / cols >= rows,
                0 < cols,
        ;
    }
}

/// A dense matrix stored row by row: entry `(i, j)` is `data[i * cols + j]`.
#[derive(Debug, Clone, PartialEq)]
pub struct Matrix<T> {
    pub rows: usize,
    pub cols: usize,
    pub data: Vec<T>,
}

impl<T: Copy> Matrix<T> {
    /// The storage holds exactly one value per entry.
    pub open spec fn wf(&self) -> bool {
        self.data@.len() == self.rows * self.cols
    }

    /// Entry `(i, j)` of the matrix.
    pub open spec fn entry(&self, i: int, j: int) -> T {
        self.data@[row_major(self.cols as int, i, j)]
    }

    /// `t` holds exactly the transpose of `self`.
    pub open spec fn is_transpose_of(t: Self, m: Self) -> bool {
        &&& t.rows == m.cols
        &&& t.cols == m.rows
        &&& t.wf()
        &&& forall|i: int, j: int|
            0 <= i < m.rows && 0 <= j < m.cols ==> #[trigger] t.entry(j, i) == m.entry(i, j)
    }

    /// A `rows` by `cols` matrix whose every entry is `zero`.
    pub fn zeros(rows: usize, cols: usize, zero: T) -> (m: Self)
        requires
            rows * cols <= usize::MAX,
        ensures
            m.rows == rows,
            m.cols == cols,
            m.wf(),
            m.data@ == Seq::new((rows * cols) as nat, |k: int| zero),
    {
        let len: usize = rows * cols;
        let mut data: Vec<T> = Vec::new();
        let mut k: usize = 0;
        while k < len
            invariant
                k <= len,
                data@ == Seq::new(k as nat, |q: int| zero),
            decreases len - k,
        {
            data.push(zero);
            k = k + 1;
        }
        Matrix { rows, cols, data }
    }

    /// The `n` by `n` identity matrix built from the scalars `zero` and `one`.
    pub fn identity(n: usize, zero: T, one: T) -> (m: Self)
        requires
            n * n <= usize::MAX,
        ensures
            m.rows == n,
            m.cols == n,
            m.wf(),
            forall|i: int, j: int|
                0 <= i < n && 0 <= j < n ==> #[trigger] m.entry(i, j) == (if i == j {
                    one
                } else {
                    zero
                }),
            m.data@.len() == n * n,
            forall|i: int, j: int|
                0 <= i < n && 0 <= j < n ==> #[trigger] m.data@[i * n + j] == (if i == j {
                    one
                } else {
                    zero
                }),
    {
        let mut data: Vec<T> = Vec::new();
        let mut i: usize = 0;
        while i < n
            invariant
                i <= n,
                n * n <= usize::MAX,
                data@.len() == i * n,
                forall|a: int, b: int|
                    0 <= a < i && 0 <= b < n ==> #[trigger] data@[row_major(n as int, a, b)] == (
                    if a == b {
                        one
                    } else {
                        zero
                    }),
            decreases n - i,
        {
            let mut j: usize = 0;
            proof {
                assert((i + 1) * n <= n * n) by (nonlinear_arith)
                    requires
                        i < n,
                ;
                assert((i + 1) * n == i * n + n) by (nonlinear_arith);
            }
            while j < n
                invariant
                    i < n,
                    j <= n,
                    n * n <= usize::MAX,
                    (i + 1) * n <= n * n,
                    (i + 1) * n == i * n + n,
                    data@.len() == i * n + j,
                    forall|a: int, b: int|
                        0 <= a < i && 0 <= b < n ==> #[trigger] data@[row_major(n as int, a, b)]
                            == (if a == b {
                            one
                        } else {
                            zero
                        }),
                    forall|b: int|
                        0 <= b < j ==> #[trigger] data@[row_major(n as int, i as int, b)] == (
                        if i == b {
                            one
                        } else {
                            zero
                        }),
                decreases n - j,
            {
                let ghost before = data@;
                if i == j {
                    data.push(one);
                } else {
                    data.push(zero);
                }
                proof {
                    assert forall|a: int, b: int| 0 <= a < i && 0 <= b < n implies #[trigger] data@[row_major(n as int, a, b)]
                        == before[row_major(n as int, a, b)] by {
                        lemma_row_major_earlier_row(n as int, a, b, i as int);
                    }
                }
                j = j + 1;
            }
            i = i + 1;
        }
        proof {
            assert forall|a: int, b: int| 0 <= a < n && 0 <= b < n implies #[trigger] data@[a * n + b]
                == (if a == b {
                one
            } else {
                zero
            }) by {
                assert(data@[row_major(n as int, a, b)] == (if a == b {
                    one
                } else {
                    zero
                }));
            }
        }
        Matrix { rows: n, cols: n, data }
    }

    /// A `rows` by `cols` matrix whose storage is a copy of `data`.
    pub fn from_row_slice(rows: usize, cols: usize, data: &[T]) -> (m: Self)
        ensures
            m.rows == rows,
            m.cols == cols,
            m.data@ == data@,
    {
        let mut v: Vec<T> = Vec::new();
        let mut k: usize = 0;
        while k < data.len()
            invariant
                k <= data@.len(),
                v@ == data@.subrange(0, k as int),
            decreases data@.len() - k,
        {
            v.push(data[k]);
            k = k + 1;
        }
        proof {
            assert(v@ == data@);
        }
        Matrix { rows, cols, data: v }
    }

    /// Entry `(i, j)`.
    pub fn get(&self, i: usize, j: usize) -> (v: T)
        requires
            row_major(self.cols as int, i as int, j as int) < self.data@.len(),
        ensures
            v == self.entry(i as int, j as int),
            v == self.data@[i * self.cols + j],
    {
        let len = self.data.len();
        proof {
            assert(0 <= i * self.cols) by (nonlinear_arith);
        }
        self.data[i * self.cols + j]
    }

    /// Replaces entry `(i, j)` by `val`.
    pub fn set(&mut self, i: usize, j: usize, val: T)
        requires
            row_major(old(self).cols as int, i as int, j as int) < old(self).data@.len(),
        ensures
            final(self).rows == old(self).rows,
            final(self).cols == old(self).cols,
            final(self).data@ == old(self).data@.update(
                row_major(old(self).cols as int, i as int, j as int),
                val,
            ),
            final(self).data@ == old(self).data@.update(i * old(self).cols + j, val),
    {
        let len = self.data.len();
        proof {
            assert(0 <= i * self.cols) by (nonlinear_arith);
        }
        let k: usize = i * self.cols + j;
        self.data.set(k, val);
    }

    /// The transpose: entry `(j, i)` of the result is entry `(i, j)` of `self`.
    pub fn transpose(&self) -> (t: Self)
        requires
            self.rows * self.cols <= self.data@.len(),
        ensures
            Self::is_transpose_of(t, *self),
            t.rows == self.cols,
            t.cols == self.rows,
            t.data@.len() == self.rows * self.cols,
            forall|i: int, j: int|
                0 <= i < self.rows && 0 <= j < self.cols ==> #[trigger] t.data@[j * self.rows + i]
                    == self.data@[i * self.cols + j],
    {
        let rows = self.rows;
        let cols = self.cols;
        let mut data: Vec<T> = Vec::new();
        let mut j: usize = 0;
        while j < cols
            invariant
                rows == self.rows,
                cols == self.cols,
                rows * cols <= self.data@.len(),
                j <= cols,
                data@.len() == j * rows,
                forall|a: int, b: int|
                    0 <= a < j && 0 <= b < rows ==> #[trigger] data@[row_major(rows as int, a, b)]
                        == self.entry(b, a),
            decreases cols - j,
        {
            proof {
                assert((j + 1) * rows == j * rows + rows) by (nonlinear_arith);
                assert((j + 1) * rows <= cols * rows) by (nonlinear_arith)
                    requires
                        j < cols,
                ;
                assert(cols * rows == rows * cols) by (nonlinear_arith);
            }
            let mut i: usize = 0;
            while i < rows
                invariant
                    rows == self.rows,
                    cols == self.cols,
                    rows * cols <= self.data@.len(),
                    j < cols,
                    i <= rows,
                    (j + 1) * rows == j * rows + rows,
                    (j + 1) * rows <= rows * cols,
                    data@.len() == j * rows + i,
                    forall|a: int, b: int|
                        0 <= a < j && 0 <= b < rows ==> #[trigger] data@[row_major(
                            rows as int,
                            a,
                            b,
                        )] == self.entry(b, a),
                    forall|b: int|
                        0 <= b < i ==> #[trigger] data@[row_major(rows as int, j as int, b)]
                            == self.entry(b, j as int),
                decreases rows - i,
            {
                proof {
                    lemma_row_major_bounds(rows as int, cols as int, i as int, j as int);
                }
                let x = self.get(i, j);
                let ghost before = data@;
                data.push(x);
                proof {
                    assert forall|a: int, b: int| 0 <= a < j && 0 <= b < rows implies #[trigger] data@[row_major(rows as int, a, b)]
                        == before[row_major(rows as int, a, b)] by {
                        lemma_row_major_earlier_row(rows as int, a, b, j as int);
                    }
                }
                i = i + 1;
            }
            j = j + 1;
        }
        proof {
            assert(cols * rows == rows * cols) by (nonlinear_arith);
            assert forall|a: int, b: int| 0 <= a < rows && 0 <= b < cols implies #[trigger] data@[b * rows
                + a] == self.data@[a * cols + b] by {
                assert(data@[row_major(rows as int, b, a)] == self.entry(a, b));
            }
        }
        Matrix { rows: cols, cols: rows, data }
    }

    /// Column `j` as a vector: component `i` is entry `(i, j)`.
    pub fn column(&self, j: usize) -> (c: Vec<T>)
        requires
            self.rows == 0 || row_major(self.cols as int, self.rows - 1, j as int)
                < self.data@.len(),
        ensures
            c@.len() == self.rows,
            forall|i: int| 0 <= i < self.rows ==> #[trigger] c@[i] == self.entry(i, j as int),
            forall|i: int| 0 <= i < self.rows ==> #[trigger] c@[i] == self.data@[i * self.cols + j],
    {
        let mut c: Vec<T> = Vec::new();
        let mut i: usize = 0;
        while i < self.rows
            invariant
                i <= self.rows,
                self.rows == 0 || row_major(self.cols as int, self.rows - 1, j as int)
                    < self.data@.len(),
                c@.len() == i,
                forall|a: int| 0 <= a < i ==> #[trigger] c@[a] == self.entry(a, j as int),
            decreases self.rows - i,
        {
            proof {
                assert(i * self.cols <= (self.rows - 1) * self.cols) by (nonlinear_arith)
                    requires
                        i <= self.rows - 1,
                ;
            }
            let x = self.get(i, j);
            c.push(x);
            i = i + 1;
        }
        c
    }
}

} // verus!
