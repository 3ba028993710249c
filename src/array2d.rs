use vstd::prelude::*;
use vstd::slice::slice_subrange;

verus! {

/// A fixed-size matrix stored row by row.
#[derive(Debug, Clone, Eq, PartialEq)]
pub struct Array2D<T> {
    array: Vec<T>,
    num_rows: usize,
    num_cols: usize,
}

/// Whether `len` elements can be laid out in `rows` rows of equal length.
pub open spec fn fits(len: nat, rows: nat) -> bool {
    if rows == 0 {
        len == 0
    } else {
        len % rows == 0
    }
}

impl<T> Array2D<T> {
    pub closed spec fn spec_elems(&self) -> Seq<T> {
        self.array@
    }

    pub closed spec fn spec_num_rows(&self) -> nat {
        self.num_rows as nat
    }

    pub closed spec fn spec_num_cols(&self) -> nat {
        self.num_cols as nat
    }

    /// The shape covers the elements exactly.
    pub open spec fn wf(&self) -> bool {
        &&& self.spec_num_rows() * self.spec_num_cols() == self.spec_elems().len()
        &&& self.spec_num_rows() <= usize::MAX
        &&& self.spec_num_cols() <= usize::MAX
    }

    /// The element at row `r`, column `c`.
    pub open spec fn at(&self, r: int, c: int) -> T {
        self.spec_elems()[r * self.spec_num_cols() + c]
    }

    /// Row `r` as a sequence.
    pub open spec fn row(&self, r: int) -> Seq<T> {
        self.spec_elems().subrange(r * self.spec_num_cols(), (r + 1) * self.spec_num_cols())
    }

    /// Lays out `array` in `num_rows` rows; fails when the elements do not
    /// divide evenly into that many rows.
    pub fn from_vec(array: Vec<T>, num_rows: usize) -> (r: Option<Self>)
        ensures
            r.is_some() == fits(array@.len(), num_rows as nat),
            r is Some ==> r.unwrap().wf(),
            r is Some ==> r.unwrap().spec_elems() == array@,
            r is Some ==> r.unwrap().spec_num_rows() == num_rows,
            r is Some && num_rows > 0 ==> r.unwrap().spec_num_cols() == array@.len() as int / num_rows as int,
    {
        if num_rows == 0 {
            if array.len() == 0 {
                let m = Array2D { array, num_rows, num_cols: 0 };
                assert(m.spec_num_rows() * m.spec_num_cols() == m.spec_elems().len());
                Some(m)
            } else {
                None
            }
        } else {
            let num_cols = array.len() / num_rows;
            if array.len() % num_rows == 0 {
                proof {
                    vstd::arithmetic::div_mod::lemma_fundamental_div_mod(
                        array@.len() as int,
                        num_rows as int,
                    );
                    assert(num_rows * num_cols == array@.len()) by (nonlinear_arith)
                        requires
                            array@.len() == num_rows * (array@.len() as int / num_rows as int) + 0,
                            num_cols == array@.len() as int / num_rows as int,
                    ;
                }
                let m = Array2D { array, num_rows, num_cols };
                assert(m.spec_num_rows() * m.spec_num_cols() == m.spec_elems().len());
                Some(m)
            } else {
                None
            }
        }
    }

    pub fn num_rows(&self) -> (r: usize)
        ensures
            r == self.spec_num_rows(),
    {
        self.num_rows
    }

    pub fn num_cols(&self) -> (r: usize)
        ensures
            r == self.spec_num_cols(),
    {
        self.num_cols
    }

    pub fn num_elems(&self) -> (r: usize)
        ensures
            r == self.spec_elems().len(),
    {
        self.array.len()
    }

    /// The element at (`row`, `col`), or `None` outside the matrix.
    pub fn get(&self, row: usize, col: usize) -> (r: Option<&T>)
        requires
            self.wf(),
        ensures
            r.is_some() == (row < self.spec_num_rows() && col < self.spec_num_cols()),
            r matches Some(v) ==> *v == self.at(row as int, col as int),
    {
        match self.get_index(row, col) {
            Some(index) => Some(&self.array[index]),
            None => None,
        }
    }

    /// A mutable reference to the element at (`row`, `col`), or `None`
    /// outside the matrix.
    pub fn get_mut(&mut self, row: usize, col: usize) -> (r: Option<&mut T>)
        requires
            old(self).wf(),
        ensures
            r.is_some() == (row < old(self).spec_num_rows() && col < old(self).spec_num_cols()),
            final(self).spec_num_rows() == old(self).spec_num_rows(),
            final(self).spec_num_cols() == old(self).spec_num_cols(),
            r matches Some(v) ==> {
                &&& *v == old(self).at(row as int, col as int)
                &&& final(self).spec_elems() == old(self).spec_elems().update(
                    row * old(self).spec_num_cols() + col,
                    *final(v),
                )
            },
            r is None ==> *final(self) == *old(self),
    {
        match self.get_index(row, col) {
            Some(index) => Some(&mut self.array[index]),
            None => None,
        }
    }

    /// The rows in order, each a slice of `num_cols` elements.
    pub fn rows(&self) -> (r: Vec<&[T]>)
        requires
            self.wf(),
        ensures
            r@.len() == self.spec_num_rows(),
            forall|i: int| 0 <= i < r@.len() ==> r@[i]@ == self.row(i),
    {
        let len = self.array.len();
        let mut r: Vec<&[T]> = Vec::new();
        let mut i: usize = 0;
        while i < self.num_rows
            invariant
                self.wf(),
                i <= self.num_rows,
                len == self.spec_elems().len(),
                r@.len() == i,
                forall|k: int| 0 <= k < i ==> r@[k]@ == self.row(k),
            decreases self.num_rows - i,
        {
            proof {
                lemma_row_bounds(self.spec_num_rows() as int, self.spec_num_cols() as int, i as int);
            }
            let start = i * self.num_cols;
            let row = slice_subrange(self.array.as_slice(), start, start + self.num_cols);
            r.push(row);
            i = i + 1;
        }
        r
    }

    fn get_index(&self, row: usize, col: usize) -> (r: Option<usize>)
        requires
            self.wf(),
        ensures
            r.is_some() == (row < self.spec_num_rows() && col < self.spec_num_cols()),
            r matches Some(i) ==> i == row * self.spec_num_cols() + col && i < self.spec_elems().len(),
    {
        let len = self.array.len();
        if row < self.num_rows && col < self.num_cols {
            proof {
                lemma_row_bounds(self.spec_num_rows() as int, self.spec_num_cols() as int, row as int);
            }
            Some(row * self.num_cols + col)
        } else {
            None
        }
    }
}

/// The number of cells of a `rows` by `cols` matrix.
pub open spec fn cell_count(rows: nat, cols: nat) -> nat {
    rows * cols
}

/// `len` elements can be laid out in `rows` rows exactly when some number of
/// columns makes `rows * cols == len`.
pub proof fn lemma_fits_iff_shape(len: nat, rows: nat)
    ensures
        fits(len, rows) <==> exists|cols: nat| #[trigger] cell_count(rows, cols) == len,
{
    if fits(len, rows) {
        if rows == 0 {
            assert(cell_count(rows, 0) == len);
        } else {
            vstd::arithmetic::div_mod::lemma_fundamental_div_mod(len as int, rows as int);
            let cols = len / rows;
            assert(cell_count(rows, cols) == len);
        }
    }
    if exists|cols: nat| #[trigger] cell_count(rows, cols) == len {
        let cols = choose|cols: nat| #[trigger] cell_count(rows, cols) == len;
        if rows == 0 {
            assert(rows * cols == 0) by (nonlinear_arith)
                requires
                    rows == 0,
            ;
        } else {
            vstd::arithmetic::div_mod::lemma_fundamental_div_mod_converse(
                len as int,
                rows as int,
                cols as int,
                0,
            );
        }
    }
}

/// Row `r` of a `rows` by `cols` matrix lies inside its elements.
pub proof fn lemma_row_bounds(rows: int, cols: int, r: int)
    requires
        0 <= r < rows,
        0 <= cols,
    ensures
        0 <= r * cols,
        r * cols + cols <= rows * cols,
        (r + 1) * cols == r * cols + cols,
{
    assert(r * cols + cols <= rows * cols) by (nonlinear_arith)
        requires
            0 <= r < rows,
            0 <= cols,
    ;
    assert(0 <= r * cols) by (nonlinear_arith)
        requires
            0 <= r,
            0 <= cols,
    ;
    assert((r + 1) * cols == r * cols + cols) by (nonlinear_arith);
}

} // verus!
