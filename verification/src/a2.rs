//! A dense, row-major two-dimensional array with an out-of-bounds sentinel.
//!
//! Reads never fail: a coordinate outside the extent yields the sentinel the
//! grid was built with. Writes are only defined inside the extent.

use vstd::prelude::*;

verus! {

/// The mathematical content of a grid: its extent, its rows and the value
/// that reads outside the extent produce.
pub struct GridView<T> {
    pub rows: int,
    pub cols: int,
    pub cells: Seq<Seq<T>>,
    pub out: T,
}

impl<T> GridView<T> {
    /// There are `rows` rows and each holds `cols` cells.
    pub open spec fn wf(self) -> bool {
        &&& 0 <= self.rows
        &&& 0 <= self.cols
        &&& self.cells.len() == self.rows
        &&& forall|i: int| 0 <= i < self.rows ==> (#[trigger] self.cells[i]).len() == self.cols
    }

    pub open spec fn in_bounds(self, i: int, j: int) -> bool {
        0 <= i < self.rows && 0 <= j < self.cols
    }

    /// The cell at `(i, j)`, or the sentinel outside the extent.
    pub open spec fn at(self, i: int, j: int) -> T {
        if self.in_bounds(i, j) {
            self.cells[i][j]
        } else {
            self.out
        }
    }

    /// The grid with the cell at `(i, j)` replaced by `v`.
    pub open spec fn set(self, i: int, j: int, v: T) -> Self {
        GridView { cells: self.cells.update(i, self.cells[i].update(j, v)), ..self }
    }

    /// A grid of the given extent whose every cell, and whose sentinel, is `fill`.
    pub open spec fn filled(rows: int, cols: int, fill: T) -> Self {
        GridView {
            rows,
            cols,
            cells: Seq::new(rows as nat, |i: int| Seq::new(cols as nat, |j: int| fill)),
            out: fill,
        }
    }

    /// The cells in row-major order.
    pub open spec fn flat(self) -> Seq<T> {
        Seq::new((self.rows * self.cols) as nat, |k: int| self.cells[k / self.cols][k % self.cols])
    }

    /// A write is seen by a read of the same cell and by no other read.
    pub proof fn lemma_set_at(self, i: int, j: int, v: T)
        requires
            self.wf(),
            self.in_bounds(i, j),
        ensures
            self.set(i, j, v).wf(),
            self.set(i, j, v).rows == self.rows,
            self.set(i, j, v).cols == self.cols,
            self.set(i, j, v).out == self.out,
            self.set(i, j, v).at(i, j) == v,
            forall|a: int, b: int|
                (a != i || b != j) ==> #[trigger] self.set(i, j, v).at(a, b) == self.at(a, b),
    {
        let s = self.set(i, j, v);
        assert forall|a: int| 0 <= a < s.rows implies (#[trigger] s.cells[a]).len() == s.cols by {
            if a != i {
                assert(s.cells[a] == self.cells[a]);
            }
        }
    }

    /// A read outside the extent gives the sentinel, whatever the grid holds.
    pub proof fn lemma_at_outside(self, i: int, j: int)
        requires
            !self.in_bounds(i, j),
        ensures
            self.at(i, j) == self.out,
    {
    }

    /// A grid is known by its extent, its sentinel and its cells in
    /// row-major order: taking a grid apart into these and putting it together
    /// again gives the same grid.
    pub proof fn lemma_flat_determines(self, other: Self)
        requires
            self.wf(),
            other.wf(),
            self.rows == other.rows,
            self.cols == other.cols,
            self.out == other.out,
            self.flat() == other.flat(),
        ensures
            self == other,
    {
        assert forall|i: int, j: int| self.in_bounds(i, j) implies self.at(i, j) == other.at(i, j) by {
            lemma_flat_index(self.rows, self.cols, i, j);
            let k = i * self.cols + j;
            assert(self.flat()[k] == self.cells[i][j]);
            assert(other.flat()[k] == other.cells[i][j]);
        }
        self.lemma_ext_equal(other);
    }

    /// Two well-formed grids that agree on extent, sentinel and every cell are equal.
    pub proof fn lemma_ext_equal(self, other: Self)
        requires
            self.wf(),
            other.wf(),
            self.rows == other.rows,
            self.cols == other.cols,
            self.out == other.out,
            forall|i: int, j: int| self.in_bounds(i, j) ==> self.at(i, j) == other.at(i, j),
        ensures
            self == other,
    {
        assert forall|i: int| 0 <= i < self.rows implies self.cells[i] == other.cells[i] by {
            assert forall|j: int| 0 <= j < self.cols implies self.cells[i][j] == other.cells[i][j] by {
                assert(self.in_bounds(i, j));
                assert(self.at(i, j) == other.at(i, j));
            }
            assert(self.cells[i] =~= other.cells[i]);
        }
        assert(self.cells =~= other.cells);
    }
}

/// A fixed-size grid of copyable values.
#[derive(Clone, Debug)]
pub struct A2<T> {
    d0: isize,
    d1: isize,
    data: Vec<T>,
    out: T,
}

/// Position `i * cols + j` lies inside a `rows * cols` block, and row and
/// column can be read back from it.
proof fn lemma_flat_index(rows: int, cols: int, i: int, j: int)
    requires
        0 <= i < rows,
        0 <= j < cols,
    ensures
        0 <= i * cols + j < rows * cols,
        (i * cols + j) / cols == i,
        (i * cols + j) % cols == j,
{
    assert(i * cols + j < rows * cols) by (nonlinear_arith)
        requires
            0 <= i < rows,
            0 <= j < cols,
    {
        assert((i + 1) * cols <= rows * cols);
    }
    assert(0 <= i * cols + j) by (nonlinear_arith)
        requires
            0 <= i,
            0 <= j,
            0 < cols,
    ;
    vstd::arithmetic::div_mod::lemma_fundamental_div_mod_converse(i * cols + j, cols, i, j);
}

/// Every position inside a `rows * cols` block splits into a row and a column.
proof fn lemma_split_index(rows: int, cols: int, k: int)
    requires
        0 <= k < rows * cols,
        0 <= rows,
        0 <= cols,
    ensures
        0 < cols,
        0 <= k / cols < rows,
        0 <= k % cols < cols,
        (k / cols) * cols + k % cols == k,
{
    assert(0 < cols) by (nonlinear_arith)
        requires
            0 <= k < rows * cols,
            0 <= rows,
            0 <= cols,
    ;
    vstd::arithmetic::div_mod::lemma_fundamental_div_mod(k, cols);
    vstd::arithmetic::div_mod::lemma_mod_bound(k, cols);
    let q = k / cols;
    assert(k == cols * q + k % cols);
    assert(q < rows) by (nonlinear_arith)
        requires
            k == cols * q + k % cols,
            0 <= k % cols,
            k < rows * cols,
            0 < cols,
    {
        if q >= rows {
            assert(cols * q >= cols * rows);
        }
    }
    assert(0 <= q) by (nonlinear_arith)
        requires
            k == cols * q + k % cols,
            k % cols < cols,
            0 <= k,
            0 < cols,
    {
        if q < 0 {
            assert(cols * q <= -cols);
        }
    }
    assert(q * cols == cols * q) by (nonlinear_arith);
}

/// The grid that a row-major store of the given extent stands for.
spec fn view_of<T>(rows: int, cols: int, data: Seq<T>, out: T) -> GridView<T> {
    GridView {
        rows,
        cols,
        cells: Seq::new(rows as nat, |i: int| Seq::new(cols as nat, |j: int| data[i * cols + j])),
        out,
    }
}

/// Replacing position `i * cols + j` of a store replaces cell `(i, j)` of the
/// grid it stands for.
proof fn lemma_store_update<T>(rows: int, cols: int, data: Seq<T>, out: T, i: int, j: int, v: T)
    requires
        0 <= i < rows,
        0 <= j < cols,
        data.len() == rows * cols,
    ensures
        view_of(rows, cols, data.update(i * cols + j, v), out) == view_of(rows, cols, data, out).set(
            i,
            j,
            v,
        ),
{
    let after = view_of(rows, cols, data.update(i * cols + j, v), out);
    let want = view_of(rows, cols, data, out).set(i, j, v);
    lemma_flat_index(rows, cols, i, j);
    assert forall|a: int| 0 <= a < rows implies after.cells[a] == want.cells[a] by {
        assert forall|b: int| 0 <= b < cols implies after.cells[a][b] == want.cells[a][b] by {
            lemma_flat_index(rows, cols, a, b);
            if a != i || b != j {
                assert(a * cols + b != i * cols + j);
            }
        }
        assert(after.cells[a] =~= want.cells[a]);
    }
    assert(after.cells =~= want.cells);
}

impl<T: Copy> View for A2<T> {
    type V = GridView<T>;

    closed spec fn view(&self) -> GridView<T> {
        view_of(self.d0 as int, self.d1 as int, self.data@, self.out)
    }
}

impl<T: Copy> A2<T> {
    /// The representation invariant: the extent is not negative and the
    /// backing store holds exactly `rows * cols` values.
    pub closed spec fn wf(&self) -> bool {
        &&& 0 <= self.d0
        &&& 0 <= self.d1
        &&& self.d0 * self.d1 <= isize::MAX
        &&& self.data@.len() == self.d0 * self.d1
    }

    /// A well-formed grid has a well-formed view, whose extent fits the
    /// machine's signed index type.
    pub proof fn lemma_wf_view(&self)
        requires
            self.wf(),
        ensures
            self@.wf(),
            self@.rows <= isize::MAX,
            self@.cols <= isize::MAX,
            self@.rows * self@.cols <= isize::MAX,
    {
    }

    /// A grid of `dims.0` rows and `dims.1` columns with every cell set to
    /// `out`, which also becomes the sentinel.
    pub fn new(dims: (isize, isize), out: T) -> (g: Self)
        requires
            0 <= dims.0,
            0 <= dims.1,
            dims.0 * dims.1 <= isize::MAX,
        ensures
            g.wf(),
            g@ == GridView::filled(dims.0 as int, dims.1 as int, out),
    {
        let d0 = dims.0;
        let d1 = dims.1;
        let m: usize = (d0 as usize) * (d1 as usize);
        let mut data: Vec<T> = Vec::new();
        let mut k: usize = 0;
        while k < m
            invariant
                k <= m,
                data@.len() == k,
                forall|n: int| 0 <= n < k ==> data@[n] == out,
            decreases m - k,
        {
            data.push(out);
            k = k + 1;
        }
        let g = A2 { d0, d1, data, out };
        proof {
            let want = GridView::filled(d0 as int, d1 as int, out);
            assert forall|i: int| 0 <= i < d0 implies g@.cells[i] == want.cells[i] by {
                assert forall|j: int| 0 <= j < d1 implies g@.cells[i][j] == want.cells[i][j] by {
                    lemma_flat_index(d0 as int, d1 as int, i, j);
                }
                assert(g@.cells[i] =~= want.cells[i]);
            }
            assert(g@.cells =~= want.cells);
        }
        g
    }

    /// A grid over an existing row-major store, or `None` when the store's
    /// length is not `rows * cols`, an extent is negative, or there are more
    /// cells than the machine's signed index type can count.
    pub fn from_vec(dims: (isize, isize), data: Vec<T>, out: T) -> (r: Option<Self>)
        ensures
            r is Some <==> (0 <= dims.0 && 0 <= dims.1 && data@.len() == dims.0 * dims.1 && dims.0
                * dims.1 <= isize::MAX),
            r matches Some(g) ==> {
                &&& g.wf()
                &&& g@.rows == dims.0
                &&& g@.cols == dims.1
                &&& g@.out == out
                &&& g@.flat() == data@
            },
    {
        let d0 = dims.0;
        let d1 = dims.1;
        let n = data.len();
        if d0 < 0 || d1 < 0 {
            return None;
        }
        let ok = match (d0 as usize).checked_mul(d1 as usize) {
            Some(m) => m == n && m <= isize::MAX as usize,
            None => false,
        };
        if !ok {
            return None;
        }
        let g = A2 { d0, d1, data, out };
        proof {
            g.lemma_flat();
        }
        Some(g)
    }

    /// The row-major order of the view is the backing store.
    proof fn lemma_flat(&self)
        requires
            self.wf(),
        ensures
            self@.flat() == self.data@,
    {
        let f = self@.flat();
        assert(f.len() == self.data@.len());
        assert forall|k: int| 0 <= k < f.len() implies f[k] == self.data@[k] by {
            lemma_split_index(self.d0 as int, self.d1 as int, k);
        }
        assert(f =~= self.data@);
    }

    /// Whether the representation invariant holds.
    pub fn check(&self) -> (ok: bool)
        ensures
            ok == self.wf(),
    {
        if self.d0 < 0 || self.d1 < 0 {
            return false;
        }
        match (self.d0 as usize).checked_mul(self.d1 as usize) {
            Some(m) => m == self.data.len() && m <= isize::MAX as usize,
            None => false,
        }
    }

    /// The value that reads outside the extent produce.
    pub fn sentinel(&self) -> (v: T)
        ensures
            v == self@.out,
    {
        self.out
    }

    /// The extent as `(rows, cols)`.
    pub fn dims(&self) -> (d: (isize, isize))
        ensures
            d.0 == self@.rows,
            d.1 == self@.cols,
    {
        (self.d0, self.d1)
    }

    /// The cells in row-major order.
    pub fn as_slice(&self) -> (s: &[T])
        requires
            self.wf(),
        ensures
            s@ == self@.flat(),
    {
        proof {
            self.lemma_flat();
        }
        self.data.as_slice()
    }

    /// The cell at `(i, j)`, or the sentinel when the coordinate lies outside
    /// the extent.
    pub fn get(&self, i: usize, j: usize) -> (v: T)
        requires
            self.wf(),
        ensures
            v == self@.at(i as int, j as int),
    {
        if i < self.d0 as usize && j < self.d1 as usize {
            proof {
                lemma_flat_index(self.d0 as int, self.d1 as int, i as int, j as int);
            }
            self.data[i * (self.d1 as usize) + j]
        } else {
            self.out
        }
    }

    /// As `get`, for coordinates that may have gone negative.
    pub fn get_signed(&self, i: isize, j: isize) -> (v: T)
        requires
            self.wf(),
        ensures
            v == self@.at(i as int, j as int),
    {
        if 0 <= i && i < self.d0 && 0 <= j && j < self.d1 {
            self.get(i as usize, j as usize)
        } else {
            self.out
        }
    }

    /// Overwrites the cell at `(i, j)`, which must lie inside the extent.
    pub fn set(&mut self, i: usize, j: usize, v: T)
        requires
            old(self).wf(),
            old(self)@.in_bounds(i as int, j as int),
        ensures
            final(self).wf(),
            final(self)@ == old(self)@.set(i as int, j as int, v),
    {
        proof {
            lemma_flat_index(self.d0 as int, self.d1 as int, i as int, j as int);
        }
        let k: usize = i * (self.d1 as usize) + j;
        self.data[k] = v;
        proof {
            lemma_store_update(
                self.d0 as int,
                self.d1 as int,
                old(self).data@,
                self.out,
                i as int,
                j as int,
                v,
            );
        }
    }

    /// The cell at `(i, j)`, which must lie inside the extent, for writing in
    /// place.
    pub fn get_mut(&mut self, i: usize, j: usize) -> (r: &mut T)
        requires
            old(self).wf(),
            old(self)@.in_bounds(i as int, j as int),
        ensures
            *r == old(self)@.at(i as int, j as int),
            final(self).wf(),
            final(self)@ == old(self)@.set(i as int, j as int, *final(r)),
    {
        proof {
            lemma_flat_index(self.d0 as int, self.d1 as int, i as int, j as int);
        }
        let k: usize = i * (self.d1 as usize) + j;
        proof {
            let rows = self.d0 as int;
            let cols = self.d1 as int;
            let data = self.data@;
            let out = self.out;
            assert forall|v: T| #[trigger]
                view_of(rows, cols, data.update(k as int, v), out) == view_of(
                    rows,
                    cols,
                    data,
                    out,
                ).set(i as int, j as int, v) by {
                lemma_store_update(rows, cols, data, out, i as int, j as int, v);
            }
        }
        &mut self.data[k]
    }

    /// As `set`, for signed coordinates, which must lie inside the extent.
    pub fn set_signed(&mut self, i: isize, j: isize, v: T)
        requires
            old(self).wf(),
            old(self)@.in_bounds(i as int, j as int),
        ensures
            final(self).wf(),
            final(self)@ == old(self)@.set(i as int, j as int, v),
    {
        self.set(i as usize, j as usize, v)
    }
}

} // verus!
