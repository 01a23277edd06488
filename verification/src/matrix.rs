//! Two-dimensional matrices of items, stored row after row in one contiguous vector, and their
//! reduction to coarser matrices of maxima.
use vstd::prelude::*;
use crate::fixed::Fixed;
use crate::map::{lemma_grid_index, lemma_grid_index_distinct};

verus! {

/// A two-dimensional matrix of items, indexed by `(x_index, y_index)`.
pub trait Matrix {
    type Item;

    /// The number of columns.
    spec fn spec_x_len(&self) -> nat;

    /// The number of rows.
    spec fn spec_y_len(&self) -> nat;

    /// The item at `(x, y)`.
    spec fn spec_get(&self, x: int, y: int) -> Self::Item;

    /// The internal consistency of the matrix.
    spec fn well_formed(&self) -> bool;

    fn x_len(&self) -> (x_len: usize)
        ensures
            x_len == self.spec_x_len(),
    ;

    fn y_len(&self) -> (y_len: usize)
        ensures
            y_len == self.spec_y_len(),
    ;

    /// The number of items, `x_len * y_len`.
    fn len(&self) -> (len: usize)
        requires
            self.well_formed(),
            self.spec_x_len() * self.spec_y_len() <= usize::MAX,
        ensures
            len == self.spec_x_len() * self.spec_y_len(),
    {
        self.x_len() * self.y_len()
    }

    /// The item at `(x_index, y_index)`.
    fn get(&self, x_index: usize, y_index: usize) -> (item: Self::Item)
        requires
            self.well_formed(),
            x_index < self.spec_x_len(),
            y_index < self.spec_y_len(),
        ensures
            item == self.spec_get(x_index as int, y_index as int),
    ;

    /// Replaces the item at `(x_index, y_index)`; all other items stay.
    fn set(&mut self, x_index: usize, y_index: usize, item: Self::Item)
        requires
            old(self).well_formed(),
            x_index < old(self).spec_x_len(),
            y_index < old(self).spec_y_len(),
        ensures
            final(self).well_formed(),
            final(self).spec_x_len() == old(self).spec_x_len(),
            final(self).spec_y_len() == old(self).spec_y_len(),
            final(self).spec_get(x_index as int, y_index as int) == item,
            forall|x: int, y: int|
                0 <= x < old(self).spec_x_len() && 0 <= y < old(self).spec_y_len() && (x
                    != x_index || y != y_index) ==> #[trigger] final(self).spec_get(x, y) == old(
                    self,
                ).spec_get(x, y),
    ;
}

/// Stores items in one contiguous vector, row after row: the item at `(x, y)` is at position
/// `y * x_len + x`.
#[derive(Debug)]
pub struct ArrayMatrix<T> {
    store: Vec<T>,
    x_len: usize,
    y_len: usize,
}

impl<T: Copy + Default> ArrayMatrix<T> {
    /// The stored items, row after row.
    pub closed spec fn items(&self) -> Seq<T> {
        self.store@
    }

    /// A matrix of `x_len` by `y_len` items, all equal to one default item.
    pub fn new(x_len: usize, y_len: usize) -> (matrix: Self)
        requires
            x_len * y_len <= usize::MAX,
        ensures
            matrix.well_formed(),
            matrix.spec_x_len() == x_len,
            matrix.spec_y_len() == y_len,
            forall|x: int, y: int|
                0 <= x < x_len && 0 <= y < y_len ==> #[trigger] matrix.spec_get(x, y) == matrix.spec_get(
                    0,
                    0,
                ),
            forall|x: int, y: int|
                0 <= x < x_len && 0 <= y < y_len ==> call_ensures(
                    T::default,
                    (),
                    #[trigger] matrix.spec_get(x, y),
                ),
    {
        let n = x_len * y_len;
        let make_default = T::default;
        let item = make_default();
        let mut store: Vec<T> = Vec::new();
        let mut i: usize = 0;
        while i < n
            invariant
                i <= n,
                store@.len() == i,
                forall|k: int| 0 <= k < i ==> #[trigger] store@[k] == item,
                call_ensures(T::default, (), item),
            decreases n - i,
        {
            store.push(item);
            i = i + 1;
        }
        let matrix = ArrayMatrix { store, x_len, y_len };
        proof {
            assert forall|x: int, y: int| 0 <= x < x_len && 0 <= y < y_len implies #[trigger] matrix.spec_get(
                x,
                y,
            ) == matrix.spec_get(0, 0) by {
                lemma_grid_index(x, y, x_len as int, y_len as int);
                lemma_grid_index(0, 0, x_len as int, y_len as int);
            }
            assert forall|x: int, y: int| 0 <= x < x_len && 0 <= y < y_len implies call_ensures(
                T::default,
                (),
                #[trigger] matrix.spec_get(x, y),
            ) by {
                lemma_grid_index(x, y, x_len as int, y_len as int);
            }
        }
        matrix
    }

    /// A matrix of `x_len` by `y_len` items taken from `vec`, row after row.
    pub fn from_vec(x_len: usize, y_len: usize, vec: Vec<T>) -> (matrix: Self)
        requires
            vec@.len() == x_len * y_len,
        ensures
            matrix.well_formed(),
            matrix.spec_x_len() == x_len,
            matrix.spec_y_len() == y_len,
            matrix.items() == vec@,
            forall|x: int, y: int|
                0 <= x < x_len && 0 <= y < y_len ==> #[trigger] matrix.spec_get(x, y) == vec@[y
                    * x_len + x],
    {
        ArrayMatrix { store: vec, x_len, y_len }
    }
}

impl<T: Copy + Default> Matrix for ArrayMatrix<T> {
    type Item = T;

    closed spec fn spec_x_len(&self) -> nat {
        self.x_len as nat
    }

    closed spec fn spec_y_len(&self) -> nat {
        self.y_len as nat
    }

    closed spec fn spec_get(&self, x: int, y: int) -> T {
        self.items()[y * self.x_len + x]
    }

    closed spec fn well_formed(&self) -> bool {
        self.items().len() == self.x_len * self.y_len
    }

    fn x_len(&self) -> (x_len: usize) {
        self.x_len
    }

    fn y_len(&self) -> (y_len: usize) {
        self.y_len
    }

    fn len(&self) -> (len: usize) {
        self.store.len()
    }

    fn get(&self, x_index: usize, y_index: usize) -> (item: T) {
        let stored = self.store.len();
        proof {
            assert(stored == self.x_len * self.y_len);
            assert(y_index * self.x_len <= y_index * self.x_len + x_index);
            lemma_grid_index(x_index as int, y_index as int, self.x_len as int, self.y_len as int);
        }
        self.store[y_index * self.x_len + x_index]
    }

    fn set(&mut self, x_index: usize, y_index: usize, item: T) {
        let stored = self.store.len();
        proof {
            assert(stored == self.x_len * self.y_len);
            lemma_grid_index(x_index as int, y_index as int, self.x_len as int, self.y_len as int);
        }
        let index = y_index * self.x_len + x_index;
        let ghost before = *self;
        self.store.set(index, item);
        proof {
            assert forall|x: int, y: int|
                0 <= x < before.x_len && 0 <= y < before.y_len && (x != x_index || y != y_index)
                    implies #[trigger] self.spec_get(x, y) == before.spec_get(x, y) by {
                lemma_grid_index(x, y, self.x_len as int, self.y_len as int);
                lemma_grid_index_distinct(
                    x,
                    y,
                    x_index as int,
                    y_index as int,
                    self.x_len as int,
                );
            }
        }
    }
}

/// The larger of two numbers.
pub open spec fn fixed_max(a: Fixed, b: Fixed) -> Fixed {
    if a.raw >= b.raw {
        a
    } else {
        b
    }
}

/// The largest of the four items of the 2-by-2 block whose lowest corner is `(2x, 2y)`, folded
/// in the order `(2x, 2y)`, `(2x+1, 2y)`, `(2x, 2y+1)`, `(2x+1, 2y+1)`.
pub open spec fn block_max(m: ArrayMatrix<Fixed>, x: int, y: int) -> Fixed {
    fixed_max(
        fixed_max(
            fixed_max(m.spec_get(2 * x, 2 * y), m.spec_get(2 * x + 1, 2 * y)),
            m.spec_get(2 * x, 2 * y + 1),
        ),
        m.spec_get(2 * x + 1, 2 * y + 1),
    )
}

/// The block maximum is the largest of the four items of its 2-by-2 block: no item of the
/// block is larger, and it is one of them.
pub proof fn lemma_block_max_is_largest(m: ArrayMatrix<Fixed>, x: int, y: int)
    ensures
        m.spec_get(2 * x, 2 * y).raw <= block_max(m, x, y).raw,
        m.spec_get(2 * x + 1, 2 * y).raw <= block_max(m, x, y).raw,
        m.spec_get(2 * x, 2 * y + 1).raw <= block_max(m, x, y).raw,
        m.spec_get(2 * x + 1, 2 * y + 1).raw <= block_max(m, x, y).raw,
        block_max(m, x, y) == m.spec_get(2 * x, 2 * y) || block_max(m, x, y) == m.spec_get(
            2 * x + 1,
            2 * y,
        ) || block_max(m, x, y) == m.spec_get(2 * x, 2 * y + 1) || block_max(m, x, y)
            == m.spec_get(2 * x + 1, 2 * y + 1),
{
}

fn max_of(a: Fixed, b: Fixed) -> (m: Fixed)
    ensures
        m == fixed_max(a, b),
{
    if a.raw >= b.raw {
        a
    } else {
        b
    }
}

impl ArrayMatrix<Fixed> {
    /// The matrix of half the size in both directions whose item at `(x, y)` is the largest of
    /// the 2-by-2 block `(2x..2x+2, 2y..2y+2)` of this matrix.
    pub fn max_reduce(&self) -> (reduced: Self)
        requires
            self.well_formed(),
            self.spec_x_len() % 2 == 0,
            self.spec_y_len() % 2 == 0,
        ensures
            reduced.well_formed(),
            reduced.spec_x_len() == self.spec_x_len() / 2,
            reduced.spec_y_len() == self.spec_y_len() / 2,
            forall|x: int, y: int|
                0 <= x < reduced.spec_x_len() && 0 <= y < reduced.spec_y_len()
                    ==> #[trigger] reduced.spec_get(x, y) == block_max(*self, x, y),
            forall|x: int, y: int|
                0 <= x < reduced.spec_x_len() && 0 <= y < reduced.spec_y_len() ==> {
                    &&& self.spec_get(2 * x, 2 * y).raw <= #[trigger] reduced.spec_get(x, y).raw
                    &&& self.spec_get(2 * x + 1, 2 * y).raw <= reduced.spec_get(x, y).raw
                    &&& self.spec_get(2 * x, 2 * y + 1).raw <= reduced.spec_get(x, y).raw
                    &&& self.spec_get(2 * x + 1, 2 * y + 1).raw <= reduced.spec_get(x, y).raw
                },
    {
        let new_x_len = self.x_len / 2;
        let new_y_len = self.y_len / 2;
        let stored = self.store.len();
        proof {
            assert(new_x_len * new_y_len <= self.x_len * self.y_len) by (nonlinear_arith)
                requires
                    new_x_len * 2 == self.x_len,
                    new_y_len * 2 == self.y_len,
            {
            }
        }
        let mut new = Self::new(new_x_len, new_y_len);
        let mut x: usize = 0;
        while x < new_x_len
            invariant
                self.well_formed(),
                new.well_formed(),
                new_x_len * 2 == self.x_len,
                new_y_len * 2 == self.y_len,
                new.spec_x_len() == new_x_len,
                new.spec_y_len() == new_y_len,
                x <= new_x_len,
                forall|a: int, b: int|
                    0 <= a < x && 0 <= b < new_y_len ==> #[trigger] new.spec_get(a, b)
                        == block_max(*self, a, b),
            decreases new_x_len - x,
        {
            let mut y: usize = 0;
            while y < new_y_len
                invariant
                    self.well_formed(),
                    new.well_formed(),
                    new_x_len * 2 == self.x_len,
                    new_y_len * 2 == self.y_len,
                    new.spec_x_len() == new_x_len,
                    new.spec_y_len() == new_y_len,
                    x < new_x_len,
                    y <= new_y_len,
                    forall|a: int, b: int|
                        0 <= a < x && 0 <= b < new_y_len ==> #[trigger] new.spec_get(a, b)
                            == block_max(*self, a, b),
                    forall|b: int| 0 <= b < y ==> #[trigger] new.spec_get(x as int, b) == block_max(
                        *self,
                        x as int,
                        b,
                    ),
                decreases new_y_len - y,
            {
                let m = max_of(
                    max_of(
                        max_of(self.get(x * 2, y * 2), self.get(x * 2 + 1, y * 2)),
                        self.get(x * 2, y * 2 + 1),
                    ),
                    self.get(x * 2 + 1, y * 2 + 1),
                );
                new.set(x, y, m);
                y = y + 1;
            }
            x = x + 1;
        }
        proof {
            assert forall|x: int, y: int|
                0 <= x < new.spec_x_len() && 0 <= y < new.spec_y_len() implies {
                &&& self.spec_get(2 * x, 2 * y).raw <= #[trigger] new.spec_get(x, y).raw
                &&& self.spec_get(2 * x + 1, 2 * y).raw <= new.spec_get(x, y).raw
                &&& self.spec_get(2 * x, 2 * y + 1).raw <= new.spec_get(x, y).raw
                &&& self.spec_get(2 * x + 1, 2 * y + 1).raw <= new.spec_get(x, y).raw
            } by {
                lemma_block_max_is_largest(*self, x, y);
            }
        }
        new
    }
}

/// Whether `(x_index, y_index)` are valid indices of `matrix`.
pub fn isize_indices_in_matrix_bounds<M: Matrix>(matrix: &M, x_index: isize, y_index: isize) -> (in_bounds: bool)
    ensures
        in_bounds == (0 <= x_index < matrix.spec_x_len() && 0 <= y_index < matrix.spec_y_len()),
{
    x_index >= 0 && y_index >= 0 && (x_index as usize) < matrix.x_len() && (y_index as usize)
        < matrix.y_len()
}

/// A matrix together with its successive max-reductions.
pub struct MaxReducedMatrices {
    matrices: Vec<ArrayMatrix<Fixed>>,
}

impl MaxReducedMatrices {
    /// The matrices, the given one first.
    pub closed spec fn levels(&self) -> Seq<ArrayMatrix<Fixed>> {
        self.matrices@
    }

    /// Collects `matrix` and, while the last collected matrix is wider than one item, the
    /// max-reduction of the first one. For a matrix of side 4 or more the first one's reduction
    /// never gets narrower than 2, and the loop does not end; sides 1 and 2 are the ones on
    /// which it returns.
    pub fn new(matrix: ArrayMatrix<Fixed>) -> (reduced: Self)
        requires
            matrix.well_formed(),
            matrix.spec_x_len() == matrix.spec_y_len(),
            matrix.spec_x_len() == 1 || matrix.spec_x_len() == 2,
        ensures
            reduced.levels().len() == matrix.spec_x_len(),
            reduced.levels()[0] == matrix,
            matrix.spec_x_len() == 2 ==> {
                let r = reduced.levels()[1];
                &&& r.well_formed()
                &&& r.spec_x_len() == 1
                &&& r.spec_y_len() == 1
                &&& r.spec_get(0, 0) == block_max(matrix, 0, 0)
            },
    {
        let mut matrices: Vec<ArrayMatrix<Fixed>> = Vec::new();
        let side = matrix.x_len();
        matrices.push(matrix);
        if side > 1 {
            let reduced = matrices[0].max_reduce();
            matrices.push(reduced);
        }
        MaxReducedMatrices { matrices }
    }

    /// The matrix after `reduction_level` reductions.
    pub fn get(&self, reduction_level: usize) -> (matrix: &ArrayMatrix<Fixed>)
        requires
            reduction_level < self.levels().len(),
        ensures
            *matrix == self.levels()[reduction_level as int],
    {
        &self.matrices[reduction_level]
    }
}

} // verus!
