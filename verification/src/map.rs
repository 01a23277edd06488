//! Two-dimensional maps of items, stored row after row in one contiguous vector.
use vstd::prelude::*;

verus! {

/// A two-dimensional grid of items, indexed by `(x_index, y_index)`.
pub trait GridMap {
    type Item;

    /// The number of columns.
    spec fn spec_x_len(&self) -> nat;

    /// The number of rows.
    spec fn spec_y_len(&self) -> nat;

    /// The item at `(x, y)`.
    spec fn spec_get(&self, x: int, y: int) -> Self::Item;

    /// The internal consistency of the map.
    spec fn well_formed(&self) -> bool;

    fn x_len(&self) -> (x_len: usize)
        ensures
            x_len == self.spec_x_len(),
    ;

    fn y_len(&self) -> (y_len: usize)
        ensures
            y_len == self.spec_y_len(),
    ;

    /// The number of items, `x_len * y_len`.
    fn len(&self) -> (len: usize)
        requires
            self.well_formed(),
            self.spec_x_len() * self.spec_y_len() <= usize::MAX,
        ensures
            len == self.spec_x_len() * self.spec_y_len(),
    {
        self.x_len() * self.y_len()
    }

    /// The item at `(x_index, y_index)`.
    fn get(&self, x_index: usize, y_index: usize) -> (item: Self::Item)
        requires
            self.well_formed(),
            x_index < self.spec_x_len(),
            y_index < self.spec_y_len(),
        ensures
            item == self.spec_get(x_index as int, y_index as int),
    ;

    /// Replaces the item at `(x_index, y_index)`; all other items stay.
    fn set(&mut self, x_index: usize, y_index: usize, item: Self::Item)
        requires
            old(self).well_formed(),
            x_index < old(self).spec_x_len(),
            y_index < old(self).spec_y_len(),
        ensures
            final(self).well_formed(),
            final(self).spec_x_len() == old(self).spec_x_len(),
            final(self).spec_y_len() == old(self).spec_y_len(),
            final(self).spec_get(x_index as int, y_index as int) == item,
            forall|x: int, y: int|
                0 <= x < old(self).spec_x_len() && 0 <= y < old(self).spec_y_len() && (x
                    != x_index || y != y_index) ==> #[trigger] final(self).spec_get(x, y) == old(
                    self,
                ).spec_get(x, y),
    ;
}

/// Stores items in one contiguous vector, row after row: the item at `(x, y)` is at position
/// `y * x_len + x`.
#[derive(Debug)]
pub struct ArrayMap<T> {
    store: Vec<T>,
    x_len: usize,
    y_len: usize,
}

/// Positions of a row-major grid: `y * x_len + x` lies before `x_len * y_len`.
pub proof fn lemma_grid_index(x: int, y: int, x_len: int, y_len: int)
    requires
        0 <= x < x_len,
        0 <= y < y_len,
    ensures
        0 <= y * x_len + x < x_len * y_len,
{
    assert(y * x_len + x < x_len * y_len) by (nonlinear_arith)
        requires
            0 <= x < x_len,
            0 <= y < y_len,
    {
    }
    assert(0 <= y * x_len) by (nonlinear_arith)
        requires
            0 <= x_len,
            0 <= y,
    {
    }
}

/// Distinct cells of a row-major grid have distinct positions.
pub proof fn lemma_grid_index_distinct(x: int, y: int, a: int, b: int, x_len: int)
    requires
        0 <= x < x_len,
        0 <= a < x_len,
        0 <= y,
        0 <= b,
        x != a || y != b,
    ensures
        y * x_len + x != b * x_len + a,
{
    if y == b {
    } else if y < b {
        assert(y * x_len + x < b * x_len + a) by (nonlinear_arith)
            requires
                0 <= x < x_len,
                0 <= a,
                y < b,
        {
        }
    } else {
        assert(b * x_len + a < y * x_len + x) by (nonlinear_arith)
            requires
                0 <= a < x_len,
                0 <= x,
                b < y,
        {
        }
    }
}

impl<T: Copy + Default> ArrayMap<T> {
    /// The stored items, row after row.
    pub closed spec fn items(&self) -> Seq<T> {
        self.store@
    }

    /// A map of `x_len` by `y_len` items, all equal to one default item.
    pub fn new(x_len: usize, y_len: usize) -> (map: Self)
        requires
            x_len * y_len <= usize::MAX,
        ensures
            map.well_formed(),
            map.spec_x_len() == x_len,
            map.spec_y_len() == y_len,
            forall|x: int, y: int|
                0 <= x < x_len && 0 <= y < y_len ==> #[trigger] map.spec_get(x, y) == map.spec_get(
                    0,
                    0,
                ),
            forall|x: int, y: int|
                0 <= x < x_len && 0 <= y < y_len ==> call_ensures(
                    T::default,
                    (),
                    #[trigger] map.spec_get(x, y),
                ),
    {
        let n = x_len * y_len;
        let make_default = T::default;
        let item = make_default();
        let mut store: Vec<T> = Vec::new();
        let mut i: usize = 0;
        while i < n
            invariant
                i <= n,
                store@.len() == i,
                forall|k: int| 0 <= k < i ==> #[trigger] store@[k] == item,
                call_ensures(T::default, (), item),
            decreases n - i,
        {
            store.push(item);
            i = i + 1;
        }
        let map = ArrayMap { store, x_len, y_len };
        proof {
            assert forall|x: int, y: int| 0 <= x < x_len && 0 <= y < y_len implies #[trigger] map.spec_get(
                x,
                y,
            ) == map.spec_get(0, 0) by {
                lemma_grid_index(x, y, x_len as int, y_len as int);
                lemma_grid_index(0, 0, x_len as int, y_len as int);
            }
            assert forall|x: int, y: int| 0 <= x < x_len && 0 <= y < y_len implies call_ensures(
                T::default,
                (),
                #[trigger] map.spec_get(x, y),
            ) by {
                lemma_grid_index(x, y, x_len as int, y_len as int);
            }
        }
        map
    }

    /// A map of `x_len` by `y_len` items taken from `vec`, row after row.
    pub fn from_vec(x_len: usize, y_len: usize, vec: Vec<T>) -> (map: Self)
        requires
            vec@.len() == x_len * y_len,
        ensures
            map.well_formed(),
            map.spec_x_len() == x_len,
            map.spec_y_len() == y_len,
            map.items() == vec@,
            forall|x: int, y: int|
                0 <= x < x_len && 0 <= y < y_len ==> #[trigger] map.spec_get(x, y) == vec@[y
                    * x_len + x],
    {
        ArrayMap { store: vec, x_len, y_len }
    }
}

impl<T: Copy + Default> GridMap for ArrayMap<T> {
    type Item = T;

    closed spec fn spec_x_len(&self) -> nat {
        self.x_len as nat
    }

    closed spec fn spec_y_len(&self) -> nat {
        self.y_len as nat
    }

    closed spec fn spec_get(&self, x: int, y: int) -> T {
        self.items()[y * self.x_len + x]
    }

    closed spec fn well_formed(&self) -> bool {
        self.items().len() == self.x_len * self.y_len
    }

    fn x_len(&self) -> (x_len: usize) {
        self.x_len
    }

    fn y_len(&self) -> (y_len: usize) {
        self.y_len
    }

    fn len(&self) -> (len: usize) {
        self.store.len()
    }

    fn get(&self, x_index: usize, y_index: usize) -> (item: T) {
        let stored = self.store.len();
        proof {
            assert(stored == self.x_len * self.y_len);
            assert(y_index * self.x_len <= y_index * self.x_len + x_index);
            lemma_grid_index(x_index as int, y_index as int, self.x_len as int, self.y_len as int);
        }
        self.store[y_index * self.x_len + x_index]
    }

    fn set(&mut self, x_index: usize, y_index: usize, item: T) {
        let stored = self.store.len();
        proof {
            assert(stored == self.x_len * self.y_len);
            lemma_grid_index(x_index as int, y_index as int, self.x_len as int, self.y_len as int);
        }
        let index = y_index * self.x_len + x_index;
        let ghost before = *self;
        self.store.set(index, item);
        proof {
            assert forall|x: int, y: int|
                0 <= x < before.x_len && 0 <= y < before.y_len && (x != x_index || y != y_index)
                    implies #[trigger] self.spec_get(x, y) == before.spec_get(x, y) by {
                lemma_grid_index(x, y, self.x_len as int, self.y_len as int);
                lemma_grid_index_distinct(
                    x,
                    y,
                    x_index as int,
                    y_index as int,
                    self.x_len as int,
                );
            }
        }
    }
}

} // verus!
