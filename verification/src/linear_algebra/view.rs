use vstd::prelude::*;
use vstd::std_specs::ops::{AddSpec, MulSpec};

use crate::error::LinalgError;
use crate::scalar::Numeric;

verus! {

/// The `rows`×`cols` matrix whose rows lie one after the other at the front of `values`.
pub open spec fn row_major<T>(values: Seq<T>, rows: nat, cols: nat) -> Seq<Seq<T>> {
    Seq::new(rows, |row: int| Seq::new(cols, |col: int| values[row * cols + col]))
}

/// The sum of the first `count` products of `left` and `right`, added up from zero in order.
pub open spec fn inner_product<T: Numeric>(left: Seq<T>, right: Seq<T>, count: nat) -> T
    decreases count,
{
    if count == 0 {
        T::ZERO
    } else {
        let last = count - 1;
        inner_product(left, right, last as nat).add_spec(left[last].mul_spec(right[last]))
    }
}

/// A place in a row-major matrix lies within its values, and so does the row it belongs to.
pub(crate) proof fn lemma_row_in_bounds(row: int, rows: int, cols: int)
    requires
        0 <= row < rows,
        0 <= cols,
    ensures
        0 <= row * cols,
        row * cols + cols <= rows * cols,
{
    assert(0 <= row * cols && row * cols + cols <= rows * cols) by (nonlinear_arith)
        requires
            0 <= row < rows,
            0 <= cols,
    ;
}

/// `N` components borrowed from a slice.
#[derive(Debug)]
#[must_use]
pub struct VectorView<'data, const N: usize, T> {
    values: &'data [T],
}

/// A `ROWS`×`COLS` matrix borrowed from a slice that holds it row by row.
#[derive(Debug)]
#[must_use]
pub struct MatrixView<'data, const ROWS: usize, const COLS: usize, T> {
    values: &'data [T],
}

// Written out: a derived impl would ask for `T: Clone`, but only the handle is copied.
impl<'data, const N: usize, T> Clone for VectorView<'data, N, T> {
    #[inline]
    fn clone(&self) -> (copy: Self)
        ensures
            copy == *self,
    {
        *self
    }
}

impl<'data, const N: usize, T> Copy for VectorView<'data, N, T> {

}

impl<'data, const ROWS: usize, const COLS: usize, T> Clone for MatrixView<'data, ROWS, COLS, T> {
    #[inline]
    fn clone(&self) -> (copy: Self)
        ensures
            copy == *self,
    {
        *self
    }
}

impl<'data, const ROWS: usize, const COLS: usize, T> Copy for MatrixView<'data, ROWS, COLS, T> {

}

impl<'data, const N: usize, T> View for VectorView<'data, N, T> {
    type V = Seq<T>;

    closed spec fn view(&self) -> Seq<T> {
        self.values@
    }
}

impl<'data, const ROWS: usize, const COLS: usize, T> View for MatrixView<'data, ROWS, COLS, T> {
    type V = Seq<Seq<T>>;

    closed spec fn view(&self) -> Seq<Seq<T>> {
        row_major(self.values@, ROWS as nat, COLS as nat)
    }
}

impl<'data, const N: usize, T> VectorView<'data, N, T> {
    /// A vector view has `N` components.
    #[verifier::type_invariant]
    pub open spec fn well_formed(self) -> bool {
        self@.len() == N
    }

    /// The components of an array.
    #[inline]
    pub(crate) fn of_array(components: &'data [T; N]) -> (vector: Self)
        ensures
            vector@ == components@,
    {
        VectorView { values: components.as_slice() }
    }

    /// The first `N` values of `values`, or `OutOfBounds` if there are fewer. Trailing values are
    /// ignored.
    #[inline]
    pub fn try_from_slice(values: &'data [T]) -> (result: Result<Self, LinalgError>)
        ensures
            match result {
                Ok(vector) => N <= values@.len() && vector@ == values@.take(N as int),
                Err(error) => values@.len() < N && error == LinalgError::OutOfBounds,
            },
    {
        if N <= values.len() {
            let (front, _) = values.split_at(N);
            Ok(VectorView { values: front })
        } else {
            Err(LinalgError::OutOfBounds)
        }
    }

    /// The component at `index`, or `OutOfBounds` if there is none.
    #[inline]
    pub fn try_get(&self, index: usize) -> (result: Result<&'data T, LinalgError>)
        ensures
            match result {
                Ok(component) => index < N && *component == self@[index as int],
                Err(error) => N <= index && error == LinalgError::OutOfBounds,
            },
    {
        proof {
            use_type_invariant(self);
        }
        if index < N {
            Ok(&self.values[index])
        } else {
            Err(LinalgError::OutOfBounds)
        }
    }
}

impl<'data, const N: usize, T: Numeric> VectorView<'data, N, T> {
    /// The inner product with `other`.
    #[inline]
    pub fn dot(self, other: VectorView<'_, N, T>) -> (sum: T)
        ensures
            sum == inner_product(self@, other@, N as nat),
    {
        proof {
            use_type_invariant(&self);
            use_type_invariant(&other);
            T::lawful();
        }
        let mut sum = T::ZERO;
        for index in 0..N
            invariant
                self.values@.len() == N,
                other.values@.len() == N,
                T::obeys_add_spec(),
                forall|left: T, right: T| #[trigger] left.add_req(right),
                T::obeys_mul_spec(),
                forall|left: T, right: T| #[trigger] left.mul_req(right),
                sum == inner_product(self@, other@, index as nat),
        {
            sum = sum + self.values[index] * other.values[index];
        }
        sum
    }
}

impl<'data, const ROWS: usize, const COLS: usize, T> MatrixView<'data, ROWS, COLS, T> {
    /// The borrowed values are exactly those of the matrix.
    pub closed spec fn fills(self) -> bool {
        self.values@.len() == ROWS * COLS
    }

    /// A matrix view has `ROWS` rows of `COLS` entries each.
    #[verifier::type_invariant]
    pub open spec fn well_formed(self) -> bool {
        &&& self.fills()
        &&& self@.len() == ROWS
        &&& forall|row: int| 0 <= row < ROWS ==> (#[trigger] self@[row]).len() == COLS
    }

    /// The first `ROWS`×`COLS` values of `values`, row by row, or `OutOfBounds` if there are
    /// fewer. Trailing values are ignored.
    #[inline]
    pub fn try_from_row_major_slice(values: &'data [T]) -> (result: Result<Self, LinalgError>)
        ensures
            match result {
                Ok(matrix) => {
                    &&& ROWS * COLS <= values@.len()
                    &&& matrix@ == row_major(values@, ROWS as nat, COLS as nat)
                },
                Err(error) => values@.len() < ROWS * COLS && error == LinalgError::OutOfBounds,
            },
    {
        let available: usize = values.len();
        match ROWS.checked_mul(COLS) {
            Some(count) if count <= available => {
                let (front, _) = values.split_at(count);
                proof {
                    assert(front@.take(count as int) =~= values@.take(count as int));
                    lemma_row_major_prefix(values@, front@, ROWS as nat, COLS as nat);
                }
                Ok(MatrixView { values: front })
            },
            _ => Err(LinalgError::OutOfBounds),
        }
    }

    /// The entry at `row` and `col`, or `OutOfBounds` if there is none.
    #[inline]
    pub fn try_get(&self, row: usize, col: usize) -> (result: Result<&'data T, LinalgError>)
        ensures
            match result {
                Ok(entry) => row < ROWS && col < COLS && *entry == self@[row as int][col as int],
                Err(error) => (ROWS <= row || COLS <= col) && error == LinalgError::OutOfBounds,
            },
    {
        if row < ROWS && col < COLS {
            proof {
                use_type_invariant(self);
                assert(self.values.len() == ROWS * COLS);
                lemma_row_in_bounds(row as int, ROWS as int, COLS as int);
            }
            Ok(&self.values[row * COLS + col])
        } else {
            Err(LinalgError::OutOfBounds)
        }
    }

    /// One row, or `OutOfBounds` if there is none at `row`.
    #[inline]
    pub fn try_row(&self, row: usize) -> (result: Result<VectorView<'data, COLS, T>, LinalgError>)
        ensures
            match result {
                Ok(values) => row < ROWS && values@ == self@[row as int],
                Err(error) => ROWS <= row && error == LinalgError::OutOfBounds,
            },
    {
        if row < ROWS {
            proof {
                use_type_invariant(self);
                assert(self.values.len() == ROWS * COLS);
                lemma_row_in_bounds(row as int, ROWS as int, COLS as int);
            }
            let (_, from_row) = self.values.split_at(row * COLS);
            let (values, _) = from_row.split_at(COLS);
            assert(values@ =~= self@[row as int]);
            Ok(VectorView { values })
        } else {
            Err(LinalgError::OutOfBounds)
        }
    }
}

/// A row-major matrix is read from the front of its values alone.
pub(crate) proof fn lemma_row_major_prefix<T>(
    values: Seq<T>,
    front: Seq<T>,
    rows: nat,
    cols: nat,
)
    requires
        rows * cols <= values.len(),
        rows * cols <= front.len(),
        front.take((rows * cols) as int) == values.take((rows * cols) as int),
    ensures
        row_major(front, rows, cols) == row_major(values, rows, cols),
{
    let count = (rows * cols) as int;
    assert forall|row: int, col: int| 0 <= row < rows && 0 <= col < cols implies #[trigger] front[row
        * cols + col] == values[row * cols + col] by {
        lemma_row_in_bounds(row, rows as int, cols as int);
        assert(front.take(count)[row * cols + col] == values.take(count)[row * cols + col]);
    }
    assert forall|row: int| 0 <= row < rows implies #[trigger] row_major(front, rows, cols)[row]
        == row_major(values, rows, cols)[row] by {
        assert(row_major(front, rows, cols)[row] =~= row_major(values, rows, cols)[row]);
    }
    assert(row_major(front, rows, cols) =~= row_major(values, rows, cols));
}

} // verus!
