//! Walking one flat parameter buffer, handing out a layer at a time.

use vstd::prelude::*;

use super::layer::{Activation, Dense, Layer};
use crate::error::LinalgError;
use crate::linear_algebra::view;
use crate::linear_algebra::{MatrixView, VectorView};

verus! {

/// How many parameters a layer has: its weights, then its biases.
pub open spec fn layer_size(outputs: nat, inputs: nat) -> nat {
    outputs * inputs + outputs
}

/// The layer at the front of `parameters`: its weights row by row, then its biases.
pub open spec fn layer_at_front<T>(
    parameters: Seq<T>,
    outputs: nat,
    inputs: nat,
    activation: Activation,
) -> Dense<T> {
    Dense {
        weights: view::row_major(parameters, outputs, inputs),
        biases: parameters.subrange(
            (outputs * inputs) as int,
            layer_size(outputs, inputs) as int,
        ),
        activation,
    }
}

/// One of the reads a cursor offers, with the shape it is asked for.
pub enum Take {
    Vector { length: nat },
    Matrix { rows: nat, cols: nat },
    Layer { outputs: nat, inputs: nat },
}

impl Take {
    /// How many values the read asks for.
    pub open spec fn count(self) -> nat {
        match self {
            Take::Vector { length } => length,
            Take::Matrix { rows, cols } => rows * cols,
            Take::Layer { outputs, inputs } => layer_size(outputs, inputs),
        }
    }

    /// How many values the read passes over where `ahead` is left: none if it fails.
    pub open spec fn taken(self, ahead: nat) -> nat {
        if self.count() <= ahead {
            self.count()
        } else {
            0
        }
    }

    /// What is left ahead when the read is tried with `ahead` in front of it.
    pub open spec fn step<T>(self, ahead: Seq<T>) -> Seq<T> {
        ahead.skip(self.taken(ahead.len()) as int)
    }

    /// The run of values that the read hands out, nothing if it fails.
    pub open spec fn run<T>(self, ahead: Seq<T>) -> Seq<T> {
        ahead.take(self.taken(ahead.len()) as int)
    }
}

/// What is ahead of a cursor after a series of reads over `parameters`, some of which may fail.
pub open spec fn ahead_after<T>(parameters: Seq<T>, takes: Seq<Take>) -> Seq<T>
    decreases takes.len(),
{
    if takes.len() == 0 {
        parameters
    } else {
        takes.last().step(ahead_after(parameters, takes.drop_last()))
    }
}

/// The values that a series of reads over `parameters` hands out, one run after the other.
pub open spec fn handed_out<T>(parameters: Seq<T>, takes: Seq<Take>) -> Seq<T>
    decreases takes.len(),
{
    if takes.len() == 0 {
        Seq::empty()
    } else {
        handed_out(parameters, takes.drop_last()) + takes.last().run(
            ahead_after(parameters, takes.drop_last()),
        )
    }
}

/// The total of the counts that a series of reads takes from `available` values, a failed read
/// counting zero.
pub open spec fn total_taken(available: nat, takes: Seq<Take>) -> nat
    decreases takes.len(),
{
    if takes.len() == 0 {
        0
    } else {
        let before = total_taken(available, takes.drop_last());
        before + takes.last().taken((available - before) as nat)
    }
}

/// A read position in a flat parameter buffer, handing out views of successive runs of it.
///
/// A trained network is exported as one block of numbers: each layer's weights row-major, then its
/// biases, in the order the layers run. Slicing that block by hand means writing the offsets out,
/// where a single wrong number produces a network that loads, runs, and answers wrongly. The
/// cursor computes them instead, from the shapes the caller declares.
///
/// Nothing is copied. Each call hands back a view of the same buffer at the next offset and steps
/// past it, so the parameters stay wherever they were stored. A call that fails does not move the
/// position.
#[derive(Debug)]
#[must_use]
pub struct ParameterCursor<'data, T> {
    remaining: &'data [T],
}

impl<'data, T> Clone for ParameterCursor<'data, T> {
    #[inline]
    fn clone(&self) -> (copy: Self)
        ensures
            copy == *self,
    {
        ParameterCursor { remaining: self.remaining }
    }
}

/// The values still ahead of the read position.
impl<'data, T> View for ParameterCursor<'data, T> {
    type V = Seq<T>;

    closed spec fn view(&self) -> Seq<T> {
        self.remaining@
    }
}

impl<'data, T> ParameterCursor<'data, T> {
    /// A cursor at the start of `parameters`.
    #[inline]
    pub fn new(parameters: &'data [T]) -> (cursor: Self)
        ensures
            cursor@ == parameters@,
    {
        ParameterCursor { remaining: parameters }
    }

    /// How many values are still ahead of the read position.
    #[inline]
    #[must_use]
    pub fn remaining(&self) -> (count: usize)
        ensures
            count == self@.len(),
    {
        self.remaining.len()
    }

    /// Whether the buffer has been read to its end.
    ///
    /// Worth checking once a network is loaded: a buffer with values left over is one whose shape
    /// disagrees with the shapes just declared, which otherwise goes unnoticed because every
    /// individual read succeeded.
    #[inline]
    #[must_use]
    pub fn is_empty(&self) -> (empty: bool)
        ensures
            empty <==> self@.len() == 0,
    {
        self.remaining.is_empty()
    }

    /// The next `ROWS`×`COLS` values as a row-major matrix, or `OutOfBounds` if fewer than that
    /// many are left.
    #[inline]
    pub fn try_take_matrix<const ROWS: usize, const COLS: usize>(&mut self) -> (result: Result<
        MatrixView<'data, ROWS, COLS, T>,
        LinalgError,
    >)
        ensures
            match result {
                Ok(matrix) => {
                    &&& ROWS * COLS <= old(self)@.len()
                    &&& matrix@ == view::row_major(old(self)@, ROWS as nat, COLS as nat)
                    &&& final(self)@ == old(self)@.skip(ROWS * COLS)
                },
                Err(error) => {
                    &&& old(self)@.len() < ROWS * COLS
                    &&& error == LinalgError::OutOfBounds
                    &&& *final(self) == *old(self)
                },
            },
            final(self)@ == (Take::Matrix { rows: ROWS as nat, cols: COLS as nat }).step(old(self)@),
    {
        let ghost before = self@;
        assert(self.remaining.len() == self@.len());
        let count: usize = ROWS.checked_mul(COLS).ok_or(LinalgError::OutOfBounds)?;
        let taken = self.try_split(count)?;
        proof {
            assert(taken@.take(count as int) =~= before.take(count as int));
            view::lemma_row_major_prefix(before, taken@, ROWS as nat, COLS as nat);
        }
        MatrixView::try_from_row_major_slice(taken)
    }

    /// The next `N` values as a vector, or `OutOfBounds` if fewer than that many are left.
    #[inline]
    pub fn try_take_vector<const N: usize>(&mut self) -> (result: Result<
        VectorView<'data, N, T>,
        LinalgError,
    >)
        ensures
            match result {
                Ok(vector) => {
                    &&& N <= old(self)@.len()
                    &&& vector@ == old(self)@.take(N as int)
                    &&& final(self)@ == old(self)@.skip(N as int)
                },
                Err(error) => {
                    &&& old(self)@.len() < N
                    &&& error == LinalgError::OutOfBounds
                    &&& *final(self) == *old(self)
                },
            },
            final(self)@ == (Take::Vector { length: N as nat }).step(old(self)@),
    {
        let taken = self.try_split(N)?;
        assert(taken@.take(N as int) =~= taken@);
        VectorView::try_from_slice(taken)
    }

    /// One layer: `OUTPUT`×`INPUT` weights row-major, then `OUTPUT` biases, which is the order a
    /// trained network is normally written in. `OutOfBounds` if fewer values than that are left.
    #[inline]
    pub fn try_take_layer<const OUTPUT: usize, const INPUT: usize>(
        &mut self,
        activation: Activation,
    ) -> (result: Result<Layer<'data, OUTPUT, INPUT, T>, LinalgError>)
        ensures
            match result {
                Ok(layer) => {
                    &&& layer_size(OUTPUT as nat, INPUT as nat) <= old(self)@.len()
                    &&& layer@ == layer_at_front(
                        old(self)@,
                        OUTPUT as nat,
                        INPUT as nat,
                        activation,
                    )
                    &&& layer@.has_shape(OUTPUT as nat, INPUT as nat)
                    &&& final(self)@ == old(self)@.skip(
                        layer_size(OUTPUT as nat, INPUT as nat) as int,
                    )
                },
                Err(error) => {
                    &&& old(self)@.len() < layer_size(OUTPUT as nat, INPUT as nat)
                    &&& error == LinalgError::OutOfBounds
                    &&& *final(self) == *old(self)
                },
            },
            final(self)@ == (Take::Layer { outputs: OUTPUT as nat, inputs: INPUT as nat }).step(
                old(self)@,
            ),
    {
        // Read into a clone so a layer whose biases run off the end leaves the position untouched,
        // rather than half past a layer that was never handed out.
        let mut lookahead = self.clone();
        let weights = lookahead.try_take_matrix::<OUTPUT, INPUT>()?;
        let biases = lookahead.try_take_vector::<OUTPUT>()?;
        let ghost size = layer_size(OUTPUT as nat, INPUT as nat) as int;
        assert(biases@ =~= self@.subrange(OUTPUT * INPUT, size));
        assert(lookahead@ =~= self@.skip(size));
        *self = lookahead;
        Ok(Layer::new(weights, biases, activation))
    }

    /// Splits `count` values off the front, or `OutOfBounds` if there are fewer than that.
    #[inline]
    fn try_split(&mut self, count: usize) -> (result: Result<&'data [T], LinalgError>)
        ensures
            match result {
                Ok(taken) => {
                    &&& count <= old(self)@.len()
                    &&& taken@ == old(self)@.take(count as int)
                    &&& final(self)@ == old(self)@.skip(count as int)
                },
                Err(error) => {
                    &&& old(self)@.len() < count
                    &&& error == LinalgError::OutOfBounds
                    &&& *final(self) == *old(self)
                },
            },
            final(self)@ == (Take::Vector { length: count as nat }).step(old(self)@),
    {
        if count <= self.remaining.len() {
            let (taken, rest) = self.remaining.split_at(count);
            self.remaining = rest;
            Ok(taken)
        } else {
            Err(LinalgError::OutOfBounds)
        }
    }
}

} // verus!
