//! A stack of layers as a mathematical object: how it lies in a parameter buffer, and what it
//! computes.

use vstd::prelude::*;
use vstd::std_specs::ops::AddSpec;

use super::cursor;
use super::layer::{Activation, Dense};
use crate::linear_algebra::view;
use crate::scalar::Numeric;

verus! {

/// What a caller declares of a layer before reading it.
pub struct Shape {
    pub outputs: nat,
    pub inputs: nat,
    pub activation: Activation,
}

impl Shape {
    /// How many parameters a layer of this shape has.
    pub open spec fn size(self) -> nat {
        cursor::layer_size(self.outputs, self.inputs)
    }

    /// The layer of this shape at the front of `parameters`.
    pub open spec fn layer_at_front<T>(self, parameters: Seq<T>) -> Dense<T> {
        cursor::layer_at_front(parameters, self.outputs, self.inputs, self.activation)
    }

    /// Whether `layer` is of this shape.
    pub open spec fn fits<T>(self, layer: Dense<T>) -> bool {
        layer.has_shape(self.outputs, self.inputs) && layer.activation == self.activation
    }
}

/// How many parameters layers of these shapes have together.
pub open spec fn parameter_count(shapes: Seq<Shape>) -> nat
    decreases shapes.len(),
{
    if shapes.len() == 0 {
        0
    } else {
        parameter_count(shapes.drop_last()) + shapes.last().size()
    }
}

/// Where the layer at `index` starts in a buffer that holds layers of these shapes.
pub open spec fn offset(shapes: Seq<Shape>, index: int) -> nat {
    parameter_count(shapes.take(index))
}

/// What a cursor hands out when it takes layers of these shapes one after the other, and the
/// values it leaves ahead of it. `None` if one of the reads fails.
pub open spec fn read_layers<T>(parameters: Seq<T>, shapes: Seq<Shape>) -> Option<
    (Seq<Dense<T>>, Seq<T>),
>
    decreases shapes.len(),
{
    if shapes.len() == 0 {
        Some((Seq::empty(), parameters))
    } else {
        match read_layers(parameters, shapes.drop_last()) {
            Some((layers, rest)) => if shapes.last().size() <= rest.len() {
                Some(
                    (
                        layers.push(shapes.last().layer_at_front(rest)),
                        rest.skip(shapes.last().size() as int),
                    ),
                )
            } else {
                None
            },
            None => None,
        }
    }
}

/// The entries of a matrix with `cols` columns, row by row.
pub open spec fn flattened<T>(rows: Seq<Seq<T>>, cols: nat) -> Seq<T> {
    Seq::new(rows.len() * cols, |place: int| rows[place / cols as int][place % cols as int])
}

/// The parameters of one layer in the order they are exported: weights row by row, then biases.
pub open spec fn exported_layer<T>(layer: Dense<T>, inputs: nat) -> Seq<T> {
    flattened(layer.weights, inputs) + layer.biases
}

/// The parameters of a stack of layers of these shapes, in the order the layers run.
pub open spec fn exported<T>(layers: Seq<Dense<T>>, shapes: Seq<Shape>) -> Seq<T>
    decreases shapes.len(),
{
    if shapes.len() == 0 {
        Seq::empty()
    } else {
        exported(layers.drop_last(), shapes.drop_last()) + exported_layer(
            layers.last(),
            shapes.last().inputs,
        )
    }
}

/// Whether each layer reads as many numbers as the one before it writes: `widths` holds the width
/// of the input, then that of every layer's output.
pub open spec fn is_chain<T>(layers: Seq<Dense<T>>, widths: Seq<nat>) -> bool {
    &&& widths.len() == layers.len() + 1
    &&& forall|index: int|
        0 <= index < layers.len() ==> (#[trigger] layers[index]).has_shape(
            widths[index + 1],
            widths[index],
        )
}

/// What a stack of layers answers to `input`: each layer's output is the next layer's input.
pub open spec fn chain_outputs<T: Numeric>(layers: Seq<Dense<T>>, input: Seq<T>) -> Seq<T>
    decreases layers.len(),
{
    if layers.len() == 0 {
        input
    } else {
        layers.last().outputs(chain_outputs(layers.drop_last(), input))
    }
}

/// One column of a matrix.
pub open spec fn column<T>(rows: Seq<Seq<T>>, col: int) -> Seq<T> {
    Seq::new(rows.len(), |row: int| rows[row][col])
}

/// The layer that does in one step what `second` does after an unactivated `first`: the product of
/// the weights, and the biases of `first` seen through the weights of `second`.
pub open spec fn merged<T: Numeric>(first: Dense<T>, second: Dense<T>, inputs: nat) -> Dense<T> {
    Dense {
        weights: Seq::new(
            second.weights.len(),
            |row: int|
                Seq::new(
                    inputs,
                    |col: int|
                        view::inner_product(
                            second.weights[row],
                            column(first.weights, col),
                            first.weights.len(),
                        ),
                ),
        ),
        biases: Seq::new(
            second.weights.len(),
            |row: int|
                view::inner_product(
                    second.weights[row],
                    first.biases,
                    first.weights.len(),
                ).add_spec(second.biases[row]),
        ),
        activation: second.activation,
    }
}

/// The single layer that a nonempty stack of layers over `inputs` numbers merges into.
pub open spec fn collapsed<T: Numeric>(layers: Seq<Dense<T>>, inputs: nat) -> Dense<T>
    decreases layers.len(),
{
    if layers.len() <= 1 {
        layers[0]
    } else {
        merged(collapsed(layers.drop_last(), inputs), layers.last(), inputs)
    }
}

/// The layer that weighs each input by `one` and every other by zero, adds nothing and does not
/// squash.
pub open spec fn identity_layer<T: Numeric>(one: T, width: nat) -> Dense<T> {
    Dense {
        weights: Seq::new(
            width,
            |row: int|
                Seq::new(
                    width,
                    |col: int|
                        if row == col {
                            one
                        } else {
                            T::ZERO
                        },
                ),
        ),
        biases: Seq::new(width, |row: int| T::ZERO),
        activation: Activation::Identity,
    }
}

} // verus!
