//! What holds of every network: how its parameters lie in a buffer, and what its layers compute.

use core::cmp::Ordering;

use vstd::prelude::*;
use vstd::std_specs::cmp::PartialOrdSpec;
use vstd::std_specs::ops::{AddSpec, MulSpec};

use super::cursor;
use super::cursor::Take;
use super::layer::{Activation, Dense};
use super::network;
use super::network::Shape;
use crate::linear_algebra::view;
use crate::scalar;
use crate::scalar::Numeric;

verus! {

/// Offsets follow from the declared shapes. Reading layers of given shapes one after the other
/// succeeds exactly if the buffer holds as many parameters as the shapes account for. The layer at
/// each index is then the one that lies after all parameters of the layers before it, and what is
/// left ahead is what lies after them all.
pub proof fn law_offsets_follow_from_shapes<T>(parameters: Seq<T>, shapes: Seq<Shape>)
    ensures
        network::read_layers(parameters, shapes) is Some <==> network::parameter_count(shapes)
            <= parameters.len(),
        network::read_layers(parameters, shapes) matches Some((layers, rest)) ==> {
            &&& layers.len() == shapes.len()
            &&& rest == parameters.skip(network::parameter_count(shapes) as int)
            &&& forall|index: int|
                0 <= index < shapes.len() ==> #[trigger] layers[index]
                    == shapes[index].layer_at_front(
                    parameters.skip(network::offset(shapes, index) as int),
                )
        },
    decreases shapes.len(),
{
    if shapes.len() == 0 {
        assert(parameters.skip(0) =~= parameters);
    } else {
        let earlier = shapes.drop_last();
        let count = network::parameter_count(earlier) as int;
        law_offsets_follow_from_shapes(parameters, earlier);
        if let Some((layers, rest)) = network::read_layers(parameters, shapes) {
            let size = shapes.last().size() as int;
            assert(parameters.skip(count).skip(size) =~= parameters.skip(count + size));
            assert forall|index: int| 0 <= index < shapes.len() implies #[trigger] layers[index]
                == shapes[index].layer_at_front(
                parameters.skip(network::offset(shapes, index) as int),
            ) by {
                assert(shapes.take(index) =~= earlier.take(index));
                if index == earlier.len() {
                    assert(earlier.take(index) =~= earlier);
                } else if let Some((before, _)) = network::read_layers(parameters, earlier) {
                    assert(layers[index] == before[index]);
                }
            }
        }
    }
}

/// A buffer has been read to its end exactly if the shapes that were read account for every number
/// in it.
pub proof fn law_read_to_the_end<T>(parameters: Seq<T>, shapes: Seq<Shape>)
    ensures
        network::read_layers(parameters, shapes) matches Some((layers, rest)) ==> (rest.len() == 0
            <==> parameters.len() == network::parameter_count(shapes)),
{
    law_offsets_follow_from_shapes(parameters, shapes);
}

/// Two splits in a row are one split of the total: together they hand out what it hands out, and
/// leave what it leaves. The second succeeds exactly if the total is there, and splitting off
/// nothing moves nothing.
pub proof fn law_two_splits_are_one<T>(parameters: Seq<T>, first: nat, second: nat)
    requires
        first <= parameters.len(),
    ensures
        second <= parameters.skip(first as int).len() <==> first + second <= parameters.len(),
        first + second <= parameters.len() ==> {
            &&& parameters.take(first as int) + parameters.skip(first as int).take(second as int)
                == parameters.take((first + second) as int)
            &&& parameters.skip(first as int).skip(second as int) == parameters.skip(
                (first + second) as int,
            )
        },
        parameters.take(0) == Seq::<T>::empty(),
        parameters.skip(0) == parameters,
{
    if first + second <= parameters.len() {
        assert(parameters.take(first as int) + parameters.skip(first as int).take(second as int)
            =~= parameters.take((first + second) as int));
        assert(parameters.skip(first as int).skip(second as int) =~= parameters.skip(
            (first + second) as int,
        ));
    }
    assert(parameters.take(0) =~= Seq::<T>::empty());
    assert(parameters.skip(0) =~= parameters);
}

/// After any mix of reads, successful or not, a cursor is at a suffix of its buffer: what is ahead
/// is what lies after the total of the counts taken, a failed read counting zero. What was handed
/// out is what lies before it, so no value is handed out twice and none is passed over.
pub proof fn law_reads_leave_a_suffix<T>(parameters: Seq<T>, takes: Seq<Take>)
    ensures
        cursor::total_taken(parameters.len(), takes) <= parameters.len(),
        cursor::ahead_after(parameters, takes) == parameters.skip(
            cursor::total_taken(parameters.len(), takes) as int,
        ),
        cursor::handed_out(parameters, takes) == parameters.take(
            cursor::total_taken(parameters.len(), takes) as int,
        ),
        cursor::handed_out(parameters, takes) + cursor::ahead_after(parameters, takes)
            == parameters,
    decreases takes.len(),
{
    if takes.len() == 0 {
        law_two_splits_are_one(parameters, 0, 0);
    } else {
        let before = cursor::total_taken(parameters.len(), takes.drop_last());
        law_reads_leave_a_suffix(parameters, takes.drop_last());
        law_two_splits_are_one(
            parameters,
            before,
            takes.last().taken((parameters.len() - before) as nat),
        );
    }
    let total = cursor::total_taken(parameters.len(), takes) as int;
    assert(parameters.take(total) + parameters.skip(total) =~= parameters);
}

/// Reading on never brings values back: what is ahead after a series of reads is a suffix of what
/// was ahead after the first `count` of them, and no longer than that.
pub proof fn law_remaining_never_grows<T>(parameters: Seq<T>, takes: Seq<Take>, count: int)
    requires
        0 <= count <= takes.len(),
    ensures
        cursor::ahead_after(parameters, takes).len() <= cursor::ahead_after(
            parameters,
            takes.take(count),
        ).len(),
        cursor::ahead_after(parameters, takes) == cursor::ahead_after(
            parameters,
            takes.take(count),
        ).skip(
            cursor::ahead_after(parameters, takes.take(count)).len() - cursor::ahead_after(
                parameters,
                takes,
            ).len(),
        ),
    decreases takes.len(),
{
    let earlier = cursor::ahead_after(parameters, takes.take(count));
    if count == takes.len() {
        assert(takes.take(count) =~= takes);
        assert(earlier.skip(0) =~= earlier);
    } else {
        assert(takes.drop_last().take(count) =~= takes.take(count));
        law_remaining_never_grows(parameters, takes.drop_last(), count);
        let ahead = cursor::ahead_after(parameters, takes.drop_last());
        let taken = takes.last().taken(ahead.len());
        law_two_splits_are_one(earlier, (earlier.len() - ahead.len()) as nat, taken);
    }
}

/// In a row-major run of values, the entry at `row` and `col` is found at its place, and the place
/// gives back its row and its column.
proof fn lemma_place(row: int, col: int, rows: int, cols: int)
    requires
        0 <= row < rows,
        0 <= col < cols,
    ensures
        0 <= row * cols + col < rows * cols,
        (row * cols + col) / cols == row,
        (row * cols + col) % cols == col,
{
    view::lemma_row_in_bounds(row, rows, cols);
    vstd::arithmetic::div_mod::lemma_fundamental_div_mod_converse(row * cols + col, cols, row, col);
}

/// Every place in a row-major run of values belongs to a row and a column.
proof fn lemma_row_and_col(place: int, rows: int, cols: int)
    requires
        0 <= place < rows * cols,
        0 <= cols,
    ensures
        0 <= place / cols < rows,
        0 <= place % cols < cols,
        place / cols * cols + place % cols == place,
{
    assert(cols != 0) by (nonlinear_arith)
        requires
            0 <= place < rows * cols,
    ;
    vstd::arithmetic::div_mod::lemma_fundamental_div_mod(place, cols);
    vstd::arithmetic::div_mod::lemma_mod_bound(place, cols);
    let row = place / cols;
    assert(row * cols == cols * row) by (nonlinear_arith);
    assert(row < rows) by (nonlinear_arith)
        requires
            row * cols <= place < rows * cols,
            0 < cols,
    ;
    assert(0 <= row) by (nonlinear_arith)
        requires
            0 <= place,
            row * cols + place % cols == place,
            place % cols < cols,
            0 < cols,
    ;
}

/// A matrix written row by row is read back from the front of whatever it was written to.
proof fn lemma_row_major_of_flattened<T>(rows: Seq<Seq<T>>, cols: nat, tail: Seq<T>)
    requires
        forall|row: int| 0 <= row < rows.len() ==> (#[trigger] rows[row]).len() == cols,
    ensures
        view::row_major(network::flattened(rows, cols) + tail, rows.len(), cols) == rows,
{
    let values = network::flattened(rows, cols) + tail;
    let matrix = view::row_major(values, rows.len(), cols);
    assert forall|row: int| 0 <= row < rows.len() implies matrix[row] == #[trigger] rows[row] by {
        assert forall|col: int| 0 <= col < cols implies matrix[row][col] == rows[row][col] by {
            lemma_place(row, col, rows.len() as int, cols as int);
            assert(values[row * cols + col] == network::flattened(rows, cols)[row * cols + col]);
        }
        assert(matrix[row] =~= rows[row]);
    }
    assert(matrix =~= rows);
}

/// A matrix read row by row is written back as the values it was read from.
proof fn lemma_flattened_of_row_major<T>(values: Seq<T>, rows: nat, cols: nat)
    requires
        rows * cols <= values.len(),
    ensures
        network::flattened(view::row_major(values, rows, cols), cols) == values.take(
            (rows * cols) as int,
        ),
{
    let written = network::flattened(view::row_major(values, rows, cols), cols);
    assert forall|place: int| 0 <= place < rows * cols implies #[trigger] written[place]
        == values[place] by {
        lemma_row_and_col(place, rows as int, cols as int);
    }
    assert(written =~= values.take((rows * cols) as int));
}

/// Reading undoes exporting. A stack of layers written out in the export order, with anything after
/// it, is read back layer by layer under the same shapes, and what came after it is left ahead.
pub proof fn law_export_then_read<T>(layers: Seq<Dense<T>>, shapes: Seq<Shape>, tail: Seq<T>)
    requires
        layers.len() == shapes.len(),
        forall|index: int|
            0 <= index < layers.len() ==> shapes[index].fits(#[trigger] layers[index]),
    ensures
        network::exported(layers, shapes).len() == network::parameter_count(shapes),
        network::read_layers(network::exported(layers, shapes) + tail, shapes) == Some(
            (layers, tail),
        ),
    decreases shapes.len(),
{
    let parameters = network::exported(layers, shapes) + tail;
    if shapes.len() == 0 {
        assert(parameters =~= tail);
        assert(layers =~= Seq::empty());
    } else {
        let shape = shapes.last();
        let layer = layers.last();
        assert(shape.fits(layers[layers.len() - 1]));
        let rest = network::exported_layer(layer, shape.inputs) + tail;
        assert forall|index: int| 0 <= index < layers.drop_last().len() implies (
        shapes.drop_last()[index]).fits(#[trigger] layers.drop_last()[index]) by {
            assert(shapes[index].fits(layers[index]));
        }
        law_export_then_read(layers.drop_last(), shapes.drop_last(), rest);
        assert(parameters =~= network::exported(layers.drop_last(), shapes.drop_last()) + rest);

        let weight_count = (shape.outputs * shape.inputs) as int;
        assert(rest =~= network::flattened(layer.weights, shape.inputs) + (layer.biases + tail));
        lemma_row_major_of_flattened(layer.weights, shape.inputs, layer.biases + tail);
        assert(rest.subrange(weight_count, shape.size() as int) =~= layer.biases);
        assert(shape.layer_at_front(rest) =~= layer);
        assert(rest.skip(shape.size() as int) =~= tail);
        assert(layers.drop_last().push(layer) =~= layers);
    }
}

/// Exporting undoes reading. The layers that were read, written out in the export order, followed
/// by what is left ahead, are the buffer: no number is read twice and none is passed over.
pub proof fn law_read_then_export<T>(parameters: Seq<T>, shapes: Seq<Shape>)
    ensures
        network::read_layers(parameters, shapes) matches Some((layers, rest)) ==> {
            &&& network::exported(layers, shapes) + rest == parameters
            &&& forall|index: int|
                0 <= index < layers.len() ==> shapes[index].fits(#[trigger] layers[index])
        },
    decreases shapes.len(),
{
    if let Some((layers, rest)) = network::read_layers(parameters, shapes) {
        if shapes.len() == 0 {
            assert(network::exported(layers, shapes) + rest =~= parameters);
        } else {
            let shape = shapes.last();
            law_offsets_follow_from_shapes(parameters, shapes);
            law_read_then_export(parameters, shapes.drop_last());
            if let Some((before, ahead)) = network::read_layers(parameters, shapes.drop_last()) {
                let layer = layers.last();
                assert(layers.drop_last() =~= before);
                lemma_flattened_of_row_major(ahead, shape.outputs, shape.inputs);
                assert(network::exported_layer(layer, shape.inputs) =~= ahead.take(
                    shape.size() as int,
                ));
                assert(network::exported(layers, shapes) + rest =~= network::exported(
                    before,
                    shapes.drop_last(),
                ) + ahead);
                assert forall|index: int| 0 <= index < layers.len() implies shapes[index].fits(
                    #[trigger] layers[index],
                ) by {
                    if index < before.len() {
                        assert(shapes.drop_last()[index].fits(before[index]));
                    } else {
                        assert(layers[index] == layer);
                    }
                }
            }
        }
    }
}

/// The rows of a matrix lie one after the other at the front of its values: each row is a run of
/// `cols` values that starts where the one before it ends, and all of them put together are the
/// values up to the last row's end.
pub proof fn law_rows_follow_one_another<T>(values: Seq<T>, rows: nat, cols: nat)
    requires
        rows * cols <= values.len(),
    ensures
        view::row_major(values, rows, cols).len() == rows,
        forall|row: int|
            0 <= row < rows ==> #[trigger] view::row_major(values, rows, cols)[row]
                == values.subrange(row * cols, row * cols + cols),
        view::row_major(values, rows, cols).flatten() == values.take((rows * cols) as int),
    decreases rows,
{
    let matrix = view::row_major(values, rows, cols);
    assert forall|row: int| 0 <= row < rows implies #[trigger] matrix[row] == values.subrange(
        row * cols,
        row * cols + cols,
    ) by {
        view::lemma_row_in_bounds(row, rows as int, cols as int);
        assert(matrix[row] =~= values.subrange(row * cols, row * cols + cols));
    }
    matrix.lemma_flatten_and_flatten_alt_are_equivalent();
    if rows == 0 {
        assert(values.take(0) =~= Seq::<T>::empty());
    } else {
        let last = (rows - 1) as nat;
        let earlier = view::row_major(values, last, cols);
        view::lemma_row_in_bounds(last as int, rows as int, cols as int);
        law_rows_follow_one_another(values, last, cols);
        earlier.lemma_flatten_and_flatten_alt_are_equivalent();
        assert(matrix.drop_last() =~= earlier);
        assert(last * cols + cols == rows * cols) by (nonlinear_arith)
            requires
                last == rows - 1,
        ;
        assert(values.take((last * cols) as int) + values.subrange(
            (last * cols) as int,
            (rows * cols) as int,
        ) =~= values.take((rows * cols) as int));
    }
}

/// Every output costs one weight per input and one bias.
pub proof fn law_an_output_costs_its_weights_and_a_bias(outputs: nat, inputs: nat)
    ensures
        cursor::layer_size(outputs, inputs) == outputs * (inputs + 1),
{
    assert(outputs * (inputs + 1) == outputs * inputs + outputs) by (nonlinear_arith);
}

/// A further layer is exported after all others: its rows of weights one after the other, then its
/// biases. It starts where the others end, and takes one weight per input and one bias for each of
/// its outputs. A stack without layers takes nothing.
pub proof fn law_one_more_layer_is_exported_last<T>(
    layers: Seq<Dense<T>>,
    shapes: Seq<Shape>,
    layer: Dense<T>,
    shape: Shape,
)
    requires
        layer.weights.len() == shape.outputs,
        layer.biases.len() == shape.outputs,
        forall|row: int|
            0 <= row < shape.outputs ==> (#[trigger] layer.weights[row]).len() == shape.inputs,
    ensures
        network::exported(Seq::<Dense<T>>::empty(), Seq::<Shape>::empty()) == Seq::<T>::empty(),
        network::exported(layers.push(layer), shapes.push(shape)) == network::exported(
            layers,
            shapes,
        ) + (layer.weights.flatten() + layer.biases),
        network::parameter_count(Seq::<Shape>::empty()) == 0,
        network::parameter_count(shapes.push(shape)) == network::parameter_count(shapes)
            + shape.outputs * (shape.inputs + 1),
        network::offset(shapes.push(shape), shapes.len() as int) == network::parameter_count(shapes),
{
    let weights = network::flattened(layer.weights, shape.inputs);
    assert(layers.push(layer).drop_last() =~= layers);
    assert(shapes.push(shape).drop_last() =~= shapes);
    assert(shapes.push(shape).take(shapes.len() as int) =~= shapes);
    law_an_output_costs_its_weights_and_a_bias(shape.outputs, shape.inputs);
    lemma_row_major_of_flattened(layer.weights, shape.inputs, Seq::empty());
    assert(weights + Seq::<T>::empty() =~= weights);
    law_rows_follow_one_another(weights, shape.outputs, shape.inputs);
    assert(weights.take((shape.outputs * shape.inputs) as int) =~= weights);
}

/// The layer a cursor hands out holds its values in their places: each output's weights are a run
/// as long as the input, the runs follow one another from the front, and the biases follow them,
/// one per output. The activation is the one that was asked for.
pub proof fn law_layer_values_keep_their_places<T>(
    parameters: Seq<T>,
    outputs: nat,
    inputs: nat,
    activation: Activation,
)
    requires
        outputs * (inputs + 1) <= parameters.len(),
    ensures
        ({
            let layer = cursor::layer_at_front(parameters, outputs, inputs, activation);
            &&& layer.weights.len() == outputs
            &&& forall|row: int|
                0 <= row < outputs ==> #[trigger] layer.weights[row] == parameters.subrange(
                    row * inputs,
                    row * inputs + inputs,
                )
            &&& layer.biases == parameters.subrange(
                (outputs * inputs) as int,
                (outputs * (inputs + 1)) as int,
            )
            &&& layer.weights.flatten() + layer.biases == parameters.take(
                (outputs * (inputs + 1)) as int,
            )
            &&& layer.activation == activation
        }),
{
    let layer = cursor::layer_at_front(parameters, outputs, inputs, activation);
    law_an_output_costs_its_weights_and_a_bias(outputs, inputs);
    law_rows_follow_one_another(parameters, outputs, inputs);
    assert(layer.weights.flatten() + layer.biases =~= parameters.take(
        (outputs * (inputs + 1)) as int,
    ));
}

/// A layer made of two runs holds their values in their places: each output's weights are a run as
/// long as the input at the front of the first, and its bias is found at its own index in the
/// second. The activation is the one that was asked for.
pub proof fn law_run_values_keep_their_places<T>(
    weights: Seq<T>,
    biases: Seq<T>,
    outputs: nat,
    inputs: nat,
    activation: Activation,
)
    requires
        outputs * inputs <= weights.len(),
        outputs <= biases.len(),
    ensures
        ({
            let layer = Dense::from_runs(weights, biases, outputs, inputs, activation);
            &&& layer.weights.len() == outputs
            &&& forall|row: int|
                0 <= row < outputs ==> #[trigger] layer.weights[row] == weights.subrange(
                    row * inputs,
                    row * inputs + inputs,
                )
            &&& layer.weights.flatten() == weights.take((outputs * inputs) as int)
            &&& layer.biases.len() == outputs
            &&& forall|index: int|
                0 <= index < outputs ==> #[trigger] layer.biases[index] == biases[index]
            &&& layer.activation == activation
        }),
{
    law_rows_follow_one_another(weights, outputs, inputs);
}

/// Taking a layer is taking its matrix of weights, then its vector of biases.
pub proof fn law_layer_is_matrix_then_vector<T>(
    parameters: Seq<T>,
    outputs: nat,
    inputs: nat,
    activation: Activation,
)
    requires
        cursor::layer_size(outputs, inputs) <= parameters.len(),
    ensures
        ({
            let layer = cursor::layer_at_front(parameters, outputs, inputs, activation);
            let after_weights = parameters.skip((outputs * inputs) as int);
            &&& layer.weights == view::row_major(parameters, outputs, inputs)
            &&& layer.biases == after_weights.take(outputs as int)
            &&& after_weights.skip(outputs as int) == parameters.skip(
                cursor::layer_size(outputs, inputs) as int,
            )
        }),
{
    let layer = cursor::layer_at_front(parameters, outputs, inputs, activation);
    let after_weights = parameters.skip((outputs * inputs) as int);
    assert(layer.biases =~= after_weights.take(outputs as int));
    assert(after_weights.skip(outputs as int) =~= parameters.skip(
        cursor::layer_size(outputs, inputs) as int,
    ));
}

/// The layer a cursor hands out is the one made of the two runs it passes over: as many values as
/// the shape has weights, then as many as it has biases.
pub proof fn law_layer_is_its_two_runs<T>(
    parameters: Seq<T>,
    outputs: nat,
    inputs: nat,
    activation: Activation,
)
    requires
        cursor::layer_size(outputs, inputs) <= parameters.len(),
    ensures
        cursor::layer_at_front(parameters, outputs, inputs, activation) == Dense::from_runs(
            parameters.take((outputs * inputs) as int),
            parameters.subrange(
                (outputs * inputs) as int,
                cursor::layer_size(outputs, inputs) as int,
            ),
            outputs,
            inputs,
            activation,
        ),
{
    let weights = parameters.take((outputs * inputs) as int);
    let biases = parameters.subrange(
        (outputs * inputs) as int,
        cursor::layer_size(outputs, inputs) as int,
    );
    assert(weights.take((outputs * inputs) as int) =~= weights);
    view::lemma_row_major_prefix(parameters, weights, outputs, inputs);
    assert(biases.take(outputs as int) =~= biases);
}

/// Values after the ones a shape asks for make no difference to the layer, in either run.
pub proof fn law_trailing_values_are_ignored<T>(
    weights: Seq<T>,
    biases: Seq<T>,
    more_weights: Seq<T>,
    more_biases: Seq<T>,
    outputs: nat,
    inputs: nat,
    activation: Activation,
)
    requires
        outputs * inputs <= weights.len(),
        outputs <= biases.len(),
    ensures
        Dense::from_runs(weights + more_weights, biases + more_biases, outputs, inputs, activation)
            == Dense::from_runs(weights, biases, outputs, inputs, activation),
{
    let count = (outputs * inputs) as int;
    assert((weights + more_weights).take(count) =~= weights.take(count));
    view::lemma_row_major_prefix(weights, weights + more_weights, outputs, inputs);
    assert((biases + more_biases).take(outputs as int) =~= biases.take(outputs as int));
}

/// What a read hands out is the run it passes over: a matrix written row by row, and a layer
/// written in the export order, are the values that were at the front.
pub proof fn law_taken_values_are_the_run<T>(
    parameters: Seq<T>,
    outputs: nat,
    inputs: nat,
    activation: Activation,
)
    ensures
        outputs * inputs <= parameters.len() ==> network::flattened(
            view::row_major(parameters, outputs, inputs),
            inputs,
        ) == parameters.take((outputs * inputs) as int),
        cursor::layer_size(outputs, inputs) <= parameters.len() ==> network::exported_layer(
            cursor::layer_at_front(parameters, outputs, inputs, activation),
            inputs,
        ) == parameters.take(cursor::layer_size(outputs, inputs) as int),
{
    if outputs * inputs <= parameters.len() {
        lemma_flattened_of_row_major(parameters, outputs, inputs);
    }
    if cursor::layer_size(outputs, inputs) <= parameters.len() {
        law_layer_is_matrix_then_vector(parameters, outputs, inputs, activation);
        law_two_splits_are_one(parameters, outputs * inputs, outputs);
    }
}

/// A rectifier passes a positive value through, and turns a negative one, or one that is not
/// ordered against zero, into zero.
pub proof fn law_relu_clamps<T: Numeric>(value: T)
    ensures
        scalar::exceeds(value, T::ZERO) ==> Activation::Relu.activated(value) == value,
        scalar::falls_below(value, T::ZERO) ==> Activation::Relu.activated(value) == T::ZERO,
        !scalar::exceeds(value, T::ZERO) ==> Activation::Relu.activated(value) == T::ZERO,
{
}

/// A rectifier makes one comparison and nothing else: it answers the value where that compares as
/// greater than zero, and zero wherever it compares otherwise or not at all.
pub proof fn law_relu_is_one_comparison<T: Numeric>(value: T)
    ensures
        value.partial_cmp_spec(&T::ZERO) == Some(Ordering::Greater) ==> Activation::Relu.activated(
            value,
        ) == value,
        value.partial_cmp_spec(&T::ZERO) != Some(Ordering::Greater) ==> Activation::Relu.activated(
            value,
        ) == T::ZERO,
{
}

/// Rectifying twice is rectifying once.
pub proof fn law_relu_is_idempotent<T: Numeric>(value: T)
    ensures
        Activation::Relu.activated(Activation::Relu.activated(value))
            == Activation::Relu.activated(value),
{
}

/// A rectified value is never below zero and never below the value it was made from, and
/// rectifying keeps the order of two values: wherever the two and zero can be ordered.
pub proof fn law_relu_is_monotone<T: Numeric>(left: T, right: T)
    requires
        scalar::ordered(set![left, right, T::ZERO]),
        scalar::at_most(left, right),
    ensures
        scalar::at_most(T::ZERO, Activation::Relu.activated(left)),
        scalar::at_most(Activation::Relu.activated(left), Activation::Relu.activated(right)),
        scalar::at_most(left, Activation::Relu.activated(left)),
{
    assert(scalar::at_most(T::ZERO, T::ZERO));
    assert(scalar::at_most(left, left));
    assert(scalar::order_is_total(left, T::ZERO));
    assert(scalar::order_is_total(right, T::ZERO));
    assert(scalar::order_is_transitive(left, right, T::ZERO));
}

/// The identity passes every value through unchanged.
pub proof fn law_identity_passes_through<T: Numeric>(value: T)
    ensures
        Activation::Identity.activated(value) == value,
{
}

/// The hyperbolic tangent squashes every value as the scalar does, wherever it lies.
pub proof fn law_tanh_is_that_of_the_scalar<T: Numeric>(value: T)
    ensures
        Activation::Tanh.activated(value) == value.tanh_spec(),
{
}

/// An inner product adds up the products of all pairs, from zero and in order, whether or not the
/// scalar rounds: no term is left out and none is added twice.
pub proof fn law_inner_product_adds_every_term<T: Numeric>(
    left: Seq<T>,
    right: Seq<T>,
    count: nat,
)
    ensures
        view::inner_product(left, right, count) == Seq::new(
            count,
            |index: int| left[index].mul_spec(right[index]),
        ).fold_left(T::ZERO, |sum: T, term: T| sum.add_spec(term)),
    decreases count,
{
    let terms = Seq::new(count, |index: int| left[index].mul_spec(right[index]));
    if count > 0 {
        let last = (count - 1) as nat;
        law_inner_product_adds_every_term(left, right, last);
        assert(terms.drop_last() =~= Seq::new(
            last,
            |index: int| left[index].mul_spec(right[index]),
        ));
    }
}

/// Lengthening both operands by one pair adds the product of that pair to the inner product, and
/// the inner product of nothing is zero.
pub proof fn law_one_more_pair_adds_its_product<T: Numeric>(
    left: Seq<T>,
    right: Seq<T>,
    weight: T,
    value: T,
)
    requires
        left.len() == right.len(),
    ensures
        view::inner_product(Seq::<T>::empty(), Seq::<T>::empty(), 0) == T::ZERO,
        view::inner_product(left.push(weight), right.push(value), left.len() + 1)
            == view::inner_product(left, right, left.len()).add_spec(weight.mul_spec(value)),
{
    law_inner_product_adds_every_term(left, right, left.len());
    law_inner_product_adds_every_term(left.push(weight), right.push(value), left.len() + 1);
    let longer = Seq::new(
        left.len() + 1,
        |index: int| left.push(weight)[index].mul_spec(right.push(value)[index]),
    );
    assert(longer.drop_last() =~= Seq::new(
        left.len(),
        |index: int| left[index].mul_spec(right[index]),
    ));
}

/// The finished sum of an output is its weighted sum with its bias added, whatever the activation
/// and whatever the bias.
pub proof fn law_finished_sum_is_weighted_sum_plus_bias<T: Numeric>(
    layer: Dense<T>,
    output: int,
    input: Seq<T>,
)
    ensures
        layer.biased_sum(output, input) == view::inner_product(
            layer.weights[output],
            input,
            input.len(),
        ).add_spec(layer.biases[output]),
        layer.biased_sum(output, input) == Seq::new(
            input.len(),
            |index: int| layer.weights[output][index].mul_spec(input[index]),
        ).fold_left(T::ZERO, |sum: T, term: T| sum.add_spec(term)).add_spec(layer.biases[output]),
{
    law_inner_product_adds_every_term(layer.weights[output], input, input.len());
}

/// A layer answers one number per row of weights. Without an activation each is the sum of all
/// products of its row and the input, from zero and in order, with its bias added at the end.
pub proof fn law_unactivated_output_is_weighted_sum_plus_bias<T: Numeric>(
    layer: Dense<T>,
    output: int,
    input: Seq<T>,
)
    requires
        layer.activation == Activation::Identity,
        0 <= output < layer.weights.len(),
    ensures
        layer.outputs(input).len() == layer.weights.len(),
        layer.outputs(input)[output] == view::inner_product(
            layer.weights[output],
            input,
            input.len(),
        ).add_spec(layer.biases[output]),
        layer.outputs(input)[output] == Seq::new(
            input.len(),
            |index: int| layer.weights[output][index].mul_spec(input[index]),
        ).fold_left(T::ZERO, |sum: T, term: T| sum.add_spec(term)).add_spec(layer.biases[output]),
{
    law_identity_passes_through(layer.biased_sum(output, input));
    law_finished_sum_is_weighted_sum_plus_bias(layer, output, input);
}

/// Each output reads its own row of weights, its own bias and the whole input, and nothing else:
/// two layers that agree on these agree on that output, whatever their other rows and biases are.
pub proof fn law_outputs_are_independent<T: Numeric>(
    left: Dense<T>,
    right: Dense<T>,
    output: int,
    input: Seq<T>,
)
    requires
        0 <= output < left.weights.len(),
        output < right.weights.len(),
        left.weights[output] == right.weights[output],
        left.biases[output] == right.biases[output],
        left.activation == right.activation,
    ensures
        left.outputs(input)[output] == right.outputs(input)[output],
{
}

/// The activation is applied to the finished sums: a layer answers what its activation makes of
/// the answers of the same layer without one.
pub proof fn law_activation_comes_last<T: Numeric>(layer: Dense<T>, input: Seq<T>)
    ensures
        layer.outputs(input) == (Dense {
            activation: Activation::Identity,
            ..layer
        }).outputs(input).map_values(|sum: T| layer.activation.activated(sum)),
{
    assert(layer.outputs(input) =~= (Dense {
        activation: Activation::Identity,
        ..layer
    }).outputs(input).map_values(|sum: T| layer.activation.activated(sum)));
}

/// What a stack of layers answers is the input of a further layer after it, and a stack without
/// layers answers its input.
pub proof fn law_one_more_layer_runs_last<T: Numeric>(
    layers: Seq<Dense<T>>,
    layer: Dense<T>,
    input: Seq<T>,
)
    ensures
        network::chain_outputs(Seq::<Dense<T>>::empty(), input) == input,
        network::chain_outputs(layers.push(layer), input) == layer.outputs(
            network::chain_outputs(layers, input),
        ),
{
    assert(layers.push(layer).drop_last() =~= layers);
}

/// A layer that squashes with the hyperbolic tangent answers the scalar's tangent of each number
/// that the same layer answers without an activation.
pub proof fn law_tanh_layer_squashes_every_output<T: Numeric>(layer: Dense<T>, input: Seq<T>)
    requires
        layer.activation == Activation::Tanh,
    ensures
        layer.outputs(input) == (Dense {
            activation: Activation::Identity,
            ..layer
        }).outputs(input).map_values(|sum: T| sum.tanh_spec()),
{
    law_activation_comes_last(layer, input);
    assert(layer.outputs(input) =~= (Dense {
        activation: Activation::Identity,
        ..layer
    }).outputs(input).map_values(|sum: T| sum.tanh_spec()));
}

/// A layer that rectifies answers each number that the same layer answers without an activation
/// where it compares as greater than zero, and zero in place of every other.
pub proof fn law_relu_layer_clamps_every_output<T: Numeric>(layer: Dense<T>, input: Seq<T>)
    requires
        layer.activation == Activation::Relu,
    ensures
        layer.outputs(input) == (Dense {
            activation: Activation::Identity,
            ..layer
        }).outputs(input).map_values(
            |sum: T|
                if sum.partial_cmp_spec(&T::ZERO) == Some(Ordering::Greater) {
                    sum
                } else {
                    T::ZERO
                },
        ),
{
    let sums = (Dense { activation: Activation::Identity, ..layer }).outputs(input);
    law_activation_comes_last(layer, input);
    assert forall|output: int| 0 <= output < sums.len() implies #[trigger] layer.outputs(
        input,
    )[output] == (if sums[output].partial_cmp_spec(&T::ZERO) == Some(Ordering::Greater) {
        sums[output]
    } else {
        T::ZERO
    }) by {
        law_relu_is_one_comparison(sums[output]);
    }
}

/// A layer that squashes with the hyperbolic tangent is bounded by it: where the tangent of each of
/// `values` lies between `low` and `high`, and the finished sums are among `values`, so does every
/// output.
pub proof fn law_tanh_layer_is_bounded_on<T: Numeric>(
    layer: Dense<T>,
    input: Seq<T>,
    values: Set<T>,
    low: T,
    high: T,
)
    requires
        layer.activation == Activation::Tanh,
        scalar::tanh_lies_between(values, low, high),
        forall|output: int|
            0 <= output < layer.weights.len() ==> values.contains(
                #[trigger] layer.biased_sum(output, input),
            ),
    ensures
        forall|output: int|
            0 <= output < layer.weights.len() ==> {
                &&& scalar::at_most(low, #[trigger] layer.outputs(input)[output])
                &&& scalar::at_most(layer.outputs(input)[output], high)
            },
{
    assert forall|output: int| 0 <= output < layer.weights.len() implies {
        &&& scalar::at_most(low, #[trigger] layer.outputs(input)[output])
        &&& scalar::at_most(layer.outputs(input)[output], high)
    } by {
        assert(values.contains(layer.biased_sum(output, input)));
    }
}

/// Where the hyperbolic tangent of every value lies between `low` and `high`, so does every output
/// of a layer that squashes with it, whatever its parameters and its input are.
pub proof fn law_tanh_layer_is_bounded<T: Numeric>(
    layer: Dense<T>,
    input: Seq<T>,
    low: T,
    high: T,
)
    requires
        layer.activation == Activation::Tanh,
        forall|value: T|
            scalar::at_most(low, #[trigger] value.tanh_spec()) && scalar::at_most(
                value.tanh_spec(),
                high,
            ),
    ensures
        forall|output: int|
            0 <= output < layer.weights.len() ==> {
                &&& scalar::at_most(low, #[trigger] layer.outputs(input)[output])
                &&& scalar::at_most(layer.outputs(input)[output], high)
            },
{
    let sums = Set::new(|value: T| true);
    law_tanh_layer_is_bounded_on(layer, input, sums, low, high);
}

/// Two sums of two, added up, can be regrouped.
proof fn lemma_regroup<T: Numeric>(a: T, b: T, c: T, d: T)
    requires
        scalar::exact::<T>(),
    ensures
        a.add_spec(b).add_spec(c.add_spec(d)) == a.add_spec(c).add_spec(b.add_spec(d)),
{
    assert(scalar::sum_associates(a, b, c.add_spec(d)));
    assert(scalar::sum_associates(b, c, d));
    assert(scalar::sum_commutes(b, c));
    assert(scalar::sum_associates(c, b, d));
    assert(scalar::sum_associates(a, c, b.add_spec(d)));
}

/// An inner product with a sequence of zeros is zero.
proof fn lemma_zero_inner_product<T: Numeric>(zeros: Seq<T>, values: Seq<T>, count: nat)
    requires
        scalar::exact::<T>(),
        count <= zeros.len(),
        forall|index: int| 0 <= index < count ==> #[trigger] zeros[index] == T::ZERO,
    ensures
        view::inner_product(zeros, values, count) == T::ZERO,
    decreases count,
{
    if count > 0 {
        let last = count - 1;
        lemma_zero_inner_product(zeros, values, last as nat);
        assert(scalar::zero_is_neutral(values[last]));
        assert(scalar::zero_is_neutral(T::ZERO));
        assert(zeros[last] == T::ZERO);
    }
}

/// An inner product is linear in its left operand.
proof fn lemma_inner_product_is_linear<T: Numeric>(
    combined: Seq<T>,
    base: Seq<T>,
    factor: T,
    added: Seq<T>,
    values: Seq<T>,
    count: nat,
)
    requires
        scalar::exact::<T>(),
        count <= combined.len(),
        forall|index: int|
            0 <= index < count ==> #[trigger] combined[index] == base[index].add_spec(
                factor.mul_spec(added[index]),
            ),
    ensures
        view::inner_product(combined, values, count) == view::inner_product(
            base,
            values,
            count,
        ).add_spec(factor.mul_spec(view::inner_product(added, values, count))),
    decreases count,
{
    if count == 0 {
        assert(scalar::zero_is_neutral(factor));
        assert(scalar::zero_is_neutral(T::ZERO));
    } else {
        let last = count - 1;
        lemma_inner_product_is_linear(combined, base, factor, added, values, last as nat);
        let value = values[last];
        let base_sum = view::inner_product(base, values, last as nat);
        let added_sum = view::inner_product(added, values, last as nat);
        let added_term = added[last].mul_spec(value);
        assert(combined[last] == base[last].add_spec(factor.mul_spec(added[last])));
        assert(scalar::product_distributes(value, base[last], factor.mul_spec(added[last])));
        assert(scalar::product_associates(factor, added[last], value));
        lemma_regroup(
            base_sum,
            factor.mul_spec(added_sum),
            base[last].mul_spec(value),
            factor.mul_spec(added_term),
        );
        assert(scalar::product_distributes(factor, added_sum, added_term));
    }
}

/// One weighted sum over the first `count` outputs of an unactivated layer, taken apart into a
/// weighted sum over the layer's input and one over its biases.
proof fn lemma_sum_over_layer<T: Numeric>(
    row: Seq<T>,
    first: Dense<T>,
    outputs: nat,
    input: Seq<T>,
    count: nat,
)
    requires
        scalar::exact::<T>(),
        first.has_shape(outputs, input.len()),
        first.activation == Activation::Identity,
        count <= outputs,
    ensures
        view::inner_product(row, first.outputs(input), count) == view::inner_product(
            Seq::new(
                input.len(),
                |col: int| view::inner_product(row, network::column(first.weights, col), count),
            ),
            input,
            input.len(),
        ).add_spec(view::inner_product(row, first.biases, count)),
    decreases count,
{
    let inputs = input.len();
    let product = Seq::new(
        inputs,
        |col: int| view::inner_product(row, network::column(first.weights, col), count),
    );
    if count == 0 {
        lemma_zero_inner_product(product, input, inputs);
        assert(scalar::zero_is_neutral(T::ZERO));
    } else {
        let last = count - 1;
        lemma_sum_over_layer(row, first, outputs, input, last as nat);
        let shorter = Seq::new(
            inputs,
            |col: int| view::inner_product(row, network::column(first.weights, col), last as nat),
        );
        let shorter_sum = view::inner_product(shorter, input, inputs);
        let bias_sum = view::inner_product(row, first.biases, last as nat);
        let last_sum = view::inner_product(first.weights[last], input, inputs);
        assert forall|col: int| 0 <= col < inputs implies #[trigger] product[col]
            == shorter[col].add_spec(row[last].mul_spec(first.weights[last][col])) by {
            assert(network::column(first.weights, col)[last] == first.weights[last][col]);
        }
        lemma_inner_product_is_linear(
            product,
            shorter,
            row[last],
            first.weights[last],
            input,
            inputs,
        );
        assert(first.outputs(input)[last] == last_sum.add_spec(first.biases[last]));
        assert(scalar::product_distributes(row[last], last_sum, first.biases[last]));
        lemma_regroup(
            shorter_sum,
            bias_sum,
            row[last].mul_spec(last_sum),
            row[last].mul_spec(first.biases[last]),
        );
    }
}

/// A layer after an unactivated one does what the two merged into one layer do.
proof fn lemma_merged_outputs<T: Numeric>(
    first: Dense<T>,
    second: Dense<T>,
    middle: nat,
    outputs: nat,
    input: Seq<T>,
)
    requires
        scalar::exact::<T>(),
        first.has_shape(middle, input.len()),
        first.activation == Activation::Identity,
        second.has_shape(outputs, middle),
    ensures
        network::merged(first, second, input.len()).has_shape(outputs, input.len()),
        second.outputs(first.outputs(input)) == network::merged(
            first,
            second,
            input.len(),
        ).outputs(input),
{
    let merged = network::merged(first, second, input.len());
    let hidden = first.outputs(input);
    assert forall|output: int| 0 <= output < outputs implies second.biased_sum(output, hidden)
        == #[trigger] merged.biased_sum(output, input) by {
        let row = second.weights[output];
        lemma_sum_over_layer(row, first, middle, input, middle);
        assert(merged.weights[output] =~= Seq::new(
            input.len(),
            |col: int| view::inner_product(row, network::column(first.weights, col), middle),
        ));
        assert(scalar::sum_associates(
            view::inner_product(merged.weights[output], input, input.len()),
            view::inner_product(row, first.biases, middle),
            second.biases[output],
        ));
    }
    assert(second.outputs(hidden) =~= merged.outputs(input));
}

/// Without a nonlinear step between them, a chain of layers collapses into a single layer, no
/// matter how deep it is: where sums and products are exact, one layer of the same widths answers
/// the same to every input. Only the last layer of the chain may squash.
pub proof fn law_linear_chain_collapses<T: Numeric>(
    layers: Seq<Dense<T>>,
    widths: Seq<nat>,
    input: Seq<T>,
)
    requires
        scalar::exact::<T>(),
        0 < layers.len(),
        network::is_chain(layers, widths),
        forall|index: int|
            0 <= index < layers.len() - 1 ==> (#[trigger] layers[index]).activation
                == Activation::Identity,
        input.len() == widths[0],
    ensures
        network::collapsed(layers, widths[0]).has_shape(widths.last(), widths[0]),
        network::collapsed(layers, widths[0]).activation == layers.last().activation,
        network::chain_outputs(layers, input) == network::collapsed(layers, widths[0]).outputs(
            input,
        ),
    decreases layers.len(),
{
    let earlier = layers.drop_last();
    let last = layers.len() - 1;
    assert(layers[last].has_shape(widths[last + 1], widths[last]));
    if earlier.len() == 0 {
        assert(network::chain_outputs(earlier, input) == input);
    } else {
        assert forall|index: int| 0 <= index < earlier.len() implies (
        #[trigger] earlier[index]).has_shape(
            widths.drop_last()[index + 1],
            widths.drop_last()[index],
        ) by {
            assert(layers[index].has_shape(widths[index + 1], widths[index]));
        }
        law_linear_chain_collapses(earlier, widths.drop_last(), input);
        assert(layers[last - 1].activation == Activation::Identity);
        lemma_merged_outputs(
            network::collapsed(earlier, widths[0]),
            layers.last(),
            widths[last],
            widths[last + 1],
            input,
        );
    }
}

/// Whether a weighted sum can pick any one of `values` and leave the others out: `one` times a value
/// added to zero is that value, adding zero changes none of them, and a value times zero adds nothing
/// to the zero before a pick nor to the value picked. The product with zero need not be zero itself,
/// only vanish from the sum, so a type whose zero has a sign has this of its finite values other
/// than the negative zero.
pub open spec fn picks_cleanly<T: Numeric>(one: T, values: Seq<T>) -> bool {
    &&& forall|place: int|
        0 <= place < values.len() ==> {
            &&& T::ZERO.add_spec(one.mul_spec(#[trigger] values[place])) == values[place]
            &&& values[place].add_spec(T::ZERO) == values[place]
        }
    &&& forall|earlier: int, later: int|
        0 <= earlier < later < values.len() ==> {
            &&& T::ZERO.add_spec(T::ZERO.mul_spec(#[trigger] values[earlier])) == T::ZERO
            &&& values[earlier].add_spec(T::ZERO.mul_spec(#[trigger] values[later]))
                == values[earlier]
        }
}

/// A row of zeros with `one` at `place` picks the value at that place, once it has been reached.
proof fn lemma_unit_row<T: Numeric>(
    row: Seq<T>,
    one: T,
    place: int,
    values: Seq<T>,
    count: nat,
)
    requires
        picks_cleanly(one, values),
        row.len() == values.len(),
        0 <= place < row.len(),
        count <= row.len(),
        forall|index: int|
            0 <= index < row.len() ==> #[trigger] row[index] == if index == place {
                one
            } else {
                T::ZERO
            },
    ensures
        view::inner_product(row, values, count) == if place < count {
            values[place]
        } else {
            T::ZERO
        },
    decreases count,
{
    if count > 0 {
        let last = count - 1;
        lemma_unit_row(row, one, place, values, last as nat);
        assert(T::ZERO.add_spec(one.mul_spec(values[place])) == values[place]);
        assert(row[last] == if last == place {
            one
        } else {
            T::ZERO
        });
    }
}

/// With identity weights, no bias and no squashing the input comes back unchanged, where a weighted
/// sum picks its components cleanly.
pub proof fn law_identity_layer_returns_its_input<T: Numeric>(one: T, input: Seq<T>)
    requires
        picks_cleanly(one, input),
    ensures
        network::identity_layer(one, input.len()).outputs(input) == input,
{
    let layer = network::identity_layer(one, input.len());
    assert forall|output: int| 0 <= output < input.len() implies #[trigger] layer.outputs(
        input,
    )[output] == input[output] by {
        lemma_unit_row(layer.weights[output], one, output, input, input.len());
        assert(input[output].add_spec(T::ZERO) == input[output]);
    }
    assert(layer.outputs(input) =~= input);
}

} // verus!
