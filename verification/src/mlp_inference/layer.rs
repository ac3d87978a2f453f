use vstd::prelude::*;
use vstd::std_specs::ops::AddSpec;

use crate::error::LinalgError;
use crate::linear_algebra::view;
use crate::linear_algebra::{MatrixView, Vector, VectorView};
use crate::scalar;
use crate::scalar::Numeric;

verus! {

/// The scalar function a layer applies to each of its outputs, shaping the raw weighted sum
/// into the range the next layer expects.
///
/// It is also the layer's only nonlinear step: without one, a chain of layers collapses into a
/// single layer no matter how deep it is.
#[derive(Debug, Clone, Copy, PartialEq, Eq, Structural)]
#[non_exhaustive]
pub enum Activation {
    /// Clamps a negative sum to zero and passes a positive one through. The usual hidden-layer
    /// choice: one comparison.
    Relu,
    /// Squashes into `(-1, 1)`, as far as the scalar's hyperbolic tangent does. Bounded, which
    /// matters when the value drives an actuator, at the cost of a hyperbolic tangent per
    /// component.
    Tanh,
    /// Passes the value through unchanged. The usual output-layer choice, where the value is a
    /// physical quantity to report rather than squash.
    Identity,
}

impl Activation {
    /// What the activation makes of one value.
    pub open spec fn activated<T: Numeric>(self, value: T) -> T {
        match self {
            Activation::Relu => if scalar::exceeds(value, T::ZERO) {
                value
            } else {
                T::ZERO
            },
            Activation::Tanh => value.tanh_spec(),
            Activation::Identity => value,
        }
    }

    /// Applies the activation to one value.
    #[inline]
    #[must_use]
    pub fn apply<T: Numeric>(self, value: T) -> (result: T)
        ensures
            result == self.activated(value),
    {
        proof {
            T::lawful();
        }
        match self {
            Activation::Relu => {
                if value > T::ZERO {
                    value
                } else {
                    T::ZERO
                }
            },
            Activation::Tanh => value.tanh(),
            Activation::Identity => value,
        }
    }
}

/// A dense layer as a mathematical object: one row of weights and one bias per output.
#[verifier::ext_equal]
pub struct Dense<T> {
    pub weights: Seq<Seq<T>>,
    pub biases: Seq<T>,
    pub activation: Activation,
}

impl<T> Dense<T> {
    /// Whether the layer turns `inputs` numbers into `outputs` numbers.
    pub open spec fn has_shape(self, outputs: nat, inputs: nat) -> bool {
        &&& self.weights.len() == outputs
        &&& self.biases.len() == outputs
        &&& forall|row: int| 0 <= row < outputs ==> (#[trigger] self.weights[row]).len() == inputs
    }

    /// The layer whose weights lie row by row at the front of `weights` and whose biases lie at
    /// the front of `biases`.
    pub open spec fn from_runs(
        weights: Seq<T>,
        biases: Seq<T>,
        outputs: nat,
        inputs: nat,
        activation: Activation,
    ) -> Self {
        Dense {
            weights: view::row_major(weights, outputs, inputs),
            biases: biases.take(outputs as int),
            activation,
        }
    }
}

impl<T: Numeric> Dense<T> {
    /// The finished sum of one output, before its activation.
    pub open spec fn biased_sum(self, output: int, input: Seq<T>) -> T {
        view::inner_product(self.weights[output], input, input.len()).add_spec(self.biases[output])
    }

    /// What the layer answers to `input`.
    pub open spec fn outputs(self, input: Seq<T>) -> Seq<T> {
        Seq::new(
            self.weights.len(),
            |output: int| self.activation.activated(self.biased_sum(output, input)),
        )
    }
}

/// One dense layer of a multi-layer perceptron: `activation(weights · input + biases)`.
///
/// The parameters are borrowed, not owned, so a policy exported as one flat buffer is read where
/// it sits. Only the intermediate activations are materialized, and those are `OUTPUT` values
/// rather than `OUTPUT`×`INPUT`.
#[derive(Debug)]
#[must_use]
pub struct Layer<'data, const OUTPUT: usize, const INPUT: usize, T> {
    weights: MatrixView<'data, OUTPUT, INPUT, T>,
    biases: VectorView<'data, OUTPUT, T>,
    activation: Activation,
}

// Written out rather than derived: a derive would demand `T: Copy`, but what is copied is the pair
// of handles, not the parameters they point at.
impl<'data, const OUTPUT: usize, const INPUT: usize, T> Clone for Layer<'data, OUTPUT, INPUT, T> {
    #[inline]
    fn clone(&self) -> (copy: Self)
        ensures
            copy == *self,
    {
        *self
    }
}

impl<'data, const OUTPUT: usize, const INPUT: usize, T> Copy for Layer<'data, OUTPUT, INPUT, T> {

}

impl<'data, const OUTPUT: usize, const INPUT: usize, T> View for Layer<'data, OUTPUT, INPUT, T> {
    type V = Dense<T>;

    closed spec fn view(&self) -> Dense<T> {
        Dense { weights: self.weights@, biases: self.biases@, activation: self.activation }
    }
}

impl<'data, const OUTPUT: usize, const INPUT: usize, T> Layer<'data, OUTPUT, INPUT, T> {
    /// A layer turns `INPUT` numbers into `OUTPUT` numbers.
    #[verifier::type_invariant]
    pub open spec fn well_formed(self) -> bool {
        self@.has_shape(OUTPUT as nat, INPUT as nat)
    }

    /// A layer over parameters that are already viewed.
    #[inline]
    pub fn new(
        weights: MatrixView<'data, OUTPUT, INPUT, T>,
        biases: VectorView<'data, OUTPUT, T>,
        activation: Activation,
    ) -> (layer: Self)
        ensures
            layer@ == (Dense { weights: weights@, biases: biases@, activation }),
            layer@.has_shape(OUTPUT as nat, INPUT as nat),
    {
        proof {
            use_type_invariant(&weights);
            use_type_invariant(&biases);
        }
        Layer { weights, biases, activation }
    }

    /// A layer over two runs of a parameter buffer: `weights` read row-major as
    /// `OUTPUT`×`INPUT`, `biases` as `OUTPUT` components. `OutOfBounds` if either is too short;
    /// trailing elements in either slice are ignored.
    #[inline]
    pub fn try_from_slices(
        weights: &'data [T],
        biases: &'data [T],
        activation: Activation,
    ) -> (result: Result<Self, LinalgError>)
        ensures
            match result {
                Ok(layer) => {
                    &&& OUTPUT * INPUT <= weights@.len()
                    &&& OUTPUT <= biases@.len()
                    &&& layer@ == Dense::from_runs(
                        weights@,
                        biases@,
                        OUTPUT as nat,
                        INPUT as nat,
                        activation,
                    )
                    &&& layer@.has_shape(OUTPUT as nat, INPUT as nat)
                },
                Err(error) => {
                    &&& weights@.len() < OUTPUT * INPUT || biases@.len() < OUTPUT
                    &&& error == LinalgError::OutOfBounds
                },
            },
    {
        Ok(
            Layer::new(
                MatrixView::try_from_row_major_slice(weights)?,
                VectorView::try_from_slice(biases)?,
                activation,
            ),
        )
    }
}

impl<'data, const OUTPUT: usize, const INPUT: usize, T: Numeric> Layer<'data, OUTPUT, INPUT, T> {
    /// `activation(weights · input + biases)`, one output component at a time.
    ///
    /// Each output reads the whole input and nothing else, so the components are independent and
    /// the order they are computed in does not matter. The activation is applied to the finished
    /// sum, never to the individual products. A layer accepts every input of its width.
    #[inline]
    pub fn forward(&self, input: VectorView<'_, INPUT, T>) -> (result: Result<
        Vector<OUTPUT, T>,
        LinalgError,
    >)
        ensures
            result is Ok,
            result->Ok_0.components() == self@.outputs(input@),
            result->Ok_0.components().len() == OUTPUT,
    {
        proof {
            use_type_invariant(&input);
            use_type_invariant(&self.weights);
            use_type_invariant(&self.biases);
            T::lawful();
        }
        let mut result = Vector::<OUTPUT, T>::zeros();
        for row_index in 0..OUTPUT
            invariant
                input@.len() == INPUT,
                self@.weights.len() == OUTPUT,
                T::obeys_add_spec(),
                forall|left: T, right: T| #[trigger] left.add_req(right),
                result.components().len() == OUTPUT,
                forall|output: int|
                    0 <= output < row_index ==> #[trigger] result.components()[output]
                        == self@.outputs(input@)[output],
        {
            let weighted_sum = self.weights.try_row(row_index)?.dot(input);
            let biased = weighted_sum + *self.biases.try_get(row_index)?;
            let slot = result.get_mut(row_index).ok_or(LinalgError::OutOfBounds)?;
            *slot = self.activation.apply(biased);
        }
        assert(result.components() =~= self@.outputs(input@));
        Ok(result)
    }
}

} // verus!
