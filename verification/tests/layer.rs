use multicalc::error::LinalgError;
use multicalc::linear_algebra::{MatrixView, Vector, VectorView};
use multicalc::mlp_inference::{Activation, Layer, ParameterCursor};
use multicalc::scalar::Numeric;

#[derive(Debug, Clone, Copy, PartialEq, PartialOrd)]
struct Real(f64);

impl core::ops::Add for Real {
    type Output = Real;
    fn add(self, other: Real) -> Real {
        Real(self.0 + other.0)
    }
}

impl core::ops::Mul for Real {
    type Output = Real;
    fn mul(self, other: Real) -> Real {
        Real(self.0 * other.0)
    }
}

impl Numeric for Real {
    const ZERO: Real = Real(0.0);
    fn tanh_spec(self) -> Real {
        self
    }
    fn lawful() {}
    fn tanh(self) -> Real {
        Real(self.0.tanh())
    }
}

fn reals<const N: usize>(values: [f64; N]) -> [Real; N] {
    values.map(Real)
}

#[test]
fn relu_clamps_and_passes_through() {
    assert_eq!(Activation::Relu.apply(Real(-2.0)), Real(0.0));
    assert_eq!(Activation::Relu.apply(Real(3.0)), Real(3.0));
    assert_eq!(Activation::Relu.apply(Real(0.0)), Real(0.0));
    assert_eq!(Activation::Relu.apply(Real(f64::NAN)), Real(0.0));
}

#[test]
fn relu_twice_is_relu_once() {
    for value in [-2.5, 0.0, 4.0] {
        let once = Activation::Relu.apply(Real(value));
        assert_eq!(Activation::Relu.apply(once), once);
    }
}

#[test]
fn relu_is_monotone() {
    let values = [-4.0, -0.5, 0.0, 0.25, 3.0];
    for (index, &left) in values.iter().enumerate() {
        for &right in &values[index..] {
            let low = Activation::Relu.apply(Real(left));
            let high = Activation::Relu.apply(Real(right));
            assert!(Real(0.0) <= low);
            assert!(low <= high);
            assert!(Real(left) <= low);
        }
    }
}

#[test]
fn a_tanh_layer_is_bounded() {
    let weights = reals([100.0, -100.0, 0.5]);
    let biases = reals([1.0, -1.0, 0.0]);
    let layer = Layer::<3, 1, Real>::try_from_slices(&weights, &biases, Activation::Tanh).unwrap();
    for value in [-1e6, -1.0, 0.0, 0.3, 1e6] {
        let output = layer.forward(Vector::new(reals([value])).view()).unwrap();
        for &component in output.as_slice() {
            assert!(Real(-1.0) <= component && component <= Real(1.0));
        }
    }
}

#[test]
fn identity_passes_through() {
    assert_eq!(Activation::Identity.apply(Real(-2.0)), Real(-2.0));
    assert_eq!(Activation::Identity.apply(Real(1.5)), Real(1.5));
}

#[test]
fn tanh_squashes() {
    assert_eq!(Activation::Tanh.apply(Real(0.0)), Real(0.0));
    let squashed = Activation::Tanh.apply(Real(1.0));
    assert!((squashed.0 - 0.7615941559557649).abs() < 1e-12);
}

#[test]
fn activations_compare_by_kind() {
    assert_eq!(Activation::Relu, Activation::Relu);
    assert_ne!(Activation::Relu, Activation::Tanh);
}

#[test]
fn a_layer_from_slices_rectifies_its_sums() {
    let weights = reals([0.5, -0.5, 1.0, 0.0, -1.0, 2.0]);
    let biases = reals([0.0, 1.0, -1.0]);
    let hidden =
        Layer::<3, 2, Real>::try_from_slices(&weights, &biases, Activation::Relu).unwrap();
    let input = Vector::new(reals([2.0, 1.0]));
    assert_eq!(
        hidden.forward(input.view()).unwrap().into_array(),
        reals([0.5, 3.0, 0.0])
    );
}

#[test]
fn identity_weights_return_the_input() {
    let weights = reals([1.0, 0.0, 0.0, 1.0]);
    let biases = reals([0.0, 0.0]);
    let layer = Layer::new(
        MatrixView::<2, 2, Real>::try_from_row_major_slice(&weights).unwrap(),
        VectorView::<2, Real>::try_from_slice(&biases).unwrap(),
        Activation::Identity,
    );
    let input = Vector::new(reals([2.0, -3.0]));
    assert_eq!(layer.forward(input.view()).unwrap(), input);
}

#[test]
fn identity_weights_return_the_input_to_the_bit() {
    let weights = reals([1.0, 0.0, 0.0, 0.0, 1.0, 0.0, 0.0, 0.0, 1.0]);
    let biases = reals([0.0, 0.0, 0.0]);
    let layer =
        Layer::<3, 3, Real>::try_from_slices(&weights, &biases, Activation::Identity).unwrap();
    let input = Vector::new(reals([-3.0, 2.0, -0.1]));
    let output = layer.forward(input.view()).unwrap().into_array();
    let bits = output.map(|value| value.0.to_bits());
    assert_eq!(bits, [(-3.0f64).to_bits(), 2.0f64.to_bits(), (-0.1f64).to_bits()]);
}

#[test]
fn one_identity_weight_keeps_infinity_and_drops_the_sign_of_zero() {
    let weights = reals([1.0]);
    let biases = reals([0.0]);
    let layer =
        Layer::<1, 1, Real>::try_from_slices(&weights, &biases, Activation::Identity).unwrap();
    let zero = Vector::new(reals([-0.0]));
    let output = layer.forward(zero.view()).unwrap().into_array();
    assert_eq!(output[0].0.to_bits(), 0.0f64.to_bits());
    let infinite = Vector::new(reals([f64::INFINITY]));
    assert_eq!(layer.forward(infinite.view()).unwrap(), infinite);
}

#[test]
fn an_output_layer_adds_its_bias() {
    let weights = reals([1.0, 1.0, 1.0]);
    let biases = reals([0.5]);
    let output =
        Layer::<1, 3, Real>::try_from_slices(&weights, &biases, Activation::Identity).unwrap();
    let hidden = Vector::new(reals([0.5, 3.0, 0.0]));
    assert_eq!(
        output.forward(hidden.view()).unwrap().into_array(),
        reals([4.0])
    );
}

#[test]
fn one_flat_block_is_a_network() {
    // 2 -> 3 -> 1: hidden weights, hidden biases, output weights, output bias.
    let parameters = reals([
        0.5, -0.5, 1.0, 0.0, -1.0, 2.0, //
        0.0, 1.0, -1.0, //
        1.0, 1.0, 1.0, //
        0.5,
    ]);
    let mut cursor = ParameterCursor::new(&parameters);
    let hidden = cursor.try_take_layer::<3, 2>(Activation::Relu).unwrap();
    let output = cursor
        .try_take_layer::<1, 3>(Activation::Identity)
        .unwrap();
    assert!(cursor.is_empty());

    let observation = Vector::new(reals([2.0, 1.0]));
    let activations = hidden.forward(observation.view()).unwrap();
    // The third hidden unit sums to -1, so the rectifier switches it off.
    assert_eq!(activations.into_array(), reals([0.5, 3.0, 0.0]));
    assert_eq!(
        output.forward(activations.view()).unwrap().into_array(),
        reals([4.0])
    );
}

#[test]
fn a_layer_off_the_cursor_is_the_layer_of_its_two_runs() {
    let parameters = reals([1.0, 2.0, 3.0, 4.0, 5.0, 6.0, 7.0]);
    let mut cursor = ParameterCursor::new(&parameters);
    let taken = cursor.try_take_layer::<2, 2>(Activation::Tanh).unwrap();
    let sliced =
        Layer::<2, 2, Real>::try_from_slices(&parameters[..4], &parameters[4..6], Activation::Tanh)
            .unwrap();
    let input = Vector::new(reals([0.25, -0.125]));
    assert_eq!(
        taken.forward(input.view()).unwrap(),
        sliced.forward(input.view()).unwrap()
    );
    assert_eq!(cursor.remaining(), 1);
}

#[test]
fn trailing_values_make_no_difference() {
    let weights = reals([1.0, 2.0, 9.0, 9.0]);
    let biases = reals([0.5, 9.0]);
    let long =
        Layer::<1, 2, Real>::try_from_slices(&weights, &biases, Activation::Identity).unwrap();
    let exact =
        Layer::<1, 2, Real>::try_from_slices(&weights[..2], &biases[..1], Activation::Identity)
            .unwrap();
    let input = Vector::new(reals([3.0, 4.0]));
    assert_eq!(
        long.forward(input.view()).unwrap().into_array(),
        reals([11.5])
    );
    assert_eq!(
        exact.forward(input.view()).unwrap().into_array(),
        reals([11.5])
    );
}

#[test]
fn an_output_depends_on_its_own_row_alone() {
    let biases = reals([0.5, -0.5]);
    let left = reals([1.0, 2.0, 3.0, 4.0]);
    let right = reals([1.0, 2.0, -7.0, 8.0]);
    let input = Vector::new(reals([1.0, -1.0]));
    let of = |weights: &[Real; 4]| {
        Layer::<2, 2, Real>::try_from_slices(weights, &biases, Activation::Identity)
            .unwrap()
            .forward(input.view())
            .unwrap()
            .into_array()
    };
    assert_eq!(of(&left), reals([-0.5, -1.5]));
    assert_eq!(of(&right), reals([-0.5, -15.5]));
}

#[test]
fn the_activation_comes_after_the_bias() {
    // The products alone are negative; only the finished sum is positive.
    let weights = reals([-1.0, -1.0]);
    let biases = reals([5.0]);
    let layer = Layer::<1, 2, Real>::try_from_slices(&weights, &biases, Activation::Relu).unwrap();
    let input = Vector::new(reals([1.0, 2.0]));
    assert_eq!(
        layer.forward(input.view()).unwrap().into_array(),
        reals([2.0])
    );
}

#[test]
fn two_linear_layers_collapse_into_one() {
    let first_weights = reals([1.0, 2.0, 3.0, 4.0]);
    let first_biases = reals([1.0, -1.0]);
    let second_weights = reals([2.0, -1.0]);
    let second_biases = reals([0.5]);
    let first =
        Layer::<2, 2, Real>::try_from_slices(&first_weights, &first_biases, Activation::Identity)
            .unwrap();
    let second =
        Layer::<1, 2, Real>::try_from_slices(&second_weights, &second_biases, Activation::Identity)
            .unwrap();
    // [2 -1] * [[1 2] [3 4]] = [-1 0]; [2 -1] * [1 -1] + 0.5 = 3.5.
    let merged_weights = reals([-1.0, 0.0]);
    let merged_biases = reals([3.5]);
    let merged =
        Layer::<1, 2, Real>::try_from_slices(&merged_weights, &merged_biases, Activation::Identity)
            .unwrap();
    let input = Vector::new(reals([4.0, 8.0]));
    let hidden = first.forward(input.view()).unwrap();
    assert_eq!(
        second.forward(hidden.view()).unwrap(),
        merged.forward(input.view()).unwrap()
    );
    assert_eq!(
        merged.forward(input.view()).unwrap().into_array(),
        reals([-0.5])
    );
}

#[test]
fn a_layer_without_inputs_answers_its_biases() {
    let biases = reals([1.5, -2.5]);
    let layer = Layer::<2, 0, Real>::try_from_slices(&[], &biases, Activation::Relu).unwrap();
    let input = Vector::<0, Real>::new([]);
    assert_eq!(
        layer.forward(input.view()).unwrap().into_array(),
        reals([1.5, 0.0])
    );
}

#[test]
fn a_copied_layer_answers_the_same() {
    let weights = reals([2.0]);
    let biases = reals([1.0]);
    let layer = Layer::<1, 1, Real>::try_from_slices(&weights, &biases, Activation::Tanh).unwrap();
    let copy = layer;
    let input = Vector::new(reals([0.5]));
    assert_eq!(
        copy.forward(input.view()).unwrap(),
        layer.clone().forward(input.view()).unwrap()
    );
}

#[test]
fn views_hand_out_rows_and_inner_products() {
    let values = reals([1.0, 2.0, 3.0, 4.0, 5.0, 6.0, 9.0]);
    let matrix = MatrixView::<2, 3, Real>::try_from_row_major_slice(&values).unwrap();
    let row = matrix.try_row(1).unwrap();
    assert_eq!(row.try_get(0), Ok(&Real(4.0)));
    assert_eq!(row.dot(matrix.try_row(0).unwrap()), Real(32.0));
    assert_eq!(matrix.try_row(2).err(), Some(LinalgError::OutOfBounds));
    assert_eq!(
        MatrixView::<2, 4, Real>::try_from_row_major_slice(&values).err(),
        Some(LinalgError::OutOfBounds)
    );
    assert_eq!(
        VectorView::<8, Real>::try_from_slice(&values).err(),
        Some(LinalgError::OutOfBounds)
    );
}

#[test]
fn vectors_are_written_in_place() {
    let mut vector = Vector::<2, Real>::zeros();
    assert_eq!(vector.as_slice(), &reals([0.0, 0.0]));
    *vector.get_mut(1).unwrap() = Real(7.0);
    assert!(vector.get_mut(2).is_none());
    assert_eq!(vector.into_array(), reals([0.0, 7.0]));
}
