//! Runs whole networks, loaded the way a trained one arrives: one flat block of numbers walked by
//! a cursor. Each case runs at two precisions.

use multicalc::linear_algebra::Vector;
use multicalc::mlp_inference::{Activation, ParameterCursor};
use multicalc::scalar::Numeric;

/// The widths of the policy: observation, both hidden layers, and the action.
const OBSERVATION: usize = 22;
const HIDDEN: usize = 64;
const ACTION: usize = 4;

/// Observations the policy is run on.
const SAMPLE_COUNT: usize = 8;

/// Outputs in the activation table.
const SUM_COUNT: usize = 7;

/// How many numbers the policy holds.
const PARAMETER_COUNT: usize = 5892;

// The first four components of each hidden layer, and the action, for every sample.
const HIDDEN_1_FRONT: [[f64; 4]; 8] = [
    [0.0, 0.3598921051132038, 0.0, 0.0],
    [0.028358826031585238, 0.2024484989894333, 0.1047973365269641, 0.8253938269328813],
    [0.64320003895687, 0.0, 0.0, 0.0],
    [0.0, 0.0, 0.17666156111214093, 0.0],
    [0.0, 1.1591070571999325, 0.5919166971094683, 0.0],
    [0.030990707310138532, 0.5481611874417496, 0.0, 0.0],
    [0.0, 0.0, 0.41439470224368335, 1.43623428124544],
    [0.08632344747434928, 1.1983573567162082, 0.0, 0.31487245917858075],
];
const HIDDEN_2_FRONT: [[f64; 4]; 8] = [
    [1.0767216199576888, 0.972016749523631, 0.25447211522164814, 1.37927389621797],
    [0.12161809152149583, 0.16476856741605722, 1.2668959336803487, 0.4075943078687659],
    [0.7950222074325792, 0.41493356441619217, 1.0083252841329688, 0.69791063887346],
    [0.7512910273160192, 0.2073338050402706, 1.431894120324015, 0.10039730147411832],
    [0.3316141064983741, 0.0, 0.8620095852335086, 0.6387135362129484],
    [0.43731178874438126, 0.0, 1.4316364902119862, 0.3478936340657845],
    [0.47046177664349687, 1.5317283713697654, 0.36442669565433555, 0.5143853957116062],
    [0.4315765650178875, 0.13082074937426227, 0.3282725416953584, 1.2125748267543568],
];
const ACTION_GOLDEN: [[f64; 4]; 8] = [
    [0.3711726433305958, 0.7009427472909682, 0.07673618929220606, -0.23667638288619103],
    [0.4084410279543633, 0.4441143412125659, -0.3092434339734907, 0.24899629120617883],
    [-0.6541768544610028, 0.3387452929655257, -0.19287996064816865, -0.668854836406092],
    [-0.4737501209569849, -0.10783319964795315, 0.1315111543901648, 0.2960684269724699],
    [-0.19583309263231427, -0.11704513672471513, 0.3549648716267585, -0.17737868607200225],
    [-0.35652853794328737, 0.18688904264116926, 0.022429804940091246, 0.25958441140193034],
    [-0.3295553965478537, 0.6672322837403039, 0.4025840826424581, -0.5013128112175507],
    [-0.0014665099610388854, -0.06516178736885052, -0.06265127331348505, 0.030956395201615753],
];

#[derive(Debug, Clone, Copy, PartialEq, PartialOrd)]
struct Double(f64);

#[derive(Debug, Clone, Copy, PartialEq, PartialOrd)]
struct Single(f32);

impl core::ops::Add for Double {
    type Output = Double;
    fn add(self, other: Double) -> Double {
        Double(self.0 + other.0)
    }
}

impl core::ops::Mul for Double {
    type Output = Double;
    fn mul(self, other: Double) -> Double {
        Double(self.0 * other.0)
    }
}

impl Numeric for Double {
    const ZERO: Double = Double(0.0);
    fn tanh_spec(self) -> Double {
        self
    }
    fn lawful() {}
    fn tanh(self) -> Double {
        Double(self.0.tanh())
    }
}

impl core::ops::Add for Single {
    type Output = Single;
    fn add(self, other: Single) -> Single {
        Single(self.0 + other.0)
    }
}

impl core::ops::Mul for Single {
    type Output = Single;
    fn mul(self, other: Single) -> Single {
        Single(self.0 * other.0)
    }
}

impl Numeric for Single {
    const ZERO: Single = Single(0.0);
    fn tanh_spec(self) -> Single {
        self
    }
    fn lawful() {}
    fn tanh(self) -> Single {
        Single(self.0.tanh())
    }
}

/// A scalar that can be made from the numbers of a case and compared with its expected values.
trait Case: Numeric {
    fn narrowed(value: f64) -> Self;
    fn widened(self) -> f64;
}

impl Case for Double {
    fn narrowed(value: f64) -> Self {
        Double(value)
    }
    fn widened(self) -> f64 {
        self.0
    }
}

impl Case for Single {
    fn narrowed(value: f64) -> Self {
        Single(value as f32)
    }
    fn widened(self) -> f64 {
        self.0 as f64
    }
}

/// A stream of numbers that both precisions hold exactly.
struct Stream {
    state: u64,
}

impl Stream {
    fn next(&mut self, scale: f64) -> f64 {
        self.state = self
            .state
            .wrapping_mul(6364136223846793005)
            .wrapping_add(1442695040888963407);
        ((self.state >> 40) as i64 - (1 << 23)) as f64 / (1 << 23) as f64 * scale
    }
}

fn close(got: f64, want: f64, tolerance: f64) -> bool {
    (got - want).abs() <= tolerance * (1.0 + want.abs())
}

fn assert_row<T: Case>(got: &[T], want: &[f64], tolerance: f64, ctx: &str) {
    for (index, &value) in want.iter().enumerate() {
        let got = got[index].widened();
        assert!(
            close(got, value, tolerance),
            "{ctx}[{index}]: got {got}, want {value}"
        );
    }
}

/// A dense layer with its offsets written out by hand.
fn by_hand(weights: &[f64], biases: &[f64], input: &[f64], act: fn(f64) -> f64) -> Vec<f64> {
    (0..biases.len())
        .map(|row| {
            let products = (0..input.len()).map(|col| weights[row * input.len() + col] * input[col]);
            act(products.sum::<f64>() + biases[row])
        })
        .collect()
}

fn rectified(value: f64) -> f64 {
    value.max(0.0)
}

/// Loads the three layers from one flat buffer and runs every observation through them.
fn check_policy<T: Case>(tolerance: f64) {
    let mut stream = Stream {
        state: 0x9E3779B97F4A7C15,
    };
    let block: Vec<f64> = (0..PARAMETER_COUNT).map(|_| stream.next(0.25)).collect();
    let parameters: Vec<T> = block.iter().map(|&value| T::narrowed(value)).collect();

    let mut cursor = ParameterCursor::new(&parameters);
    let hidden_1 = cursor
        .try_take_layer::<HIDDEN, OBSERVATION>(Activation::Relu)
        .unwrap();
    let hidden_2 = cursor
        .try_take_layer::<HIDDEN, HIDDEN>(Activation::Relu)
        .unwrap();
    let output = cursor
        .try_take_layer::<ACTION, HIDDEN>(Activation::Tanh)
        .unwrap();
    // The three shapes declared above account for every number in the block.
    assert!(
        cursor.is_empty(),
        "{} parameters left after the last layer",
        cursor.remaining()
    );

    for sample in 0..SAMPLE_COUNT {
        let observed: [f64; OBSERVATION] = core::array::from_fn(|_| stream.next(2.0));
        let observation = Vector::new(observed.map(T::narrowed));
        let first = hidden_1.forward(observation.view()).unwrap();
        let second = hidden_2.forward(first.view()).unwrap();
        let action = output.forward(second.view()).unwrap();

        assert_row(first.as_slice(), &HIDDEN_1_FRONT[sample], tolerance, "hidden_1");
        assert_row(second.as_slice(), &HIDDEN_2_FRONT[sample], tolerance, "hidden_2");
        assert_row(action.as_slice(), &ACTION_GOLDEN[sample], tolerance, "action");

        let want_1 = by_hand(&block[0..1408], &block[1408..1472], &observed, rectified);
        let want_2 = by_hand(&block[1472..5568], &block[5568..5632], &want_1, rectified);
        let want_action = by_hand(&block[5632..5888], &block[5888..5892], &want_2, f64::tanh);
        assert_row(first.as_slice(), &want_1, tolerance, "hidden_1 by hand");
        assert_row(second.as_slice(), &want_2, tolerance, "hidden_2 by hand");
        assert_row(action.as_slice(), &want_action, tolerance, "action by hand");
    }
}

/// Every activation over the same seven sums: both signs, zero, and a magnitude far enough out
/// that the hyperbolic tangent has saturated. Weights are one sum each, biases are zero.
fn check_activations<T: Case>(tolerance: f64) {
    let sums = [-8.0, -1.0, -0.5, 0.0, 0.5, 1.0, 8.0];
    let mut parameters: Vec<T> = sums.iter().map(|&sum| T::narrowed(sum)).collect();
    parameters.extend([T::ZERO; SUM_COUNT]);
    let observation = Vector::new([T::narrowed(1.0)]);

    for (name, activation, want) in [
        (
            "relu",
            Activation::Relu,
            [0.0, 0.0, 0.0, 0.0, 0.5, 1.0, 8.0],
        ),
        (
            "tanh",
            Activation::Tanh,
            [
                -0.9999997749296758,
                -0.7615941559557649,
                -0.46211715726000974,
                0.0,
                0.46211715726000974,
                0.7615941559557649,
                0.9999997749296758,
            ],
        ),
        ("identity", Activation::Identity, sums),
    ] {
        let mut cursor = ParameterCursor::new(&parameters);
        let layer = cursor.try_take_layer::<SUM_COUNT, 1>(activation).unwrap();
        assert!(cursor.is_empty(), "the table is one layer and nothing else");
        let got = layer.forward(observation.view()).unwrap();
        assert_row(got.as_slice(), &want, tolerance, name);
    }
}

#[test]
fn mlp_goldens() {
    check_activations::<Double>(1e-12);
    check_activations::<Single>(1e-6);
    check_policy::<Double>(1e-12);
    check_policy::<Single>(1e-5);
}

#[test]
fn a_block_with_one_number_too_many_is_noticed() {
    let parameters = vec![Double(0.5); PARAMETER_COUNT + 1];
    let mut cursor = ParameterCursor::new(&parameters);
    assert!(cursor
        .try_take_layer::<HIDDEN, OBSERVATION>(Activation::Relu)
        .is_ok());
    assert!(cursor
        .try_take_layer::<HIDDEN, HIDDEN>(Activation::Relu)
        .is_ok());
    assert!(cursor
        .try_take_layer::<ACTION, HIDDEN>(Activation::Tanh)
        .is_ok());
    assert!(!cursor.is_empty());
    assert_eq!(cursor.remaining(), 1);
}

#[test]
fn a_block_with_one_number_too_few_fails_at_the_last_layer() {
    let parameters = vec![Double(0.5); PARAMETER_COUNT - 1];
    let mut cursor = ParameterCursor::new(&parameters);
    assert!(cursor
        .try_take_layer::<HIDDEN, OBSERVATION>(Activation::Relu)
        .is_ok());
    assert!(cursor
        .try_take_layer::<HIDDEN, HIDDEN>(Activation::Relu)
        .is_ok());
    assert!(cursor
        .try_take_layer::<ACTION, HIDDEN>(Activation::Tanh)
        .is_err());
    assert_eq!(cursor.remaining(), 259);
}
