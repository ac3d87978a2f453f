//! The scalar a network computes with.

use core::cmp::Ordering;
use core::ops::{Add, Mul};

use vstd::prelude::*;
use vstd::std_specs::cmp::PartialOrdSpec;
use vstd::std_specs::ops::{AddSpec, MulSpec};

verus! {

/// A number type that weights, biases and activations can be made of.
///
/// The library needs a zero, a sum, a product, a comparison and a hyperbolic tangent, and takes
/// each of them to be defined on all operands and to depend on its operands alone. It does not
/// take the sum or the product to be exact: no rounding law is asked for here.
///
/// [`Numeric::tanh_spec`] and [`Numeric::lawful`] are ghost members. A type outside verified code
/// has to name them too, with bodies that never run; that its operations keep to them is then up
/// to its author, and nothing checks it.
///
/// Floating-point types keep to them only up to what the language promises. Rust does not
/// guarantee that a floating-point sum or product is the same on every evaluation (the bits of a
/// NaN may differ), and leaves the precision of the standard library's hyperbolic tangent open.
/// What is proved here reaches such a scalar as far as its operations do give equal results for
/// equal operands.
pub trait Numeric: Copy + PartialOrd + Add<Output = Self> + Mul<Output = Self> {
    /// The value a weighted sum starts from, and the one a rectifier clamps to.
    const ZERO: Self;

    /// The value that [`Numeric::tanh`] returns.
    spec fn tanh_spec(self) -> Self;

    /// The hyperbolic tangent.
    fn tanh(self) -> (result: Self)
        ensures
            result == self.tanh_spec(),
    ;

    /// `+`, `*` and `>` accept every pair of operands, and each is a function of its operands.
    proof fn lawful()
        ensures
            Self::obeys_add_spec(),
            forall|left: Self, right: Self| #[trigger] left.add_req(right),
            Self::obeys_mul_spec(),
            forall|left: Self, right: Self| #[trigger] left.mul_req(right),
            Self::obeys_partial_cmp_spec(),
    ;
}

/// Whether `left > right`.
pub open spec fn exceeds<T: Numeric>(left: T, right: T) -> bool {
    left.partial_cmp_spec(&right) == Some(Ordering::Greater)
}

/// Whether `left < right`.
pub open spec fn falls_below<T: Numeric>(left: T, right: T) -> bool {
    left.partial_cmp_spec(&right) == Some(Ordering::Less)
}

/// Whether `left <= right`.
pub open spec fn at_most<T: Numeric>(left: T, right: T) -> bool {
    left.partial_cmp_spec(&right) == Some(Ordering::Less) || left.partial_cmp_spec(&right) == Some(
        Ordering::Equal,
    )
}

/// Whether three values are in order wherever their neighbours are.
pub open spec fn order_is_transitive<T: Numeric>(first: T, second: T, third: T) -> bool {
    at_most(first, second) && at_most(second, third) ==> at_most(first, third)
}

/// Whether any two values can be compared, and the comparison says the same from either side.
pub open spec fn order_is_total<T: Numeric>(left: T, right: T) -> bool {
    &&& at_most(left, right) || exceeds(left, right)
    &&& exceeds(left, right) <==> falls_below(right, left)
}

/// Whether the comparison orders `values` from the smallest to the largest. A type with a value
/// that compares with nothing has this of the other values only.
pub open spec fn ordered<T: Numeric>(values: Set<T>) -> bool {
    &&& forall|value: T| values.contains(value) ==> #[trigger] at_most(value, value)
    &&& forall|left: T, right: T|
        values.contains(left) && values.contains(right) ==> #[trigger] order_is_total(left, right)
    &&& forall|first: T, second: T, third: T|
        values.contains(first) && values.contains(second) && values.contains(third)
            ==> #[trigger] order_is_transitive(first, second, third)
}

/// Whether the hyperbolic tangent of each of `values` lies between `low` and `high`.
pub open spec fn tanh_lies_between<T: Numeric>(values: Set<T>, low: T, high: T) -> bool {
    forall|value: T|
        values.contains(value) ==> {
            &&& at_most(low, #[trigger] value.tanh_spec())
            &&& at_most(value.tanh_spec(), high)
        }
}

/// Whether a sum does not depend on the order of its operands.
pub open spec fn sum_commutes<T: Numeric>(left: T, right: T) -> bool {
    left.add_spec(right) == right.add_spec(left)
}

/// Whether a sum of three does not depend on which pair is added first.
pub open spec fn sum_associates<T: Numeric>(first: T, second: T, third: T) -> bool {
    first.add_spec(second).add_spec(third) == first.add_spec(second.add_spec(third))
}

/// Whether a product of three does not depend on which pair is multiplied first.
pub open spec fn product_associates<T: Numeric>(first: T, second: T, third: T) -> bool {
    first.mul_spec(second).mul_spec(third) == first.mul_spec(second.mul_spec(third))
}

/// Whether a product distributes over a sum, on either side.
pub open spec fn product_distributes<T: Numeric>(factor: T, left: T, right: T) -> bool {
    &&& factor.mul_spec(left.add_spec(right)) == factor.mul_spec(left).add_spec(
        factor.mul_spec(right),
    )
    &&& left.add_spec(right).mul_spec(factor) == left.mul_spec(factor).add_spec(
        right.mul_spec(factor),
    )
}

/// Whether adding zero changes nothing and multiplying by zero leaves nothing.
pub open spec fn zero_is_neutral<T: Numeric>(value: T) -> bool {
    &&& value.add_spec(T::ZERO) == value
    &&& T::ZERO.add_spec(value) == value
    &&& value.mul_spec(T::ZERO) == T::ZERO
    &&& T::ZERO.mul_spec(value) == T::ZERO
}

/// Whether sums and products of `T` are exact, so that the laws of arithmetic hold of them. A type
/// that rounds does not have this.
pub open spec fn exact<T: Numeric>() -> bool {
    &&& forall|left: T, right: T| #[trigger] sum_commutes(left, right)
    &&& forall|first: T, second: T, third: T| #[trigger] sum_associates(first, second, third)
    &&& forall|first: T, second: T, third: T| #[trigger] product_associates(first, second, third)
    &&& forall|factor: T, left: T, right: T| #[trigger] product_distributes(factor, left, right)
    &&& forall|value: T| #[trigger] zero_is_neutral(value)
}

} // verus!
