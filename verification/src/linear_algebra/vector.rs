use vstd::prelude::*;

use super::view::VectorView;
use crate::scalar::Numeric;

verus! {

/// `N` components held by value.
#[derive(Debug, PartialEq)]
#[must_use]
pub struct Vector<const N: usize, T> {
    components: [T; N],
}

impl<const N: usize, T: Copy> Clone for Vector<N, T> {
    #[inline]
    fn clone(&self) -> (copy: Self)
        ensures
            copy == *self,
    {
        *self
    }
}

impl<const N: usize, T: Copy> Copy for Vector<N, T> {

}

impl<const N: usize, T> Vector<N, T> {
    /// The components in order.
    pub closed spec fn components(self) -> Seq<T> {
        self.components@
    }

    /// A vector of the given components.
    #[inline]
    pub fn new(components: [T; N]) -> (vector: Self)
        ensures
            vector.components() == components@,
    {
        Vector { components }
    }

    /// The components, borrowed as a view.
    #[inline]
    pub fn view(&self) -> (view: VectorView<'_, N, T>)
        ensures
            view@ == self.components(),
    {
        VectorView::of_array(&self.components)
    }

    /// The components, borrowed as a slice.
    #[inline]
    #[must_use]
    pub fn as_slice(&self) -> (slice: &[T])
        ensures
            slice@ == self.components(),
    {
        self.components.as_slice()
    }

    /// The components, handed out by value.
    #[inline]
    #[must_use]
    pub fn into_array(self) -> (components: [T; N])
        ensures
            components@ == self.components(),
    {
        self.components
    }

    /// The component at `index`, to be written through, or `None` if there is none.
    #[inline]
    #[must_use]
    pub fn get_mut(&mut self, index: usize) -> (slot: Option<&mut T>)
        ensures
            match slot {
                Some(component) => {
                    &&& index < N
                    &&& *component == old(self).components()[index as int]
                    &&& final(self).components() == old(self).components().update(
                        index as int,
                        *final(component),
                    )
                },
                None => N <= index && *final(self) == *old(self),
            },
    {
        if index < N {
            Some(&mut self.components[index])
        } else {
            None
        }
    }
}

impl<const N: usize, T: Numeric> Vector<N, T> {
    /// The vector whose components are all zero.
    #[inline]
    pub fn zeros() -> (vector: Self)
        ensures
            vector.components() == Seq::new(N as nat, |index: int| T::ZERO),
    {
        let vector = Vector { components: [T::ZERO; N] };
        assert(vector.components() =~= Seq::new(N as nat, |index: int| T::ZERO));
        vector
    }
}

} // verus!
