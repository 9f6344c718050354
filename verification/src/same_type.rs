use vstd::prelude::*;

verus! {

trait Sealed<T1: ?Sized, T2: ?Sized> {

}

/// Proof, checked by the compiler, that `Self` and `T` are the same type.
///
/// It is implemented only for `T == Self`.
#[allow(private_bounds)]
pub trait SameType<T>: Sealed<T, Self> + Sealed<Self, T> {

}

impl<T> Sealed<T, T> for T {

}

impl<T> SameType<T> for T {

}

} // verus!
