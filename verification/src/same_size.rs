use crate::metadata::VTable;
use vstd::arithmetic::power2::is_pow2;
use vstd::prelude::*;

verus! {

/// Whether values of `T` occupy no bytes.
pub open spec fn is_zero_sized<T>() -> bool {
    vstd::layout::size_of::<T>() == 0
}

/// Whether `v` records the layout of `T`.
pub open spec fn describes<T>(v: VTable) -> bool {
    &&& v.size() as nat == vstd::layout::size_of::<T>()
    &&& v.align() as nat == vstd::layout::align_of::<T>()
}

/// Helpers for concrete `Copy` types that may be erased into a
/// metadata-only handle.
///
/// Functions that keep only metadata, such as
/// [`DynZSTLifetime::new`](crate::DynZSTLifetime::new), require
/// [`is_zero_sized`] of the type.
pub trait IsZeroSizedExt: Sized + Copy {
    /// The address of a well-aligned dangling pointer to `Self`: the
    /// alignment of `Self`. It refers to no storage and may only be used for
    /// zero-sized accesses.
    fn zst_ptr() -> (r: usize)
        ensures
            r as nat == vstd::layout::align_of::<Self>(),
            r != 0,
            is_pow2(r as int),
    {
        vstd::layout::layout_for_type_is_valid::<Self>();
        core::mem::align_of::<Self>()
    }

    /// The vtable `id` of `Self` behind a trait object: it records the size
    /// and alignment of `Self`.
    fn vtable(id: usize) -> (v: VTable)
        ensures
            v.identity() == id,
            describes::<Self>(v),
            v.valid(),
    {
        VTable::for_type::<Self>(id)
    }
}

impl<T: Copy> IsZeroSizedExt for T {

}

} // verus!
