use crate::metadata::{ref_ok, DynMetadata, DynRef, VTable};
use crate::same_size::{describes, is_zero_sized, IsZeroSizedExt};
use core::marker::PhantomData;
use vstd::prelude::*;

verus! {

/// Metadata-only handle to a dynamic zero-sized trait object.
///
/// The handle stores only the pointer metadata of `TDyn`, that is the vtable.
/// [`deref`](Self::deref) rebuilds a shared reference to `TDyn` from a
/// synthetic data address and the stored metadata. The handle does not
/// allocate and owns no concrete value; copying it copies the metadata.
///
/// The lifetime is the one for which the captured metadata is valid;
/// [`DynZSTBox`] is the `'static` alias.
///
/// Every handle describes a zero-sized erased type: [`new`](Self::new)
/// requires a zero-sized concrete type, [`with_dyn`](Self::with_dyn) requires
/// the vtable to record size zero.
pub struct DynZSTLifetime<'trait_lifetime, TDyn: ?Sized + 'trait_lifetime> {
    dyn_meta: DynMetadata,
    _marker_dyn: PhantomData<&'trait_lifetime TDyn>,
}

/// A `'static` metadata-only handle for zero-sized trait objects.
pub type DynZSTBox<TDyn> = DynZSTLifetime<'static, TDyn>;

impl<'trait_lifetime, TDyn: ?Sized + 'trait_lifetime> Clone for DynZSTLifetime<'trait_lifetime, TDyn> {
    fn clone(&self) -> (r: Self)
        ensures
            r == *self,
    {
        *self
    }
}

impl<'trait_lifetime, TDyn: ?Sized + 'trait_lifetime> Copy for DynZSTLifetime<'trait_lifetime, TDyn> {

}

/// Whether `meta` may be stored in a handle: it describes a zero-sized type.
pub open spec fn zst_meta(meta: DynMetadata) -> bool {
    meta.valid() && meta.size() == 0
}

/// The data address of the reference that a handle holding `meta` rebuilds:
/// the alignment recorded in the vtable.
pub open spec fn synthetic_addr(meta: DynMetadata) -> usize {
    meta.align()
}

impl<'trait_lifetime, TDyn: ?Sized + 'trait_lifetime> DynZSTLifetime<'trait_lifetime, TDyn> {
    #[verifier::type_invariant]
    spec fn inv(self) -> bool {
        zst_meta(self.dyn_meta)
    }

    /// The stored metadata.
    pub closed spec fn meta(self) -> DynMetadata {
        self.dyn_meta
    }

    /// A handle for the zero-sized concrete value `value`, erased behind
    /// `vtable`, the vtable of `T` as `TDyn`.
    ///
    /// The value is consumed only for its type; no storage is retained.
    pub fn new<T: IsZeroSizedExt + 'trait_lifetime>(value: T, vtable: &'static VTable) -> (r: Self)
        requires
            is_zero_sized::<T>(),
            describes::<T>(*vtable),
        ensures
            r.meta().table() == *vtable,
            r.meta().size() == 0,
    {
        let meta = DynMetadata::new(vtable);
        Self::with_dyn(DynRef::dangling(meta))
    }

    /// A handle holding the metadata of the dynamic reference `value`.
    ///
    /// The erased value behind `value` must be zero-sized: the vtable must
    /// record size zero.
    pub fn with_dyn(value: DynRef<'trait_lifetime, TDyn>) -> (r: Self)
        requires
            value.meta().size() == 0,
        ensures
            r.meta() == value.meta(),
    {
        let dyn_meta = value.metadata();
        dyn_meta.check_valid();
        DynZSTLifetime { dyn_meta, _marker_dyn: PhantomData }
    }

    /// The stored metadata.
    pub fn metadata(&self) -> (r: DynMetadata)
        ensures
            r == self.meta(),
            zst_meta(r),
    {
        proof {
            use_type_invariant(self);
        }
        self.dyn_meta
    }

    /// The shared reference that this handle stands for, rebuilt from the
    /// stored metadata and a synthetic data address: the alignment of the
    /// erased type, which is non-null and aligned for it. No instance bytes
    /// are read, because there are none.
    pub fn deref(&self) -> (r: DynRef<'trait_lifetime, TDyn>)
        ensures
            r.meta() == self.meta(),
            r.address() == synthetic_addr(self.meta()),
            ref_ok(r.address(), self.meta()),
            zst_meta(r.meta()),
    {
        proof {
            use_type_invariant(self);
        }
        DynRef::dangling(self.dyn_meta)
    }
}

/// For every metadata a handle can hold, the rebuilt data address is
/// non-null and aligned for the erased type.
pub proof fn lemma_synthetic_addr_valid(meta: DynMetadata)
    requires
        zst_meta(meta),
    ensures
        ref_ok(synthetic_addr(meta), meta),
{
    vstd::arithmetic::div_mod::lemma_mod_self_0(meta.align() as int);
}

/// The reference that a handle rebuilds may be wrapped again: its vtable
/// records size zero, and the new handle holds the same metadata and
/// rebuilds the same reference.
pub proof fn lemma_round_trip<'a, TDyn: ?Sized>(
    h: DynZSTLifetime<'a, TDyn>,
    r: DynRef<'a, TDyn>,
    h2: DynZSTLifetime<'a, TDyn>,
    r2: DynRef<'a, TDyn>,
)
    requires
        r.meta() == h.meta() && r.address() == synthetic_addr(h.meta()) && zst_meta(r.meta()),
        h2.meta() == r.meta(),
        r2.meta() == h2.meta() && r2.address() == synthetic_addr(h2.meta()),
    ensures
        r.meta().size() == 0,
        h2.meta() == h.meta(),
        r2.meta() == r.meta(),
        r2.address() == r.address(),
{
}

/// A handle depends on the vtable it holds alone, not on the value it was
/// made from: two handles made by `new` with one vtable hold equal metadata.
pub proof fn lemma_handle_determined_by_vtable<'a, TDyn: ?Sized>(
    h1: DynZSTLifetime<'a, TDyn>,
    h2: DynZSTLifetime<'a, TDyn>,
)
    requires
        h1.meta().table() == h2.meta().table(),
    ensures
        h1.meta() == h2.meta(),
{
    DynMetadata::lemma_table_determines(h1.meta(), h2.meta());
}

} // verus!
