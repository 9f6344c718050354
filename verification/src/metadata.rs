use core::marker::PhantomData;
use vstd::arithmetic::power2::is_pow2;
use vstd::layout::valid_layout;
use vstd::prelude::*;

verus! {

/// The layout rules every vtable obeys: the alignment is a power of two, the
/// size is a multiple of it, and the size fits the limits of `Layout`.
pub open spec fn layout_ok(size: usize, align: usize) -> bool {
    &&& align > 0
    &&& valid_layout(size, align)
    &&& size % align == 0
}

/// A vtable as the code that erases types sees it: a word that tells it
/// apart from every other vtable, and the size and alignment of the erased
/// concrete type, which it records.
#[derive(Clone, Copy, Debug, PartialEq, Eq, Structural)]
pub struct VTable {
    id: usize,
    size: usize,
    align: usize,
}

impl VTable {
    #[verifier::type_invariant]
    spec fn inv(self) -> bool {
        layout_ok(self.size, self.align)
    }

    /// The word that tells this vtable apart.
    pub closed spec fn identity(self) -> usize {
        self.id
    }

    /// The size of the erased concrete type.
    pub closed spec fn size(self) -> usize {
        self.size
    }

    /// The alignment of the erased concrete type.
    pub closed spec fn align(self) -> usize {
        self.align
    }

    /// What every value of this type satisfies.
    pub open spec fn valid(self) -> bool {
        layout_ok(self.size(), self.align())
    }

    /// The vtable `id` of an erased type with the layout of `T`.
    pub fn for_type<T>(id: usize) -> (v: Self)
        ensures
            v.identity() == id,
            v.size() as nat == vstd::layout::size_of::<T>(),
            v.align() as nat == vstd::layout::align_of::<T>(),
            v.valid(),
    {
        vstd::layout::layout_for_type_is_valid::<T>();
        let size = core::mem::size_of::<T>();
        let align = core::mem::align_of::<T>();
        VTable { id, size, align }
    }

    /// The vtable `id` of an erased type of the given size and alignment, or
    /// `None` where they are not the layout of any Rust type.
    pub fn from_parts(id: usize, size: usize, align: usize) -> (r: Option<Self>)
        ensures
            r.is_some() <==> layout_ok(size, align),
            r matches Some(v) ==> v.identity() == id && v.size() == size && v.align() == align,
    {
        if !is_power_of_two(align) {
            return None;
        }
        proof {
            reveal(is_pow2);
        }
        let max: usize = isize::MAX as usize;
        assert(max % align <= max) by (nonlinear_arith)
            requires
                align > 0,
        ;
        if size > max - max % align || size % align != 0 {
            return None;
        }
        Some(VTable { id, size, align })
    }

    /// The word that tells this vtable apart.
    pub fn id(&self) -> (r: usize)
        ensures
            r == self.identity(),
    {
        self.id
    }

    /// The size of the erased concrete type.
    pub fn size_of(&self) -> (r: usize)
        ensures
            r == self.size(),
            r % self.align() == 0,
    {
        proof {
            use_type_invariant(self);
        }
        self.size
    }

    /// The alignment of the erased concrete type.
    pub fn align_of(&self) -> (r: usize)
        ensures
            r == self.align(),
            r > 0,
            is_pow2(r as int),
    {
        proof {
            use_type_invariant(self);
        }
        self.align
    }

    /// Brings the invariant of `self` into the caller's proof context.
    pub fn check_valid(&self)
        ensures
            self.valid(),
    {
        proof {
            use_type_invariant(self);
        }
    }
}

/// Pointer metadata of a trait object: one word, a reference to the vtable.
#[derive(Clone, Copy, Debug)]
pub struct DynMetadata {
    vtable: &'static VTable,
}

impl DynMetadata {
    /// The vtable referred to.
    pub closed spec fn table(self) -> VTable {
        *self.vtable
    }

    /// The word that tells the vtable apart.
    pub open spec fn identity(self) -> usize {
        self.table().identity()
    }

    /// The size of the erased concrete type.
    pub open spec fn size(self) -> usize {
        self.table().size()
    }

    /// The alignment of the erased concrete type.
    pub open spec fn align(self) -> usize {
        self.table().align()
    }

    /// What every value of this type satisfies.
    pub open spec fn valid(self) -> bool {
        self.table().valid()
    }

    /// The metadata referring to `vtable`.
    pub fn new(vtable: &'static VTable) -> (m: Self)
        ensures
            m.table() == *vtable,
    {
        DynMetadata { vtable }
    }

    /// The vtable referred to.
    pub fn vtable(&self) -> (r: &'static VTable)
        ensures
            *r == self.table(),
    {
        self.vtable
    }

    /// The word that tells the vtable apart.
    pub fn id(&self) -> (r: usize)
        ensures
            r == self.identity(),
    {
        self.vtable.id()
    }

    /// The size of the erased concrete type, as the vtable records it.
    pub fn size_of(&self) -> (r: usize)
        ensures
            r == self.size(),
            r % self.align() == 0,
    {
        self.vtable.size_of()
    }

    /// The alignment of the erased concrete type, as the vtable records it.
    pub fn align_of(&self) -> (r: usize)
        ensures
            r == self.align(),
            r > 0,
            is_pow2(r as int),
    {
        self.vtable.align_of()
    }

    /// Metadata is determined by the vtable it refers to.
    pub proof fn lemma_table_determines(m1: DynMetadata, m2: DynMetadata)
        requires
            m1.table() == m2.table(),
        ensures
            m1 == m2,
    {
    }

    /// Brings the invariant of the vtable into the caller's proof context.
    pub fn check_valid(&self)
        ensures
            self.valid(),
    {
        self.vtable.check_valid()
    }
}

/// The two words of a shared reference to a trait object, `&'a TDyn`: the
/// address of the data and the pointer metadata.
///
/// It stands for such a reference and carries what the code here reads of
/// one; it is not dereferenced to a value. As for every reference, the
/// address is non-null and aligned for the type behind it.
pub struct DynRef<'a, TDyn: ?Sized> {
    addr: usize,
    meta: DynMetadata,
    _marker: PhantomData<&'a TDyn>,
}

impl<'a, TDyn: ?Sized> Clone for DynRef<'a, TDyn> {
    fn clone(&self) -> (r: Self)
        ensures
            r == *self,
    {
        *self
    }
}

impl<'a, TDyn: ?Sized> Copy for DynRef<'a, TDyn> {

}

/// Whether `addr` may be the data address of a reference to a value whose
/// erased type is described by `meta`: non-null and aligned.
pub open spec fn ref_ok(addr: usize, meta: DynMetadata) -> bool {
    addr != 0 && addr % meta.align() == 0
}

impl<'a, TDyn: ?Sized> DynRef<'a, TDyn> {
    #[verifier::type_invariant]
    spec fn inv(self) -> bool {
        self.meta.valid() && ref_ok(self.addr, self.meta)
    }

    /// The data address.
    pub closed spec fn address(self) -> usize {
        self.addr
    }

    /// The pointer metadata.
    pub closed spec fn meta(self) -> DynMetadata {
        self.meta
    }

    /// A reference from its data address and metadata, or `None` where the
    /// address is null or not aligned for the erased type.
    pub fn from_raw_parts(addr: usize, meta: DynMetadata) -> (r: Option<Self>)
        ensures
            r.is_some() <==> ref_ok(addr, meta),
            r matches Some(x) ==> x.address() == addr && x.meta() == meta,
    {
        meta.check_valid();
        let align = meta.align_of();
        if addr == 0 || addr % align != 0 {
            None
        } else {
            Some(DynRef { addr, meta, _marker: PhantomData })
        }
    }

    /// The reference to a zero-sized value that a metadata-only handle
    /// rebuilds: it carries `meta` and uses the alignment of the erased type
    /// as its data address. No storage stands behind that address; none is
    /// needed where the erased type is zero-sized.
    pub fn dangling(meta: DynMetadata) -> (r: Self)
        ensures
            r.address() == meta.align(),
            r.meta() == meta,
    {
        meta.check_valid();
        let align = meta.align_of();
        proof {
            vstd::arithmetic::div_mod::lemma_mod_self_0(align as int);
        }
        DynRef { addr: align, meta, _marker: PhantomData }
    }

    /// The data address.
    pub fn addr(&self) -> (r: usize)
        ensures
            r == self.address(),
            ref_ok(r, self.meta()),
            self.meta().valid(),
    {
        proof {
            use_type_invariant(self);
        }
        self.addr
    }

    /// The pointer metadata.
    pub fn metadata(&self) -> (r: DynMetadata)
        ensures
            r == self.meta(),
    {
        self.meta
    }
}

/// An address that is a power of two is aligned for every power-of-two
/// alignment that does not exceed it.
pub proof fn lemma_pow2_addr_aligned(addr: int, align: int)
    requires
        is_pow2(addr),
        is_pow2(align),
        align <= addr,
    ensures
        addr % align == 0,
    decreases align,
{
    reveal(is_pow2);
    if align == 1 {
        assert(addr % 1 == 0);
    } else {
        assert(addr > 1);
        let ha = addr / 2;
        let hb = align / 2;
        assert(hb <= ha);
        lemma_pow2_addr_aligned(ha, hb);
        assert(hb > 0);
        vstd::arithmetic::div_mod::lemma_fundamental_div_mod(ha, hb);
        let q = ha / hb;
        assert(ha == hb * q);
        assert(addr == 2 * ha);
        assert(align == 2 * hb);
        assert(addr == q * align) by (nonlinear_arith)
            requires
                ha == hb * q,
                addr == 2 * ha,
                align == 2 * hb,
        ;
        vstd::arithmetic::div_mod::lemma_mod_multiples_basic(q, align);
    }
}

/// Whether `n` is a power of two.
pub fn is_power_of_two(n: usize) -> (r: bool)
    ensures
        r == is_pow2(n as int),
{
    reveal(is_pow2);
    if n == 0 {
        return false;
    }
    let mut a: usize = n;
    while a > 1 && a % 2 == 0
        invariant
            a > 0,
            is_pow2(n as int) == is_pow2(a as int),
        decreases a,
    {
        reveal(is_pow2);
        a = a / 2;
    }
    a == 1
}

} // verus!
