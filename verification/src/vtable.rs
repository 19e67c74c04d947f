//! The traits through which dyntable containers reach the vtable of a trait.

use vstd::prelude::*;
use core::marker::PhantomData;
use crate::memory::MemoryLayout;

verus! {

/// Implemented by a generated vtable type.
///
/// The `Bounds` type must reflect the trait bounds of the trait the vtable
/// belongs to; it is used to apply `Send` and `Sync` to dyntable containers.
pub trait VTable {
    /// Additional trait bounds required by the trait this vtable belongs to.
    type Bounds: ?Sized;
}

/// Names the vtable of a trait, so that `dyn Trait` can stand for its vtable
/// in generics.
pub trait VTableRepr {
    type VTable: VTable;
}

/// A vtable that contains the vtable `V` of a bounded trait.
pub trait SubTable<V: VTable>: VTable {
    /// The contained vtable of type `V`.
    fn subtable(&self) -> &V;
}

/// Every vtable contains itself.
impl<V: VTable> SubTable<V> for V {
    fn subtable(&self) -> (r: &V)
        ensures
            r == self,
    {
        self
    }
}

/// A vtable that knows the memory layout of the type it was made for.
pub trait AssociatedLayout: VTable {
    /// The layout of the type this vtable was made for.
    spec fn layout_of(&self) -> MemoryLayout;

    /// The layout of the associated type.
    fn virtual_layout(&self) -> (layout: MemoryLayout)
        ensures
            layout == self.layout_of(),
    ;
}

/// Provides the vtable `V` that matches the implementing type.
pub trait DynTrait<'v, V: 'v + VTable> {
    /// The vtable for the implementing type.
    const VTABLE: V;
    /// A static instance of `VTABLE`.
    const STATIC_VTABLE: &'v V;
}

/// A trait that implies nothing, used as `VTable::Bounds` when a trait has
/// no bounds.
pub trait NoBounds {}

/// Target type through which generated code provides `DynTrait` for every
/// implementor of a trait without a conflicting blanket impl.
pub struct DynImplTarget<T, V: VTable>(PhantomData<(T, V)>);

/// Copy of `DynTrait` implemented by generated code on `DynImplTarget`.
pub trait DynTable2<'v, V: 'v + VTable> {
    const VTABLE: V;
    const STATIC_VTABLE: &'v V;
}

impl<'v, T, V: 'v + VTable> DynTrait<'v, V> for T where DynImplTarget<T, V>: DynTable2<'v, V> {
    const VTABLE: V = <DynImplTarget<T, V> as DynTable2<'v, V>>::VTABLE;
    const STATIC_VTABLE: &'v V = <DynImplTarget<T, V> as DynTable2<'v, V>>::STATIC_VTABLE;
}

/// A vtable of a trait used as `dyn Trait + Send`: the vtable `T` whose
/// bounds are marked `Send`.
pub struct SendVTable<T: VTable>(pub T);

/// A vtable of a trait used as `dyn Trait + Sync`.
pub struct SyncVTable<T: VTable>(pub T);

/// A vtable of a trait used as `dyn Trait + Send + Sync`.
pub struct SendSyncVTable<T: VTable>(pub T);

/// The bounds `T` with `Send` added.
///
/// Marking the wrapper as `Send` takes an `unsafe impl`, which this library
/// does not hold: the containers' runtime keeps `#[repr(transparent)]`
/// copies of these wrappers that are marked `Send` and `Sync`, and uses them
/// for `dyn Trait + Send` and its kin.
pub struct SendWrapper<T: ?Sized>(pub T);

/// The bounds `T` with `Sync` added; see [`SendWrapper`].
pub struct SyncWrapper<T: ?Sized>(pub T);

/// The bounds `T` with `Send` and `Sync` added; see [`SendWrapper`].
pub struct SendSyncWrapper<T: ?Sized>(pub T);

impl<T: VTable> VTable for SendVTable<T> {
    type Bounds = SendWrapper<T::Bounds>;
}

impl<T: VTable> VTable for SyncVTable<T> {
    type Bounds = SyncWrapper<T::Bounds>;
}

impl<T: VTable> VTable for SendSyncVTable<T> {
    type Bounds = SendSyncWrapper<T::Bounds>;
}

impl<T: AssociatedLayout> AssociatedLayout for SendVTable<T> {
    /// The layout of the wrapped vtable's type.
    open spec fn layout_of(&self) -> MemoryLayout {
        self.0.layout_of()
    }

    fn virtual_layout(&self) -> (layout: MemoryLayout) {
        self.0.virtual_layout()
    }
}

impl<T: AssociatedLayout> AssociatedLayout for SyncVTable<T> {
    /// The layout of the wrapped vtable's type.
    open spec fn layout_of(&self) -> MemoryLayout {
        self.0.layout_of()
    }

    fn virtual_layout(&self) -> (layout: MemoryLayout) {
        self.0.virtual_layout()
    }
}

impl<T: AssociatedLayout> AssociatedLayout for SendSyncVTable<T> {
    /// The layout of the wrapped vtable's type.
    open spec fn layout_of(&self) -> MemoryLayout {
        self.0.layout_of()
    }

    fn virtual_layout(&self) -> (layout: MemoryLayout) {
        self.0.virtual_layout()
    }
}

} // verus!
