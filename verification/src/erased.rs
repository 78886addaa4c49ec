//! The platform boundary: type erasure and checked recovery.
//!
//! The registry stores every extension behind a type-erased owning handle
//! and recovers concrete types through a checked downcast that fails
//! closed. Both facilities come from the platform (`Box<dyn Any>` and its
//! type tag); this module is the trusted boundary that carries them, and
//! nothing about a handle's contents is visible to the verifier.

use vstd::prelude::*;

verus! {

/// An owned extension instance behind a type-erased handle.
///
/// The handle is opaque: the verifier sees nothing of the boxed value.
/// The type tag the handle carries, and the checked downcast that reads
/// it, are platform facilities this crate relies on without proof.
#[verifier::external_body]
pub struct ErasedExt {
    inner: Box<dyn core::any::Any + Send>,
}

impl ErasedExt {
    /// Erases `value` into an owning handle.
    ///
    /// Relies on `Box::new` and the coercion to `dyn Any`: the returned
    /// handle owns exactly `value`, tagged with its concrete type.
    #[verifier::external_body]
    pub fn new<T: 'static + Send>(value: T) -> ErasedExt {
        ErasedExt { inner: Box::new(value) }
    }

    /// Recovers the boxed value as a `T`, failing closed.
    ///
    /// Relies on `<dyn Any + Send>::downcast_mut`: the result is a
    /// reference to the boxed value exactly when that value's concrete
    /// type is `T`, and nothing otherwise, the handle then being left
    /// untouched.
    #[verifier::external_body]
    pub fn downcast_mut<T: 'static + Send>(&mut self) -> (r: Option<&mut T>)
        ensures
            r is None ==> *final(self) == *old(self),
    {
        self.inner.downcast_mut::<T>()
    }
}

} // verus!
