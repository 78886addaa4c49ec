//! The registry facade: registering, looking up, removing and merging
//! capabilities by their type key.

use crate::erased::ErasedExt;
use crate::store::Store;
use vstd::prelude::*;

verus! {

/// The errors the registry reports.
#[derive(Clone, Copy, Debug, PartialEq, Eq, Structural)]
pub enum Error {
    /// Insert-only registration found the type already registered.
    ExtensionAlreadyRegistered,
    /// Strict deregistration found the type not registered.
    ExtensionIsNotRegistered,
}

/// A registerable capability: a type that can report the key identifying
/// it and be stored behind a type-erased handle.
///
/// Distinct capability types must report distinct keys; the registry
/// relies on this injectivity the same way it relies on the platform's
/// type tags, and does not re-check it. A `Declared` wrapper
/// (`crate::declare`) carries its key in its type, so declaring each
/// capability with its own key meets the rule by construction.
pub trait Extension: Sized + Send {
    /// The key that identifies this concrete type.
    spec fn key_spec() -> u64;

    /// Returns the type's key.
    fn key() -> (r: u64)
        ensures
            r == Self::key_spec(),
    ;

    /// Returns the type's key, from an instance.
    fn type_key(&self) -> (r: u64)
        ensures
            r == Self::key_spec(),
    ;
}

/// Access to an extensions registry, as a hosting execution context
/// exposes it to the code it runs.
pub trait ExtensionStore {
    /// The registry's contents: type key to erased instance.
    spec fn ext_model(&self) -> Map<u64, ErasedExt>;

    /// The registry's structural invariant.
    spec fn ext_wf(&self) -> bool;

    /// Finds the registered extension for `type_id`, erased.
    fn extension_by_type_id(&mut self, type_id: u64) -> (r: Option<&mut ErasedExt>)
        requires
            old(self).ext_wf(),
        ensures
            final(self).ext_wf(),
            r is Some ==> old(self).ext_model().contains_key(type_id) && *r.unwrap() == old(
                self,
            ).ext_model()[type_id] && final(self).ext_model() == old(self).ext_model().insert(
                type_id,
                *final(r.unwrap()),
            ),
            r is None ==> !old(self).ext_model().contains_key(type_id) && final(self).ext_model()
                == old(self).ext_model(),
    ;

    /// Registers `extension` under `type_id`, insert-only: fails,
    /// changing nothing, exactly when `type_id` is already registered.
    fn register_extension_with_type_id(&mut self, type_id: u64, extension: ErasedExt) -> (r:
        Result<(), Error>)
        requires
            old(self).ext_wf(),
        ensures
            final(self).ext_wf(),
            old(self).ext_model().contains_key(type_id) ==> r == Result::<(), Error>::Err(
                Error::ExtensionAlreadyRegistered,
            ) && final(self).ext_model() == old(self).ext_model(),
            !old(self).ext_model().contains_key(type_id) ==> r == Result::<(), Error>::Ok(())
                && final(self).ext_model() == old(self).ext_model().insert(type_id, extension),
    ;

    /// Deregisters and drops the extension under `type_id`, strictly:
    /// fails, changing nothing, exactly when `type_id` is not registered.
    fn deregister_extension_by_type_id(&mut self, type_id: u64) -> (r: Result<(), Error>)
        requires
            old(self).ext_wf(),
        ensures
            final(self).ext_wf(),
            old(self).ext_model().contains_key(type_id) ==> r == Result::<(), Error>::Ok(())
                && final(self).ext_model() == old(self).ext_model().remove(type_id),
            !old(self).ext_model().contains_key(type_id) ==> r == Result::<(), Error>::Err(
                Error::ExtensionIsNotRegistered,
            ) && final(self).ext_model() == old(self).ext_model(),
    ;
}

/// Stores extensions that a host makes available to an execution context.
///
/// The registry owns every instance it holds: ownership transfers in on
/// registration and the instance is dropped on deregistration,
/// replacement, or destruction. Its contents are specified as the map
/// from type key to stored handle, written `self@`.
pub struct Extensions {
    store: Store<ErasedExt>,
}

impl View for Extensions {
    type V = Map<u64, ErasedExt>;

    closed spec fn view(&self) -> Map<u64, ErasedExt> {
        self.store@
    }
}

impl Default for Extensions {
    /// Creates an empty registry.
    fn default() -> (r: Extensions)
        ensures
            r.wf(),
            r@ == Map::<u64, ErasedExt>::empty(),
    {
        Extensions::new()
    }
}

impl Extensions {
    /// The registry's structural invariant.
    pub closed spec fn wf(&self) -> bool {
        self.store.wf()
    }

    /// Creates an empty registry.
    pub fn new() -> (r: Extensions)
        ensures
            r.wf(),
            r@ == Map::<u64, ErasedExt>::empty(),
    {
        Extensions { store: Store::new() }
    }

    /// Registers `ext`, replacing and dropping any extension already
    /// registered for the same type. This is the permissive path:
    /// last write wins and no error is possible.
    pub fn register<E: Extension + 'static>(&mut self, ext: E)
        requires
            old(self).wf(),
        ensures
            final(self).wf(),
            final(self)@.contains_key(E::key_spec()),
            exists|b: ErasedExt| final(self)@ == old(self)@.insert(E::key_spec(), b),
    {
        let k = ext.type_key();
        let b = ErasedExt::new(ext);
        let ghost gb = b;
        self.store.insert(k, b);
        proof {
            assert(self@ == old(self)@.insert(E::key_spec(), gb));
        }
    }

    /// Registers the already-erased `extension` under `type_id`,
    /// replacing and dropping any extension already registered there.
    ///
    /// This is how an erased instance collected from elsewhere is
    /// re-registered without being re-typed first.
    pub fn register_erased(&mut self, type_id: u64, extension: ErasedExt)
        requires
            old(self).wf(),
        ensures
            final(self).wf(),
            final(self)@ == old(self)@.insert(type_id, extension),
    {
        self.store.insert(type_id, extension);
    }

    /// Registers the erased `extension` under `type_id`, insert-only:
    /// fails, changing nothing, exactly when `type_id` is already
    /// registered.
    pub fn register_with_type_id(&mut self, type_id: u64, extension: ErasedExt) -> (r: Result<
        (),
        Error,
    >)
        requires
            old(self).wf(),
        ensures
            final(self).wf(),
            old(self)@.contains_key(type_id) ==> r == Result::<(), Error>::Err(
                Error::ExtensionAlreadyRegistered,
            ) && *final(self) == *old(self),
            !old(self)@.contains_key(type_id) ==> r == Result::<(), Error>::Ok(()) && final(self)@
                == old(self)@.insert(type_id, extension),
    {
        if self.store.contains_key(type_id) {
            Err(Error::ExtensionAlreadyRegistered)
        } else {
            self.store.insert(type_id, extension);
            Ok(())
        }
    }

    /// Returns the erased extension registered under `ext_type_id`, or
    /// nothing if that key is absent.
    pub fn get_mut(&mut self, ext_type_id: u64) -> (r: Option<&mut ErasedExt>)
        requires
            old(self).wf(),
        ensures
            final(self).wf(),
            r is Some ==> old(self)@.contains_key(ext_type_id) && *r.unwrap() == old(
                self,
            )@[ext_type_id] && final(self)@ == old(self)@.insert(ext_type_id, *final(r.unwrap())),
            r is None ==> !old(self)@.contains_key(ext_type_id) && *final(self) == *old(self),
    {
        self.store.get_mut(ext_type_id)
    }

    /// Returns the extension of type `E`, typed, or nothing: either no
    /// extension is registered under `E`'s key, or the instance found
    /// there is not an `E` and the checked downcast refuses it.
    pub fn extension_mut<E: Extension + 'static>(&mut self) -> (r: Option<&mut E>)
        requires
            old(self).wf(),
        ensures
            final(self).wf(),
            final(self)@.dom() == old(self)@.dom(),
            forall|k: u64|
                k != E::key_spec() && old(self)@.contains_key(k) ==> final(self)@[k] == old(
                    self,
                )@[k],
            r is Some ==> old(self)@.contains_key(E::key_spec()),
            r is None ==> final(self)@ == old(self)@,
            !old(self)@.contains_key(E::key_spec()) ==> r is None && *final(self) == *old(self),
    {
        let k = E::key();
        match self.store.get_mut(k) {
            None => None,
            Some(b) => {
                proof {
                    assert(old(self)@.insert(k, old(self)@[k]) =~= old(self)@);
                    assert(old(self)@.dom().insert(k) =~= old(self)@.dom());
                }
                let r = b.downcast_mut::<E>();
                r
            },
        }
    }

    /// Deregisters and drops the extension under `type_id`; returns
    /// whether one was registered. Absence is a normal outcome, not an
    /// error.
    pub fn deregister(&mut self, type_id: u64) -> (r: bool)
        requires
            old(self).wf(),
        ensures
            final(self).wf(),
            r == old(self)@.contains_key(type_id),
            final(self)@ == old(self)@.remove(type_id),
    {
        self.store.remove(type_id)
    }

    /// The number of registered extensions.
    pub fn len(&self) -> (r: usize)
        requires
            self.wf(),
        ensures
            r == self@.dom().len(),
    {
        self.store.len()
    }

    /// Hands out the registered extensions for host-side bulk work: one
    /// pair of type key and erased instance per registered extension, the
    /// instance mutably borrowed from the registry. The registry keeps
    /// its keys; what it then holds under them is whatever the caller
    /// leaves behind through the borrows.
    pub fn iter_mut(&mut self) -> (r: Vec<(u64, &mut ErasedExt)>)
        requires
            old(self).wf(),
        ensures
            final(self).wf(),
            final(self)@.dom() == old(self)@.dom(),
            r@.len() == old(self)@.dom().len(),
            forall|i: int|
                0 <= i < r@.len() ==> old(self)@.contains_key((#[trigger] r@[i]).0) && *r@[i].1
                    == old(self)@[r@[i].0],
            forall|i: int, j: int| 0 <= i < j < r@.len() ==> r@[i].0 != r@[j].0,
    {
        self.store.pairs_mut()
    }

    /// Moves every entry of `other` into `self`, consuming `other`. Where
    /// both registries hold the same type, the instance of `other` wins
    /// and the instance of `self` is dropped.
    pub fn merge(&mut self, other: Extensions)
        requires
            old(self).wf(),
            other.wf(),
        ensures
            final(self).wf(),
            final(self)@ == old(self)@.union_prefer_right(other@),
    {
        self.store.merge(other.store)
    }

    /// Merges every registry of `others` into `self`, in order, each by
    /// the rules of `merge`: where keys collide, the instance merged
    /// later wins.
    pub fn merge_all(&mut self, others: Vec<Extensions>)
        requires
            old(self).wf(),
            forall|i: int| 0 <= i < others@.len() ==> (#[trigger] others@[i]).wf(),
        ensures
            final(self).wf(),
            final(self)@ == others@.fold_left(
                old(self)@,
                (|acc: Map<u64, ErasedExt>, e: Extensions| acc.union_prefer_right(e@)),
            ),
    {
        let ghost f = (|acc: Map<u64, ErasedExt>, e: Extensions| acc.union_prefer_right(e@));
        let ghost orig = others@;
        proof {
            orig.lemma_fold_left_alt(old(self)@, f);
        }
        let mut rest = others;
        while rest.len() > 0
            invariant
                self.wf(),
                f == (|acc: Map<u64, ErasedExt>, e: Extensions| acc.union_prefer_right(e@)),
                forall|i: int| 0 <= i < rest@.len() ==> (#[trigger] rest@[i]).wf(),
                orig.fold_left_alt(old(self)@, f) == rest@.fold_left_alt(self@, f),
            decreases rest@.len(),
        {
            let ghost before = rest@;
            let ghost selfpre = self@;
            let e = rest.remove(0);
            proof {
                reveal_with_fuel(Seq::fold_left_alt, 2);
                assert(before.subrange(1, before.len() as int) =~= rest@);
                assert(before.fold_left_alt(selfpre, f) == rest@.fold_left_alt(
                    f(selfpre, before[0]),
                    f,
                ));
                assert(f(selfpre, before[0]) == selfpre.union_prefer_right(before[0]@));
            }
            self.merge(e);
        }
        proof {
            reveal_with_fuel(Seq::fold_left_alt, 1);
            assert(rest@.fold_left_alt(self@, f) == self@);
        }
    }
}

impl ExtensionStore for Extensions {
    open spec fn ext_model(&self) -> Map<u64, ErasedExt> {
        self@
    }

    open spec fn ext_wf(&self) -> bool {
        self.wf()
    }

    fn extension_by_type_id(&mut self, type_id: u64) -> (r: Option<&mut ErasedExt>) {
        self.get_mut(type_id)
    }

    fn register_extension_with_type_id(&mut self, type_id: u64, extension: ErasedExt) -> (r:
        Result<(), Error>) {
        self.register_with_type_id(type_id, extension)
    }

    fn deregister_extension_by_type_id(&mut self, type_id: u64) -> (r: Result<(), Error>) {
        if self.deregister(type_id) {
            Ok(())
        } else {
            proof {
                assert(old(self)@.remove(type_id) =~= old(self)@);
            }
            Err(Error::ExtensionIsNotRegistered)
        }
    }
}

} // verus!
