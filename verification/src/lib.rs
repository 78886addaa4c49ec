//! A heterogeneous capability registry.
//!
//! A host environment stores an arbitrary set of service objects
//! ("extensions") in one container and hands the container to a sandboxed
//! execution context. Code inside the context asks for the service it needs
//! by its type key and gets back either nothing or a value of exactly the
//! requested type: the store is type-erased, retrieval is checked and fails
//! closed.
//!
//! The verified core is [`store::Store`], a collection of key/value pairs
//! with unique keys, specified as a [`vstd::map::Map`].

pub mod declare;
pub mod erased;
pub mod extensions;
pub mod laws;
pub mod store;
