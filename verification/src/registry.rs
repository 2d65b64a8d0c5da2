//! Observers of a training run, registered under small integer handles.

use vstd::prelude::*;
use std::collections::HashMap;

verus! {

/// The observers registered so far, each under the handle it was given.
pub struct ClientRegistry<T> {
    pub next_ref_id: i32,
    pub clients: HashMap<i32, T>,
}

/// The handle of a registered observer.
#[derive(Clone, Copy, Debug, PartialEq, Eq, Structural)]
pub struct Ecoz2ObserverRef {
    pub ref_id: i32,
}

impl Ecoz2ObserverRef {
    /// The reference to the observer registered under `ref_id`.
    pub fn new(ref_id: i32) -> (r: Self)
        ensures
            r.ref_id == ref_id,
    {
        Ecoz2ObserverRef { ref_id }
    }
}

impl<T> ClientRegistry<T> {
    /// No handle that is still to be given is in use.
    pub open spec fn wf(&self) -> bool {
        forall|id: i32| self.clients@.contains_key(id) ==> id < self.next_ref_id
    }

    /// A registry without observers; handles start at 0.
    pub fn new() -> (r: Self)
        ensures
            r.wf(),
            r.next_ref_id == 0,
            r.clients@ == Map::<i32, T>::empty(),
    {
        ClientRegistry { next_ref_id: 0, clients: HashMap::new() }
    }
}

/// Registers an observer under the next handle, and returns the handle.
pub fn register_cc<T>(registry: &mut ClientRegistry<T>, client: T) -> (ref_id: i32)
    requires
        old(registry).wf(),
        old(registry).next_ref_id < i32::MAX,
    ensures
        final(registry).wf(),
        ref_id == old(registry).next_ref_id,
        final(registry).next_ref_id == ref_id + 1,
        final(registry).clients@ == old(registry).clients@.insert(ref_id, client),
        !old(registry).clients@.contains_key(ref_id),
{
    broadcast use vstd::std_specs::hash::group_hash_axioms;

    let ref_id = registry.next_ref_id;
    registry.next_ref_id = ref_id + 1;
    registry.clients.insert(ref_id, client);
    ref_id
}

/// Forgets the observer registered under `ref_id`, if there is one.
pub fn unregister_cc<T>(registry: &mut ClientRegistry<T>, ref_id: i32)
    requires
        old(registry).wf(),
    ensures
        final(registry).wf(),
        final(registry).next_ref_id == old(registry).next_ref_id,
        final(registry).clients@ == old(registry).clients@.remove(ref_id),
{
    broadcast use vstd::std_specs::hash::group_hash_axioms;

    registry.clients.remove(&ref_id);
}

/// The observer registered under `ref_id`, if there is one.
pub fn find_cc<'a, T>(registry: &'a ClientRegistry<T>, ref_id: &i32) -> (r: Option<&'a T>)
    ensures
        match r {
            Some(client) => registry.clients@.contains_key(*ref_id) && *client
                == registry.clients@[*ref_id],
            None => !registry.clients@.contains_key(*ref_id),
        },
{
    broadcast use vstd::std_specs::hash::group_hash_axioms;

    registry.clients.get(ref_id)
}

} // verus!
