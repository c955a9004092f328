use vstd::prelude::*;

use crate::error::Error;
use crate::schema::Instance;

verus! {

/// The pre-persistence hooks of a record type.
///
/// `save` consults the store before choosing a hook: `before_create`
/// runs when the instance's identity is not yet stored (an insert),
/// `before_update` when it is (a replace). A hook may mutate the
/// instance or abort the operation with an error. `before_delete` is
/// part of the interface for symmetry; the engine's `remove` does not
/// invoke it.
///
/// Each hook's effect is pinned by a companion specification function,
/// so that the contracts of `save` can say exactly which document ends
/// up in the store.
pub trait SchemaBefore {
    /// What `before_create` does: the mutated instance, or the error
    /// that aborts the save.
    spec fn before_create_spec(&self, i: Instance) -> Result<Instance, Error>;

    /// What `before_update` does: the mutated instance, or the error
    /// that aborts the save.
    spec fn before_update_spec(&self, i: Instance) -> Result<Instance, Error>;

    /// What `before_delete` does: the mutated instance and whether the
    /// deletion may proceed, or an error.
    spec fn before_delete_spec(&self, i: Instance) -> Result<(Instance, bool), Error>;

    /// Runs before a document is first inserted.
    fn before_create(&self, i: &mut Instance) -> (r: Result<(), Error>)
        ensures
            match self.before_create_spec(*old(i)) {
                Ok(m) => r is Ok && *final(i) == m,
                Err(e) => r == Err::<(), Error>(e),
            },
    ;

    /// Runs before an existing document is replaced.
    fn before_update(&self, i: &mut Instance) -> (r: Result<(), Error>)
        ensures
            match self.before_update_spec(*old(i)) {
                Ok(m) => r is Ok && *final(i) == m,
                Err(e) => r == Err::<(), Error>(e),
            },
    ;

    /// Runs before a document is deleted.
    fn before_delete(&self, i: &mut Instance) -> (r: Result<bool, Error>)
        ensures
            match self.before_delete_spec(*old(i)) {
                Ok(m) => r == Ok::<bool, Error>(m.1) && *final(i) == m.0,
                Err(e) => r == Err::<bool, Error>(e),
            },
    ;
}

/// The default hooks: every hook succeeds and leaves the instance
/// untouched.
#[derive(Clone, Copy, Debug)]
pub struct DefaultBefore;

impl SchemaBefore for DefaultBefore {
    open spec fn before_create_spec(&self, i: Instance) -> Result<Instance, Error> {
        Ok(i)
    }

    open spec fn before_update_spec(&self, i: Instance) -> Result<Instance, Error> {
        Ok(i)
    }

    open spec fn before_delete_spec(&self, i: Instance) -> Result<(Instance, bool), Error> {
        Ok((i, true))
    }

    fn before_create(&self, i: &mut Instance) -> (r: Result<(), Error>) {
        Ok(())
    }

    fn before_update(&self, i: &mut Instance) -> (r: Result<(), Error>) {
        Ok(())
    }

    fn before_delete(&self, i: &mut Instance) -> (r: Result<bool, Error>) {
        Ok(true)
    }
}

} // verus!
