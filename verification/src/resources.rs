//! What every build step is: a resource that compiles to a value.

use std::sync::Arc;
use vstd::prelude::*;
use crate::compiler::AsyncCompiler;

verus! {

/// A build step. A resource holds what it is built from; compiling it is a
/// function of that and never changes it.
pub trait Resource {
    /// What the resource compiles to.
    type ReturnValue;

    /// The resource can be compiled.
    spec fn is_ready(&self) -> bool;

    /// `value` is what the resource compiles to.
    spec fn yields(&self, value: &Self::ReturnValue) -> bool;

    /// Compiles the resource.
    fn compile(&self, compiler: Arc<AsyncCompiler>) -> (value: Self::ReturnValue)
        requires
            self.is_ready(),
        ensures
            self.yields(&value),
    ;
}

/// The number of a resource; zero is no resource.
#[derive(Hash, Eq, PartialEq, Copy, Clone, Debug, Structural)]
pub struct ResourceId(pub usize);

impl ResourceId {
    /// The number that names no resource.
    pub fn invalid() -> (id: ResourceId)
        ensures
            id == ResourceId(0),
    {
        ResourceId(0)
    }

    pub open spec fn spec_is_valid(&self) -> bool {
        self.0 != 0
    }

    /// The number names a resource.
    #[verifier::when_used_as_spec(spec_is_valid)]
    pub fn is_valid(&self) -> (b: bool)
        ensures
            b == self.spec_is_valid(),
    {
        self.0 != 0
    }
}

} // verus!
