//! Turns a declarative tagged-union description — named cases, each carrying a
//! numeric discriminant or a single wildcard marker — into standalone record
//! types, a regenerated union type, and dispatch selectors that branch over
//! either the discriminant or the union value itself.
//!
//! A process-scoped registry lets "define this union" and "generate a
//! dispatcher" requests arrive in either order: a dispatch request for a union
//! that is not yet known is queued and replayed, in arrival order, the moment
//! the union is registered.
use vstd::prelude::*;

pub mod ast;
pub mod attr;
pub mod error;
pub mod gen;
pub mod matcher;
pub mod num;
pub mod output;
pub mod registry;
pub mod text;
pub mod token;

verus! {

/// The mathematical value of a fallible result: the payload is replaced by
/// its model, the error carried as it is.
pub open spec fn result_model<T: DeepView>(r: Result<T, crate::error::GenError>) -> Result<
    T::V,
    crate::error::GenError,
> {
    match r {
        Ok(t) => Ok(t.deep_view()),
        Err(e) => Err(e),
    }
}

/// How a generated dispatcher selects its arm.
#[derive(Clone, Copy, Debug, PartialEq, Eq, Structural)]
pub enum DispatchMode {
    /// Branch on the numeric discriminant; the wildcard case becomes the
    /// catch-all arm and is emitted last.
    ByDiscriminant,
    /// Branch on the union value itself; every case, the wildcard included,
    /// gets a structural arm on its own record type.
    ByValue,
}

} // verus!
