//! What can go wrong, by the stage at which it does.

use vstd::prelude::*;

verus! {

/// A route declaration that cannot be compiled. It is found when the registry is built,
/// before any request is served.
#[derive(Clone, Copy, Debug, PartialEq, Eq, Structural)]
pub enum PatternError {
    /// A wildcard stands before the last segment of the template.
    WildcardNotLast,
    /// The template holds more than one wildcard.
    MultipleWildcards,
    /// A wildcard is declared with a type other than text.
    TypedWildcard,
    /// Two aliases of one enumeration are spelled alike.
    DuplicateAlias,
    /// The default of a field does not decode to the field's type.
    DefaultMismatch,
}

/// A raw value did not decode to its declared type, or a required field was absent. The
/// candidate route is passed over; the caller of the router never sees this.
#[derive(Clone, Copy, Debug, PartialEq, Eq, Structural)]
pub struct BindMismatch;

/// A collaborator that did blocking work for a handler failed.
#[derive(Clone, Copy, Debug, PartialEq, Eq, Structural)]
pub struct UpstreamIoError;

} // verus!
