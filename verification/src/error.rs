use vstd::prelude::*;

verus! {

/// Why a program stopped while it ran.
#[derive(Clone, Copy, Debug, PartialEq, Eq, Structural)]
pub enum RuntimeError {
    /// A variable is not in the scope.
    UnknownVariable,
    /// An action of that name does not exist.
    UnknownAction,
    /// An operation of that id does not exist.
    UnknownOperation,
    /// A value is not of the kind that was expected.
    TypeMismatch,
    /// An operation got another number of parameters than it takes.
    ParameterCount,
    /// A collection that must hold something is empty.
    EmptyCollection,
    /// A variable that must carry a value carries none.
    UnsetValue,
    /// A literal was to be given a new value.
    StaticMutation,
    /// A variable of that name exists in the layer already.
    DuplicateVariable,
    /// An action of that name exists already.
    DuplicateAction,
    /// The frame has no width or no height.
    EmptyFrame,
    /// No frame was stepped to yet.
    NoFrame,
    /// A number does not fit the machine word.
    Overflow,
    /// The construct is not supported.
    Unsupported,
}

} // verus!
