//! Scalar values and the engine's error kinds.

use vstd::prelude::*;

verus! {

/// Identifier of an object in the heap.
pub type Id = usize;

/// A scalar that lives on the operand stack or in an environment.
///
/// `Ptr` is a shared, counted reference to a heap object; `Prim` names a
/// registered primitive; `Absent` is the absence sentinel, distinct from
/// `Unit`.
#[derive(Debug, PartialEq, Eq)]
pub enum Value {
    Unit,
    Bool(bool),
    Int(i64),
    Ptr(Id),
    Prim(String),
    Absent,
}

impl Clone for Value {
    fn clone(&self) -> (r: Self)
        ensures
            r == *self,
    {
        match self {
            Value::Unit => Value::Unit,
            Value::Bool(b) => Value::Bool(*b),
            Value::Int(n) => Value::Int(*n),
            Value::Ptr(id) => Value::Ptr(*id),
            Value::Prim(name) => Value::Prim(name.clone()),
            Value::Absent => Value::Absent,
        }
    }
}

/// Why an operation of the engine failed. Every failure is fatal for the
/// activation that raised it.
#[derive(Debug, Clone, Copy, PartialEq, Eq)]
pub enum EngineError {
    /// A name was looked up that the environment does not bind.
    UnboundVariable,
    /// A value was taken from an empty frame.
    StackUnderflow,
    /// A stack slot, a literal or an environment was addressed that does
    /// not exist.
    IndexOutOfRange,
    /// A value had the wrong kind for the operation.
    TypeMismatch,
    /// A jump led somewhere it may not lead.
    MalformedJumpTarget,
    /// A primitive was applied that nobody registered.
    UnknownPrimitive,
    /// A pointer named a heap object that does not exist.
    UnknownHeapId,
    /// Two types could not be unified.
    TypeConflict,
    /// A counter of the machine (a reference count, the id allocator)
    /// reached the end of its range.
    LimitExceeded,
}

} // verus!
