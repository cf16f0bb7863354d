//! Runtime errors of the p-machine.

use vstd::prelude::*;

use crate::strings::push_str;

verus! {

/// An error that stops the p-machine.
#[derive(Debug, PartialEq, Eq)]
pub enum RuntimeError {
    /// The stack cannot grow any further.
    StackOverflow,
    /// A value was popped from an empty stack, or a return found fewer
    /// words than it had to cut back.
    StackUnderflow,
    /// `DVI` or `MOD` with a zero divisor.
    DivisionByZero,
    /// An instruction or KERNEL procedure that is not implemented.
    UnimplementedOpcode(String),
    /// The instruction pointer ran past the end of the code.
    IpcOutOfBounds,
    /// A level reference or return with no activation record to use.
    NoActiveFrame,
    /// An address outside the stack, or one that does not fit in a word.
    AddressOutOfRange,
    /// A call to an address that starts no known routine.
    UnknownRoutine,
    /// Output could not be written.
    Io(String),
}

/// [`RuntimeError`] with its messages as character sequences.
pub enum RuntimeErrorView {
    StackOverflow,
    StackUnderflow,
    DivisionByZero,
    UnimplementedOpcode(Seq<char>),
    IpcOutOfBounds,
    NoActiveFrame,
    AddressOutOfRange,
    UnknownRoutine,
    Io(Seq<char>),
}

impl View for RuntimeError {
    type V = RuntimeErrorView;

    open spec fn view(&self) -> RuntimeErrorView {
        match self {
            RuntimeError::StackOverflow => RuntimeErrorView::StackOverflow,
            RuntimeError::StackUnderflow => RuntimeErrorView::StackUnderflow,
            RuntimeError::DivisionByZero => RuntimeErrorView::DivisionByZero,
            RuntimeError::UnimplementedOpcode(s) => RuntimeErrorView::UnimplementedOpcode(s@),
            RuntimeError::IpcOutOfBounds => RuntimeErrorView::IpcOutOfBounds,
            RuntimeError::NoActiveFrame => RuntimeErrorView::NoActiveFrame,
            RuntimeError::AddressOutOfRange => RuntimeErrorView::AddressOutOfRange,
            RuntimeError::UnknownRoutine => RuntimeErrorView::UnknownRoutine,
            RuntimeError::Io(s) => RuntimeErrorView::Io(s@),
        }
    }
}

impl Clone for RuntimeError {
    fn clone(&self) -> (r: Self)
        ensures
            r@ == self@,
    {
        match self {
            RuntimeError::StackOverflow => RuntimeError::StackOverflow,
            RuntimeError::StackUnderflow => RuntimeError::StackUnderflow,
            RuntimeError::DivisionByZero => RuntimeError::DivisionByZero,
            RuntimeError::UnimplementedOpcode(s) => RuntimeError::UnimplementedOpcode(s.clone()),
            RuntimeError::IpcOutOfBounds => RuntimeError::IpcOutOfBounds,
            RuntimeError::NoActiveFrame => RuntimeError::NoActiveFrame,
            RuntimeError::AddressOutOfRange => RuntimeError::AddressOutOfRange,
            RuntimeError::UnknownRoutine => RuntimeError::UnknownRoutine,
            RuntimeError::Io(s) => RuntimeError::Io(s.clone()),
        }
    }
}

impl RuntimeErrorView {
    /// The human-readable message of an error.
    pub open spec fn message(self) -> Seq<char> {
        match self {
            RuntimeErrorView::StackOverflow => "stack overflow"@,
            RuntimeErrorView::StackUnderflow => "stack underflow"@,
            RuntimeErrorView::DivisionByZero => "division by zero"@,
            RuntimeErrorView::UnimplementedOpcode(op) => "unimplemented opcode: "@ + op,
            RuntimeErrorView::IpcOutOfBounds => "IPC ran past the end of the code"@,
            RuntimeErrorView::NoActiveFrame => "no active activation record for this level reference"@,
            RuntimeErrorView::AddressOutOfRange => "address does not fit in a 16-bit p-machine word"@,
            RuntimeErrorView::UnknownRoutine => "call target has no matching routine metadata"@,
            RuntimeErrorView::Io(m) => "I/O error: "@ + m,
        }
    }
}

impl RuntimeError {
    /// The human-readable message of the error.
    pub fn message(&self) -> (r: String)
        ensures
            r@ == self@.message(),
    {
        let mut s = String::new();
        match self {
            RuntimeError::StackOverflow => push_str(&mut s, "stack overflow"),
            RuntimeError::StackUnderflow => push_str(&mut s, "stack underflow"),
            RuntimeError::DivisionByZero => push_str(&mut s, "division by zero"),
            RuntimeError::UnimplementedOpcode(op) => {
                push_str(&mut s, "unimplemented opcode: ");
                push_str(&mut s, op.as_str());
            },
            RuntimeError::IpcOutOfBounds => push_str(&mut s, "IPC ran past the end of the code"),
            RuntimeError::NoActiveFrame => push_str(
                &mut s,
                "no active activation record for this level reference",
            ),
            RuntimeError::AddressOutOfRange => push_str(
                &mut s,
                "address does not fit in a 16-bit p-machine word",
            ),
            RuntimeError::UnknownRoutine => push_str(
                &mut s,
                "call target has no matching routine metadata",
            ),
            RuntimeError::Io(m) => {
                push_str(&mut s, "I/O error: ");
                push_str(&mut s, m.as_str());
            },
        }
        proof {
            reveal_strlit("stack overflow");
            reveal_strlit("stack underflow");
            reveal_strlit("division by zero");
            reveal_strlit("unimplemented opcode: ");
            reveal_strlit("IPC ran past the end of the code");
            reveal_strlit("no active activation record for this level reference");
            reveal_strlit("address does not fit in a 16-bit p-machine word");
            reveal_strlit("call target has no matching routine metadata");
            reveal_strlit("I/O error: ");
        }
        s
    }
}

} // verus!
