//! Plain values exchanged with the service manager over the message bus.
use vstd::prelude::*;

verus! {

/// Which message bus to talk to.
#[derive(Clone, Copy, Debug, PartialEq, Eq, Structural)]
pub enum BusType {
    /// The system-wide bus, where the system's service manager answers.
    System,
    /// The session bus of the logged-in user, where the user's manager answers.
    Session,
}

/// One value of a bus message, as far as this client reads or writes it.
#[derive(Debug)]
pub enum BusValue {
    Bool(bool),
    Str(String),
    /// The elements of an array, and the array's type signature (such as
    /// `a(sss)`), which an empty array still carries.
    Array(Vec<BusValue>, String),
    Struct(Vec<BusValue>),
    /// Any value of another type.
    Other,
}

/// The error reply to a call: the bus's error name and message.
#[derive(Clone, Debug)]
pub struct BusError {
    pub name: String,
    pub message: String,
}

/// A method call to send to the service manager.
#[derive(Debug)]
pub struct MethodCall {
    pub destination: String,
    pub path: String,
    pub interface: String,
    pub method: String,
    pub args: Vec<BusValue>,
}

} // verus!
