use vstd::prelude::*;

verus! {

/// What a raw event-source reader reports to its consumer.
#[derive(Debug)]
pub enum Event<T> {
    /// The connection failed.
    Failed,
    /// A chunk of the body.
    Data(T),
    /// The connection was shut down.
    Shutdown,
}

} // verus!
