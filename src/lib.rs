//! Client access layer for a local inference server.
//!
//! Requests go first to a local socket and, only when that fails, once to the
//! network address ([`dispatch`]). Server-push responses are decoded frame by
//! frame into domain events and consumed by pulling ([`sse`]).
pub mod api;
pub mod borrow_sse;
pub mod dispatch;
pub mod error;
pub mod interface;
pub mod sse;
pub mod wire;

pub use api::{CapabilityFilter, CapabilityType};
pub use dispatch::{Channel, DispatchAction, DispatchState, Dispatcher};
pub use error::PantryError;
