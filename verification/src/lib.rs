//! A per-frame reconciliation engine: it keeps a declarative composition tree
//! synchronized with a mutable state store owned by a host scheduler that
//! ticks it once per frame.
//!
//! The engine drives recomposition, detects which resources of the store
//! changed since the last tick and wakes the subscribers that observed them,
//! applies mutations requested during composition back onto the store in a
//! well-defined order, and manages the lifecycle of store entities that
//! mirror live nodes of the tree.
//!
//! The store itself and the composition framework are external collaborators:
//! the engine holds their state as plain values ([`store::Store`]) and hands
//! callback handles (`u64` tokens) back to the host, which resolves them to
//! the actual node callbacks. The host runs one tick as
//! [`driver::begin_tick`], then one recomposition pass of its own, then
//! [`driver::finish_tick`].

pub mod assoc;
pub mod context;
pub mod driver;
pub mod listener;
pub mod ops;
pub mod registry;
pub mod scene;
pub mod store;
pub mod ticks;
