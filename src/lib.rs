//! Lazy operation streams and a cache of execution plans for fused tensor
//! execution.

pub mod debug;
pub mod graph;
pub mod index;
pub mod ir;
pub mod router;
pub mod server;
pub mod store;
pub mod strategy;
pub mod stream;
pub mod text;
