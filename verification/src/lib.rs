//! A reflective, path-addressable configuration tree, with a value cell that
//! notifies registered subscribers of every change.
pub mod codec;
pub mod node;
pub mod observer;

pub use crate::observer::Observe;
