//! The checked core of a typed access layer for named, multi-dimensional
//! array variables held by a storage engine.
//!
//! Nothing here talks to the engine. Each operation on a [`variable::Variable`]
//! decides, from the cached metadata alone, whether a call may be handed to
//! the engine and with which extents, and what the caller gets back once the
//! engine has answered with its status code.

pub mod array;
pub mod attribute;
pub mod catalog;
pub mod dimension;
pub mod error;
pub mod kind;
pub mod layout;
pub mod shape;
pub mod transfer;
pub mod variable;
