//! The scopes the builder keeps while lowering a syntax tree: globals,
//! stack frames, blocks and compile-time portals.

pub mod names;
pub mod stack_frame;
pub mod root_scope;
pub mod block_scope;
pub mod comptime_portal;
pub mod scope_stack;
