//! A todo-list library whose state is a Markdown checklist.
//!
//! The codec turns a Markdown document into an ordered list of checkbox
//! items and back; the list store offers the usual mutations (add, mark
//! done, remove one / completed / all) over that list.  Every function is
//! specified against a sequence model of the document, so decoding,
//! encoding and each mutation are proved to do exactly what they claim.
//! File reading and writing are left to the caller: the library works on
//! plain strings.
#![verifier::loop_isolation(false)]

pub mod codec;
pub mod decimal;
pub mod item;
pub mod list;

pub use item::Item;
pub use list::TodoItem;
pub use list::TodoList;
