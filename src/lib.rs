//! A paged stack of tagged slots, the free-list and object-pool primitive of
//! a memory allocator, with word and object views on top.
mod buffer;
pub mod laws;
pub mod lflist;
pub mod views;

pub use buffer::{is_tag, EMPTY_SLOT, SENTINEL_SLOT};
pub use lflist::List;
pub use views::{ObjectList, WordList};
