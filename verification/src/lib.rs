//! Two generic containers with machine-checked contracts: a binary min-heap
//! with an in-place heap sort, and a singly linked list.

pub mod order;
pub mod slices;
pub mod heap_model;
pub mod heap;
pub mod slist_model;
pub mod slist;
