//! The model router's interior: the catalog, admission, and the rules a
//! request is answered by.

pub mod admission;
pub mod bench;
pub mod catalog;
pub mod gguf;
pub mod idle;
pub mod json;
pub mod launch;
pub mod memory;
pub mod proxy;
pub mod queue;
pub mod startup;
pub mod text;
pub mod text_bytes;
pub mod time;
pub mod verdict;
