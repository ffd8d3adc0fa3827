//! The router's side of a request: which endpoint it addressed, what its
//! head and body say, and what it is answered when it is refused.
//!
//! Every part here is conversion -- text in, a value out -- so every rule a
//! request is held to is stated and proved here. Sockets, threads and child
//! processes are the program's business.

pub mod endpoint;
pub mod refusal;
pub mod head;
pub mod body;
pub mod reply;
pub mod answer;
pub mod slots;
