//! Discovery of peers on the local network: what the messages say and how they are
//! answered, which peers are known, where they may be reached, and how they are woken.

pub mod announcement;
pub mod book;
pub mod candidate_laws;
pub mod candidates;
pub mod device_name;
pub mod endpoint;
pub mod error;
pub mod interface;
pub mod laws;
pub mod message;
pub mod number;
pub mod order;
pub mod peer;
pub mod response;
pub mod text;
pub mod text_map;
pub mod wake;
