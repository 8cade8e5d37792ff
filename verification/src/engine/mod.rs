//! Server-authoritative game rules: which calls and cards are legal, who
//! declares, who wins a trick.

pub mod auction;
pub mod play;
