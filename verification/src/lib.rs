//! A greatest-common-divisor engine: Euclid's algorithm on unsigned 64-bit
//! integers, a left fold over a list of operands, and the plain-text replies
//! that a command line or a web form built on the engine hands back.

pub mod decimal;
pub mod euclid;
pub mod report;
