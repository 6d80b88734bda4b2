//! Text handling on character sequences.
//!
//! Every function here takes and returns ordinary `&str` and `String` values; its
//! contract is stated over the character sequences that these hold.
pub mod bytes;
pub mod chars;
pub mod find;
pub mod laws;
pub mod number;
pub mod order;
pub mod pad;
pub mod split;
