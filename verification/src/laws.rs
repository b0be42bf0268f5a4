//! What holds of calls of the library, in terms of what goes in and what comes
//! out: bytes, coordinates, keys and draws.

pub mod drawing;
pub mod keys;
pub mod names;
pub mod pictures;
pub mod streaming;
