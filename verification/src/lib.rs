//! A decoder and encoder for a small line- and length-prefixed wire protocol
//! in the RESP family, with machine-checked contracts.
//!
//! A buffer of bytes is read through a cursor, an offset that every decoding
//! step takes by mutable reference and leaves behind the bytes it consumed or,
//! on failure, where it gave up. The module `wire` says in mathematical terms
//! what each step yields; the functions of `resp` compute it.

pub mod resp_result;
pub mod decimal;
pub mod text;
pub mod wire;
pub mod resp;
pub mod roundtrip;
