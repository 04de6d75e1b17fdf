//! A stateless fixed-precision decimal arithmetic service.
//!
//! Callers hand in numeric values as text; the service parses them into an
//! exact base-10 representation, computes, truncates the result to a fixed
//! number of fractional digits, and renders it back as canonical decimal
//! text.  Every failure (missing input, invalid encoding, unparsable text,
//! division by zero) is reported as a fixed sentinel text code, so the
//! result channel is always a plain string.

pub mod decimal;
pub mod arith;
pub mod codec;
pub mod api;
pub mod laws;
