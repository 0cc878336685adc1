//! Bulk WHOIS lookup library.
//!
//! The library holds the verified core of a bulk WHOIS tool: expanding an
//! input line into lookup targets (a single address, an address block, or an
//! opaque literal), framing a WHOIS query, decoding and flattening a response,
//! encoding result rows as CSV, and the run state machine that bounds the
//! number of in-flight lookups and accounts for every scheduled unit.
//! Network and file I/O live outside the library and hand it plain values.

pub mod addr;
pub mod dispatch;
pub mod limiter;
pub mod sink;
pub mod text;
pub mod whois;
