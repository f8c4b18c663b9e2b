//! Fan-out/fan-in correlation: pending client exchanges and the table that
//! matches forwarded sub-queries back to them.
pub mod packet;
pub mod transcribe;
