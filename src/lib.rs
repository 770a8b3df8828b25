//! Random access to single records of the stake history sysvar.
//!
//! The sysvar holds a length-prefixed list of `(epoch, entry)` records,
//! newest first. `layout` computes where the record of an epoch lies and
//! decodes it; `sysvar` reads that record from the runtime.

pub mod layout;
pub mod sysvar;
