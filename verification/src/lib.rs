//! A runtime binary patcher, modeled and verified.
//!
//! The library rewrites numeric immediates at fixed addresses in a host
//! executable's memory image, to raise a compiled-in client limit.  It is
//! split into a value deriver (configuration text to patch values), a
//! memory patcher (guarded byte writes into a modeled span of the address
//! space), and a profile runner (one fixed table of writes per host
//! variant, applied in order).  The embedding layer that touches real
//! pages and registers the load-time hook lives outside the library and
//! mirrors these functions one for one.

pub mod memory;
pub mod profile;
pub mod runner;
pub mod values;
