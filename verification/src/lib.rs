//! A Git "smart" wire-protocol server core: pkt-line framing, pack-object
//! header parsing, ref advertisements, the per-connection bridge session that
//! relays framed bytes to a collaborating process, and a small keyed record
//! store with single-owner locking for Terraform remote state.

pub mod codec;
pub mod hex;
pub mod inflate;
pub mod pack;
pub mod refs;
pub mod server;
pub mod session;
pub mod tofu;
