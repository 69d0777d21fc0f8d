//! A ledger-resident registry of uniquely identified collectibles ("kitties"),
//! each holding 16 bytes of genetic data and owned by exactly one account.
//! Kitties are created from host-supplied randomness, transferred between
//! accounts, and bred in pairs: a bred kitty's genome is combined bit-wise
//! from its two parents under a selector mask.
//!
//! Every state transition is atomic: a failed precondition leaves the whole
//! registry unchanged.

pub mod kitty;
pub mod laws;
pub mod lists;
pub mod registry;

pub use kitty::Kitty;
pub use registry::Error;
pub use registry::Event;
pub use registry::Module;
