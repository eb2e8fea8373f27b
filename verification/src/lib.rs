//! The controller's model of an NMOS network.
use vstd::prelude::*;

pub mod base;
pub mod connector;
pub mod discovery;
pub mod engine;
pub mod identity;
pub mod inventory;
pub mod nmos;

verus! {
} // verus!
