//! The operating system a decision is made for.
use vstd::prelude::*;

verus! {

/// The desktop platforms the application ships for. Behaviour that differs
/// between them takes the platform as an argument.
#[derive(Clone, Copy, PartialEq, Eq, Debug, Structural)]
pub enum Platform {
    Windows,
    MacOs,
    Linux,
}

} // verus!
