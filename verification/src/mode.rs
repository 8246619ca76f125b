use vstd::prelude::*;

verus! {

/// The query-rewrite strategy applied to tracked query parameters.
#[derive(Clone, Copy, Debug, PartialEq, Eq, Structural)]
pub enum Mode {
    /// Drop every tracked pair.
    Remove,
    /// Keep tracked keys but overwrite their values with the configured text.
    Replace,
    /// Remove tracked pairs, then append a well-known synthetic pair.
    YourMom,
    /// Scramble the value of every tracked pair by swapping two characters.
    Evil,
}

} // verus!
