//! The `portals` attribute: which of the atomic set, clear and invert
//! aliases a register has.

use crate::error::Error;
use crate::text::text_eq;
use vstd::prelude::*;

verus! {

/// The aliases of a register at the three words after it.
#[derive(Clone, Copy, Debug, PartialEq, Eq, Structural)]
pub struct Portals {
    pub clr: bool,
    pub set: bool,
    pub inv: bool,
}

/// What a `portals` attribute denotes. Three texts are recognised and no
/// other.
pub open spec fn portals_of(s: Seq<char>) -> Option<Portals> {
    if s == "CLR SET INV"@ {
        Some(Portals { clr: true, set: true, inv: true })
    } else if s == "CLR - -"@ {
        Some(Portals { clr: true, set: false, inv: false })
    } else if s == "- - -"@ {
        Some(Portals { clr: false, set: false, inv: false })
    } else {
        None
    }
}

/// Reads a `portals` attribute.
pub fn decode_portals(text: &str) -> (r: Result<Portals, Error>)
    ensures
        match portals_of(text@) {
            Some(p) => r == Ok::<Portals, Error>(p),
            None => r == Err::<Portals, Error>(Error::UnrecognizedPortalsSpec),
        },
{
    if text_eq(text, "CLR SET INV") {
        Ok(Portals { clr: true, set: true, inv: true })
    } else if text_eq(text, "CLR - -") {
        Ok(Portals { clr: true, set: false, inv: false })
    } else if text_eq(text, "- - -") {
        Ok(Portals { clr: false, set: false, inv: false })
    } else {
        Err(Error::UnrecognizedPortalsSpec)
    }
}

} // verus!
