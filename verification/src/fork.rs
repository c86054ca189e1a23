//! The fork tag: an external identifier selecting which protocol-upgrade
//! schema applies to a value, supplied out-of-band by the caller and never
//! inferred from content.

use vstd::prelude::*;

verus! {

/// One tag per protocol upgrade, in order of activation. Execution payloads
/// exist from `Merge` onward.
#[derive(Clone, Copy, Debug, PartialEq, Eq, Structural)]
pub enum ForkName {
    Base,
    Altair,
    Merge,
    Capella,
    Deneb,
    Eip6110,
}

} // verus!
