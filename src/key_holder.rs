//! One holder's position in one issuer's keys.

use vstd::prelude::*;

verus! {

#[derive(Clone, Debug, PartialEq, Eq)]
pub struct KeyHolder {
    /// The holder's address.
    pub holder_addr: String,
    /// Number of keys the holder has.
    pub amount: u128,
}

} // verus!
