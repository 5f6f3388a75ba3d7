//! Packet parameter sets.
use crate::{BasicInfo, ReceiveInfo};
use vstd::prelude::*;

verus! {

/// The parameters of a kind of packet.
pub trait Param {
    /// Packet received info
    type Info: ReceiveInfo;
}

/// No parameters.
pub struct Basic;

impl Param for Basic {
    type Info = BasicInfo;
}

} // verus!
