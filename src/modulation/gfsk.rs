//! Common GFSK modulation options.
use super::Freq;
use vstd::prelude::*;

verus! {

/// Basic GFSK channel configuration.
#[derive(Clone, Copy, PartialEq, Eq, Debug)]
pub struct GfskChannel {
    /// Channel frequency
    pub freq: Freq,
    /// Channel bandwidth
    pub bw_khz: Freq,
    /// Bitrate in bps
    pub bitrate_bps: u32,
}

} // verus!
