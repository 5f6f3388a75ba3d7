//! Common LoRa modulation options.
use vstd::prelude::*;

verus! {

/// LoRa channel configuration.
#[derive(Clone, Copy, PartialEq, Eq, Debug)]
pub struct LoRaChannel {
    /// Frequency in kHz
    pub freq_khz: u32,
    /// Channel bandwidth in kHz
    pub bw_khz: u16,
    /// Spreading factor
    pub sf: SpreadingFactor,
    /// Coding rate
    pub cr: CodingRate,
}

/// LoRa spreading factor.
#[derive(Copy, Clone, PartialEq, Eq, Debug)]
#[non_exhaustive]
pub enum SpreadingFactor {
    /// Spreading factor 5, 32 chips / symbol
    Sf5,
    /// Spreading factor 6, 64 chips / symbol
    Sf6,
    /// Spreading factor 7, 128 chips / symbol
    Sf7,
    /// Spreading factor 8, 256 chips / symbol
    Sf8,
    /// Spreading factor 9, 512 chips / symbol
    Sf9,
    /// Spreading factor 10, 1024 chips / symbol
    Sf10,
    /// Spreading factor 11, 2048 chips / symbol
    Sf11,
    /// Spreading factor 12, 4096 chips / symbol
    Sf12,
}

/// LoRa coding rate.
#[derive(Copy, Clone, PartialEq, Eq, Debug)]
#[non_exhaustive]
pub enum CodingRate {
    /// Coding rate 4/5
    Cr4_5,
    /// Coding rate 4/6
    Cr4_6,
    /// Coding rate 4/7
    Cr4_7,
    /// Coding rate 4/8
    Cr4_8,
}

} // verus!
