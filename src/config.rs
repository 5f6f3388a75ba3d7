//! Standard radio configuration options.
use vstd::prelude::*;

verus! {

/// Radio configuration options.
#[non_exhaustive]
#[derive(Clone, Copy, Debug, PartialEq, Eq)]
pub enum ConfigOption {
    /// MAC address
    MAC([u8; 6]),
    /// IPv4 address
    IPv4([u8; 4]),
    /// IPv6 address
    IPv6([u8; 16]),
    /// IEEE 802.15.4(g) / ZigBee short (16-bit) address
    ShortAddress(u16),
    /// Long (64-bit) address
    LongAddress(u64),
    /// PAN ID
    PAN(u16),
    /// Maximum Transmission Unit (MTU)
    MTU(u16),
    /// Transmit power (dBm)
    TXPower(i16),
    /// Await a clear channel before transmitting (if supported)
    AwaitCCA(bool),
    /// Clear channel threshold in dBm (used where AwaitCCA is set)
    CCAThreshold(i16),
    /// Automatic 802.15.4 acknowledgements (if supported)
    AutoAck(bool),
    /// Promiscuous mode (if supported): no hardware address filtering
    Promiscuous(bool),
}

/// Radio configuration errors: an option the device does not support, or a device error.
#[non_exhaustive]
#[derive(Clone, Copy, Debug, PartialEq, Eq)]
pub enum ConfigError<E> {
    /// Configuration option not supported
    NotSupported,
    /// Device (non-configuration) error
    Other(E),
}

/// Radios whose options can be configured.
pub trait Configure {
    /// Radio error
    type Error;

    /// Set a configuration option.
    fn set_option(&mut self, o: &ConfigOption) -> Result<(), ConfigError<Self::Error>>;

    /// Fetch a configuration option, overwriting the value held in `o`.
    fn get_option(&mut self, o: &mut ConfigOption) -> Result<(), ConfigError<Self::Error>>;
}

} // verus!
