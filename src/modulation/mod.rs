//! Shared types for radio channel and modulation configuration.
use vstd::prelude::*;

pub mod gfsk;
pub mod lora;

verus! {

/// Common modulation configuration errors, for use by conversions into device settings.
#[derive(Copy, Clone, Debug, PartialEq, Eq)]
#[non_exhaustive]
pub enum ModError {
    UnsupportedBitrate,
    UnsupportedFreq,
    UnsupportedBandwidth,
}

/// A frequency, split into a kHz part and a Hz part (below 1000) to give Hz precision
/// over a range well past what a `u32` of Hz holds.
#[derive(Copy, Clone, Debug, PartialEq, Eq)]
pub struct Freq {
    /// kHz part
    khz: u32,
    /// Hz part (0 to 999)
    hz: u32,
}

/// Conversions between frequencies and plain numbers. A conversion may be made where
/// its `*_defined` holds, and gives a result that its `is_*` accepts.
pub trait Frequency<T> {
    spec fn hz_defined(&self) -> bool;

    spec fn is_hz(&self, r: T) -> bool;

    spec fn khz_defined(&self) -> bool;

    spec fn is_khz(&self, r: T) -> bool;

    spec fn mhz_defined(&self) -> bool;

    spec fn is_mhz(&self, r: T) -> bool;

    spec fn ghz_defined(&self) -> bool;

    spec fn is_ghz(&self, r: T) -> bool;

    fn hz(&self) -> (r: T)
        requires
            self.hz_defined(),
        ensures
            self.is_hz(r),
    ;

    fn khz(&self) -> (r: T)
        requires
            self.khz_defined(),
        ensures
            self.is_khz(r),
    ;

    fn mhz(&self) -> (r: T)
        requires
            self.mhz_defined(),
        ensures
            self.is_mhz(r),
    ;

    fn ghz(&self) -> (r: T)
        requires
            self.ghz_defined(),
        ensures
            self.is_ghz(r),
    ;
}

/// A frequency is fixed by its parts: two with the same kHz and Hz parts are equal.
pub proof fn lemma_parts_determine(a: Freq, b: Freq)
    requires
        a.parts_spec() == b.parts_spec(),
    ensures
        a == b,
{
}

impl Freq {
    /// The kHz part and the Hz part.
    pub closed spec fn parts_spec(&self) -> (u32, u32) {
        (self.khz, self.hz)
    }

    /// The frequency in Hz.
    pub open spec fn total_hz(&self) -> int {
        self.parts_spec().0 * 1000 + self.parts_spec().1
    }

    /// Every frequency's Hz part is below 1000.
    pub open spec fn wf(&self) -> bool {
        self.parts_spec().1 < 1000
    }

    /// A frequency from its kHz and Hz parts; none where the Hz part is 1000 or more.
    pub fn from_parts(khz: u32, hz: u32) -> (r: Option<Self>)
        ensures
            hz >= 1000 ==> r is None,
            hz < 1000 ==> r is Some && r->Some_0.parts_spec() == (khz, hz) && r->Some_0.wf(),
    {
        if hz >= 1000 {
            return None;
        }
        Some(Freq { khz, hz })
    }

    /// The kHz part and the Hz part.
    pub fn parts(&self) -> (r: (u32, u32))
        ensures
            r == self.parts_spec(),
    {
        (self.khz, self.hz)
    }
}

/// A frequency as whole Hz (where that fits a `u32`), kHz, MHz or GHz, rounded down.
impl Frequency<u32> for Freq {
    open spec fn hz_defined(&self) -> bool {
        self.total_hz() <= u32::MAX
    }

    open spec fn is_hz(&self, r: u32) -> bool {
        r == self.total_hz()
    }

    open spec fn khz_defined(&self) -> bool {
        true
    }

    open spec fn is_khz(&self, r: u32) -> bool {
        r == self.parts_spec().0
    }

    open spec fn mhz_defined(&self) -> bool {
        true
    }

    open spec fn is_mhz(&self, r: u32) -> bool {
        r == self.parts_spec().0 / 1000
    }

    open spec fn ghz_defined(&self) -> bool {
        true
    }

    open spec fn is_ghz(&self, r: u32) -> bool {
        r == self.parts_spec().0 / 1000 / 1000
    }

    fn hz(&self) -> (r: u32) {
        self.khz * 1000 + self.hz
    }

    fn khz(&self) -> (r: u32) {
        self.khz
    }

    fn mhz(&self) -> (r: u32) {
        self.khz / 1000
    }

    fn ghz(&self) -> (r: u32) {
        self.khz / 1000 / 1000
    }
}

/// A frequency from a number of Hz, kHz, MHz or GHz (where that fits the kHz part).
impl Frequency<Freq> for u32 {
    open spec fn hz_defined(&self) -> bool {
        true
    }

    open spec fn is_hz(&self, r: Freq) -> bool {
        r.parts_spec() == (*self / 1000, *self % 1000)
    }

    open spec fn khz_defined(&self) -> bool {
        true
    }

    open spec fn is_khz(&self, r: Freq) -> bool {
        r.parts_spec() == (*self, 0u32)
    }

    open spec fn mhz_defined(&self) -> bool {
        *self * 1000 <= u32::MAX
    }

    open spec fn is_mhz(&self, r: Freq) -> bool {
        r.parts_spec().0 == *self * 1000 && r.parts_spec().1 == 0
    }

    open spec fn ghz_defined(&self) -> bool {
        *self * 1000 * 1000 <= u32::MAX
    }

    open spec fn is_ghz(&self, r: Freq) -> bool {
        r.parts_spec().0 == *self * 1000 * 1000 && r.parts_spec().1 == 0
    }

    fn hz(&self) -> (r: Freq) {
        Freq { khz: *self / 1000, hz: *self % 1000 }
    }

    fn khz(&self) -> (r: Freq) {
        Freq { khz: *self, hz: 0 }
    }

    fn mhz(&self) -> (r: Freq) {
        Freq { khz: *self * 1000, hz: 0 }
    }

    fn ghz(&self) -> (r: Freq) {
        Freq { khz: *self * 1000 * 1000, hz: 0 }
    }
}

} // verus!
