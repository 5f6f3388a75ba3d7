//! Abstract packet radio interfaces, with blocking and cooperative completion-poll
//! engines built on them, and a mock device that checks a driver's call sequence.
//!
//! Every capability trait extends [`Device`], whose ghost call log records each call
//! made on the device together with the device's reply. The engines state their
//! results over that log, so that their contracts hold of any driver.
use core::convert::TryFrom;
use vstd::prelude::*;

pub mod blocking;
pub mod config;
pub mod helpers;
pub mod mock;
pub mod modulation;
pub mod nonblocking;
pub mod params;

verus! {

/// An operation issued to a device, as the device's call log records it.
pub enum Op<S> {
    StartTransmit(Seq<u8>),
    CheckTransmit,
    StartReceive,
    CheckReceive(bool),
    /// A fetch of the received packet into a buffer of the given capacity.
    GetReceived(nat),
    SetState(S),
    GetState,
    SetPower(i8),
    PollRssi,
    IsBusy,
    GetInterrupts(bool),
    SetChannel,
    /// A register read or write
    Register,
    DelayNs(u32),
}

/// The reply a device gave to one operation.
pub enum Reply<S, I, E> {
    Done,
    Flag(bool),
    State(S),
    Received(Seq<u8>, I),
    Rssi(i16),
    Failed(E),
}

/// One entry of a device's call log.
pub struct Call<S, I, E> {
    pub op: Op<S>,
    pub reply: Reply<S, I, E>,
}

pub open spec fn done_reply<S, I, E>(r: Result<(), E>) -> Reply<S, I, E> {
    match r {
        Ok(()) => Reply::Done,
        Err(e) => Reply::Failed(e),
    }
}

pub open spec fn flag_reply<S, I, E>(r: Result<bool, E>) -> Reply<S, I, E> {
    match r {
        Ok(b) => Reply::Flag(b),
        Err(e) => Reply::Failed(e),
    }
}

pub open spec fn state_reply<S, I, E>(r: Result<S, E>) -> Reply<S, I, E> {
    match r {
        Ok(s) => Reply::State(s),
        Err(e) => Reply::Failed(e),
    }
}

pub open spec fn rssi_reply<S, I, E>(r: Result<i16, E>) -> Reply<S, I, E> {
    match r {
        Ok(v) => Reply::Rssi(v),
        Err(e) => Reply::Failed(e),
    }
}

/// The reply of a packet fetch: the first `n` bytes of the buffer and the packet info.
pub open spec fn received_reply<S, I, E>(r: Result<(usize, I), E>, buff: Seq<u8>) -> Reply<S, I, E> {
    match r {
        Ok((n, i)) => Reply::Received(buff.take(n as int), i),
        Err(e) => Reply::Failed(e),
    }
}

/// `after` is `before` with more calls appended.
pub open spec fn extends<T>(before: Seq<T>, after: Seq<T>) -> bool {
    &&& before.len() <= after.len()
    &&& forall|i: int| 0 <= i < before.len() ==> #[trigger] after[i] == before[i]
}

/// Appending to a log keeps every earlier entry.
pub proof fn lemma_extends_push<T>(before: Seq<T>, after: Seq<T>, x: T)
    requires
        extends(before, after),
    ensures
        extends(before, after.push(x)),
{
    assert forall|i: int| 0 <= i < before.len() implies #[trigger] after.push(x)[i] == before[i] by {
        assert(after.push(x)[i] == after[i]);
    }
}

/// Appending in two steps appends in one.
pub proof fn lemma_extends_chain<T>(a: Seq<T>, b: Seq<T>, c: Seq<T>)
    requires
        extends(a, b),
        extends(b, c),
    ensures
        extends(a, c),
{
    assert forall|i: int| 0 <= i < a.len() implies #[trigger] c[i] == a[i] by {
        assert(c[i] == b[i]);
    }
}

/// A device: the types its capabilities share, and the log of the calls made on it.
pub trait Device: Sized {
    /// Device error
    type Error;
    /// Device state, for the `State` capability
    type State;
    /// Received packet information, for the `Receive` capability
    type Info;

    /// Every capability call made on the device so far, oldest first, with its reply.
    spec fn log(&self) -> Seq<Call<Self::State, Self::Info, Self::Error>>;

    /// The device's own consistency condition, kept by every capability call.
    spec fn inv(&self) -> bool;

    /// The device, as it is now, has only answered capability calls since it was
    /// `earlier`.
    spec fn follows(&self, earlier: Self) -> bool;

    proof fn lemma_follows_refl(a: Self)
        ensures
            a.follows(a),
    ;

    proof fn lemma_follows_trans(a: Self, b: Self, c: Self)
        requires
            b.follows(a),
            c.follows(b),
        ensures
            c.follows(a),
    ;
}

/// Radio combines Transmit, Receive and State for a generic radio object.
pub trait Radio: Transmit + Receive + State {}

/// Radios that can transmit packets.
///
/// `start_transmit` loads data into the radio; `check_transmit` is then called
/// periodically to continue and finalise the transmission.
pub trait Transmit: Device {
    /// Start sending a packet.
    fn start_transmit(&mut self, data: &[u8]) -> (r: Result<(), Self::Error>)
        requires
            old(self).inv(),
        ensures
            final(self).inv(),
            final(self).follows(*old(self)),
            final(self).log() == old(self).log().push(
                Call { op: Op::StartTransmit(data@), reply: done_reply(r) },
            ),
    ;

    /// Check for send completion: true once the packet is sent.
    fn check_transmit(&mut self) -> (r: Result<bool, Self::Error>)
        requires
            old(self).inv(),
        ensures
            final(self).inv(),
            final(self).follows(*old(self)),
            final(self).log() == old(self).log().push(
                Call { op: Op::CheckTransmit, reply: flag_reply(r) },
            ),
    ;
}

/// Radios that can receive packets.
///
/// `start_receive` puts the radio in receive mode, `check_receive` is polled for
/// reception, and `get_received` then fetches the packet and its information.
pub trait Receive: Device {
    /// Enter receive mode.
    fn start_receive(&mut self) -> (r: Result<(), Self::Error>)
        requires
            old(self).inv(),
        ensures
            final(self).inv(),
            final(self).follows(*old(self)),
            final(self).log() == old(self).log().push(
                Call { op: Op::StartReceive, reply: done_reply(r) },
            ),
    ;

    /// Check for reception: true once a packet is ready. With `restart` set, the radio
    /// re-enters receive mode by itself on recoverable errors (such as a bad CRC).
    fn check_receive(&mut self, restart: bool) -> (r: Result<bool, Self::Error>)
        requires
            old(self).inv(),
        ensures
            final(self).inv(),
            final(self).follows(*old(self)),
            final(self).log() == old(self).log().push(
                Call { op: Op::CheckReceive(restart), reply: flag_reply(r) },
            ),
    ;

    /// Copy the received packet into `buff`, returning its length and information.
    fn get_received(&mut self, buff: &mut [u8]) -> (r: Result<(usize, Self::Info), Self::Error>)
        requires
            old(self).inv(),
        ensures
            final(self).inv(),
            final(self).follows(*old(self)),
            final(buff)@.len() == old(buff)@.len(),
            r matches Ok((n, _)) ==> n <= old(buff)@.len(),
            final(self).log() == old(self).log().push(
                Call {
                    op: Op::GetReceived(old(buff)@.len()),
                    reply: received_reply(r, final(buff)@),
                },
            ),
    ;
}

/// Information a radio attaches to a received packet.
pub trait ReceiveInfo {
    /// Signal strength of the packet in dBm.
    spec fn rssi_spec(&self) -> i16;

    fn rssi(&self) -> (r: i16)
        ensures
            r == self.rssi_spec(),
    ;
}

/// Packet information for radios that report only RSSI and LQI.
#[derive(Debug, Clone, Copy, PartialEq, Eq)]
pub struct BasicInfo {
    /// Received Signal Strength Indicator (RSSI) of the packet in dBm
    rssi: i16,
    /// Link Quality Indicator (LQI) of the packet
    lqi: u16,
}

impl Default for BasicInfo {
    /// The lowest RSSI and LQI.
    fn default() -> (r: Self)
        ensures
            r.rssi_spec() == i16::MIN,
            r.lqi_spec() == u16::MIN,
    {
        BasicInfo { rssi: i16::MIN, lqi: u16::MIN }
    }
}

impl BasicInfo {
    /// Link quality of the packet.
    pub closed spec fn lqi_spec(&self) -> u16 {
        self.lqi
    }

    pub fn new(rssi: i16, lqi: u16) -> (r: Self)
        ensures
            r.rssi_spec() == rssi,
            r.lqi_spec() == lqi,
    {
        BasicInfo { rssi, lqi }
    }
}

impl ReceiveInfo for BasicInfo {
    closed spec fn rssi_spec(&self) -> i16 {
        self.rssi
    }

    fn rssi(&self) -> (r: i16) {
        self.rssi
    }
}

/// Radio channel for devices with plain integer channels.
#[derive(Debug, Clone, Copy, PartialEq, Eq)]
pub struct BasicChannel(pub u16);

impl From<u16> for BasicChannel {
    fn from(u: u16) -> (r: Self) {
        BasicChannel(u)
    }
}

impl vstd::std_specs::convert::FromSpecImpl<u16> for BasicChannel {
    open spec fn obeys_from_spec() -> bool {
        true
    }

    open spec fn from_spec(u: u16) -> Self {
        BasicChannel(u)
    }
}

impl From<BasicChannel> for u16 {
    fn from(ch: BasicChannel) -> (r: u16) {
        ch.0
    }
}

impl vstd::std_specs::convert::FromSpecImpl<BasicChannel> for u16 {
    open spec fn obeys_from_spec() -> bool {
        true
    }

    open spec fn from_spec(ch: BasicChannel) -> u16 {
        ch.0
    }
}

/// Radios whose channel can be configured.
pub trait Channel: Device {
    /// Radio channel type
    type Channel;

    /// The channels asked for so far, oldest first.
    spec fn channel_log(&self) -> Seq<Self::Channel>;

    /// Set the channel for later transmit and receive operations.
    fn set_channel(&mut self, channel: &Self::Channel) -> (r: Result<(), Self::Error>)
        requires
            old(self).inv(),
        ensures
            final(self).inv(),
            final(self).follows(*old(self)),
            final(self).channel_log() == old(self).channel_log().push(*channel),
            final(self).log() == old(self).log().push(
                Call { op: Op::SetChannel, reply: done_reply(r) },
            ),
    ;
}

/// Radios whose output power can be configured.
pub trait Power: Device {
    /// Set the output power in dBm.
    fn set_power(&mut self, power: i8) -> (r: Result<(), Self::Error>)
        requires
            old(self).inv(),
        ensures
            final(self).inv(),
            final(self).follows(*old(self)),
            final(self).log() == old(self).log().push(
                Call { op: Op::SetPower(power), reply: done_reply(r) },
            ),
    ;
}

/// Radios that can measure the RSSI of the current channel (in receive mode).
pub trait Rssi: Device {
    /// Measure the current RSSI in dBm.
    fn poll_rssi(&mut self) -> (r: Result<i16, Self::Error>)
        requires
            old(self).inv(),
        ensures
            final(self).inv(),
            final(self).follows(*old(self)),
            final(self).log() == old(self).log().push(
                Call { op: Op::PollRssi, reply: rssi_reply(r) },
            ),
    ;
}

/// Radios whose state can be set and read back.
///
/// A requested transition is confirmed only by reading the state again.
pub trait State: Device {
    /// Request a state.
    fn set_state(&mut self, state: Self::State) -> (r: Result<(), Self::Error>)
        requires
            old(self).inv(),
        ensures
            final(self).inv(),
            final(self).follows(*old(self)),
            final(self).log() == old(self).log().push(
                Call { op: Op::SetState(state), reply: done_reply(r) },
            ),
    ;

    /// Read the current state.
    fn get_state(&mut self) -> (r: Result<Self::State, Self::Error>)
        requires
            old(self).inv(),
        ensures
            final(self).inv(),
            final(self).follows(*old(self)),
            final(self).log() == old(self).log().push(
                Call { op: Op::GetState, reply: state_reply(r) },
            ),
    ;
}

/// States that every radio has.
pub trait RadioState: Sized {
    fn idle() -> Self;

    fn sleep() -> Self;
}

/// Radios that report whether they are busy and should not be interrupted.
pub trait Busy: Device {
    fn is_busy(&mut self) -> (r: Result<bool, Self::Error>)
        requires
            old(self).inv(),
        ensures
            final(self).inv(),
            final(self).follows(*old(self)),
            final(self).log() == old(self).log().push(
                Call { op: Op::IsBusy, reply: flag_reply(r) },
            ),
    ;
}

/// Radios whose pending interrupts can be read (and cleared).
pub trait Interrupts: Device {
    /// Interrupt flags
    type Irq;

    /// The interrupt flags handed out so far, oldest first.
    spec fn irq_log(&self) -> Seq<Self::Irq>;

    /// Fetch the pending interrupts, clearing them where `clear` is set.
    fn get_interrupts(&mut self, clear: bool) -> (r: Result<Self::Irq, Self::Error>)
        requires
            old(self).inv(),
        ensures
            final(self).inv(),
            final(self).follows(*old(self)),
            r matches Ok(q) ==> final(self).irq_log() == old(self).irq_log().push(q),
            r is Err ==> final(self).irq_log() == old(self).irq_log(),
            final(self).log() == old(self).log().push(
                Call {
                    op: Op::GetInterrupts(clear),
                    reply: match r {
                        Ok(_) => Reply::Done,
                        Err(e) => Reply::Failed(e),
                    },
                },
            ),
    ;
}

/// The wait primitive the poll engines sleep with between checks.
pub trait DelayNs: Device {
    /// Pause for `ns` nanoseconds.
    fn delay_ns(&mut self, ns: u32)
        requires
            old(self).inv(),
        ensures
            final(self).inv(),
            final(self).follows(*old(self)),
            final(self).log() == old(self).log().push(Call { op: Op::DelayNs(ns), reply: Reply::Done }),
    ;
}

/// A register: its address and its value, convertible from and to the device word.
pub trait Register: Copy + TryFrom<<Self as Register>::Word, Error = <Self as Register>::Error> +
    Into<<Self as Register>::Word> {
    type Word;
    type Error;

    const ADDRESS: u8;
}

/// Register-level access to the device.
pub trait Registers<Word> {
    type Error;

    /// The value the register `R` holds on the device.
    spec fn value_of<R: Register<Word = Word>>(&self) -> R;

    /// Read a register value; reading leaves it as it was.
    fn read_register<R: Register<Word = Word>>(&mut self) -> (r: Result<R, Self::Error>)
        ensures
            r matches Ok(v) ==> v == old(self).value_of::<R>(),
            final(self).value_of::<R>() == old(self).value_of::<R>(),
    ;

    /// Write a register value; a failed write leaves it as it was.
    fn write_register<R: Register<Word = Word>>(&mut self, value: R) -> (r: Result<(), Self::Error>)
        ensures
            r is Ok ==> final(self).value_of::<R>() == value,
            r is Err ==> final(self).value_of::<R>() == old(self).value_of::<R>(),
    ;

    /// Read a register, write back `f` of its value, and return what was written.
    /// This is not atomic with respect to any other writer.
    fn update_register<R: Register<Word = Word>, F: Fn(R) -> R>(&mut self, f: F) -> (r: Result<
        R,
        Self::Error,
    >)
        requires
            forall|x: R| f.requires((x,)),
        ensures
            r matches Ok(v) ==> f.ensures((old(self).value_of::<R>(),), v)
                && final(self).value_of::<R>() == v,
            r is Err ==> final(self).value_of::<R>() == old(self).value_of::<R>(),
    {
        match self.read_register() {
            Ok(existing) => {
                let updated = f(existing);
                match self.write_register(updated) {
                    Ok(()) => Ok(updated),
                    Err(e) => Err(e),
                }
            },
            Err(e) => Err(e),
        }
    }
}

#[verifier::external_type_specification]
#[verifier::external_body]
pub struct ExDurationError(humantime::DurationError);

/// The length in nanoseconds of the duration that `s` spells in humantime's notation
/// ("100us", "1h 5min"); none where humantime refuses the text.
pub uninterp spec fn human_nanos(s: Seq<char>) -> Option<u128>;

/// The longest duration text this library hands to humantime. humantime panics when the
/// parsed seconds reach `u64::MAX` and then exactly one more whole second of sub-second
/// parts is added; the seconds alone take at least 12 digits and a unit (a year is
/// 31,557,600 s), and the whole second at least 6 more characters ("1000ms").
pub const MAX_DURATION_TEXT: usize = 18;

/// Relies on `humantime::parse_duration`: the parsed length depends on the text alone.
#[verifier::external_body]
fn parse_human(s: &str) -> (r: Result<u128, humantime::DurationError>)
    requires
        s@.len() <= MAX_DURATION_TEXT,
    ensures
        r is Ok <==> human_nanos(s@) is Some,
        r matches Ok(n) ==> human_nanos(s@) == Some(n),
{
    humantime::parse_duration(s).map(|d| d.as_nanos())
}

/// Why a duration text was refused.
#[derive(Clone, Copy, Debug, PartialEq, Eq)]
pub enum DurationParseError {
    /// Not a duration in humantime's notation
    Invalid,
    /// Longer than a `u64` of nanoseconds holds
    TooLong,
}

pub open spec fn nanos_result(parsed: Option<u128>) -> Result<u64, DurationParseError> {
    match parsed {
        None => Err(DurationParseError::Invalid),
        Some(n) => if n <= u64::MAX {
            Ok(n as u64)
        } else {
            Err(DurationParseError::TooLong)
        },
    }
}

/// A parsed length of time as nanoseconds in a `u64`.
pub fn nanos_from(parsed: Option<u128>) -> (r: Result<u64, DurationParseError>)
    ensures
        r == nanos_result(parsed),
{
    match parsed {
        None => Err(DurationParseError::Invalid),
        Some(n) => if n <= u64::MAX as u128 {
            Ok(n as u64)
        } else {
            Err(DurationParseError::TooLong)
        },
    }
}

/// Parse a duration in humantime's notation ("100us", "100ms") into nanoseconds.
pub fn duration_from_str(s: &str) -> (r: Result<u64, DurationParseError>)
    requires
        s@.len() <= MAX_DURATION_TEXT,
    ensures
        r == nanos_result(human_nanos(s@)),
{
    match parse_human(s) {
        Ok(n) => nanos_from(Some(n)),
        Err(_) => nanos_from(None),
    }
}

} // verus!
