//! Cooperative completion-poll engine: the same start / check / timeout protocol as the
//! blocking engine, as a resumable unit of work.
//!
//! The start call happens when the operation is created; each `poll` then makes exactly
//! one completion check, and either completes or asks its scheduler to poll again:
//! after the poll period where a timed wake is available, at once otherwise. The caller
//! may drop an operation at any time; nothing is sent to the device then.
use crate::blocking::next_elapsed;
use crate::{Call, Device, Op, Power, Receive, Reply, Transmit};
use vstd::prelude::*;

verus! {

/// Options for the cooperative operations; durations are in nanoseconds.
#[derive(Clone, Copy, Debug, PartialEq, Eq)]
pub struct AsyncOptions {
    /// Output power to set before a transmit
    pub power: Option<i8>,
    /// Budget for the operation, counted as summed poll periods; none for no limit
    pub timeout: Option<u64>,
    /// Period between completion checks
    pub poll_period: u32,
    /// Whether the scheduler can wake the operation after a period; without that, an
    /// unfinished operation asks to be polled again at once
    pub timed_wake: bool,
}

impl Default for AsyncOptions {
    /// No power setting and no timeout; poll every 10 ms, re-armed at once.
    fn default() -> (r: Self)
        ensures
            r.power is None,
            r.timeout is None,
            r.poll_period == 10_000_000,
            !r.timed_wake,
    {
        AsyncOptions { power: None, timeout: None, poll_period: 10_000_000, timed_wake: false }
    }
}

/// The outcome of a failed operation: a device error, or the engine's own timeout.
#[derive(Clone, Copy, Debug, PartialEq, Eq)]
pub enum AsyncError<E> {
    Inner(E),
    Timeout,
}

impl<E> From<E> for AsyncError<E> {
    fn from(e: E) -> (r: Self) {
        AsyncError::Inner(e)
    }
}

impl<E> vstd::std_specs::convert::FromSpecImpl<E> for AsyncError<E> {
    open spec fn obeys_from_spec() -> bool {
        true
    }

    open spec fn from_spec(e: E) -> Self {
        AsyncError::Inner(e)
    }
}

/// When an unfinished operation wants to be polled again.
#[derive(Clone, Copy, Debug, PartialEq, Eq)]
pub enum Rearm {
    /// After this many nanoseconds
    After(u32),
    /// At once
    Now,
}

/// What one poll of an operation gives.
#[derive(Clone, Copy, Debug, PartialEq, Eq)]
pub enum Step<T> {
    Ready(T),
    Pending(Rearm),
}

/// The re-arm request of an unfinished operation.
pub open spec fn rearm_of(o: AsyncOptions) -> Rearm {
    if o.timed_wake {
        Rearm::After(o.poll_period)
    } else {
        Rearm::Now
    }
}

/// The elapsed count after one more unfinished check, or `None` once it passes the
/// timeout.
pub open spec fn next_count(o: AsyncOptions, elapsed: u64) -> Option<u64> {
    match o.timeout {
        None => Some(elapsed),
        Some(t) => if elapsed + o.poll_period > t {
            None
        } else {
            Some((elapsed + o.poll_period) as u64)
        },
    }
}

/// The elapsed count after `k` unfinished checks of a fresh operation; none once it has
/// timed out.
pub open spec fn count_after_rounds(o: AsyncOptions, k: nat) -> Option<u64>
    decreases k,
{
    if k == 0 {
        Some(0)
    } else {
        match count_after_rounds(o, (k - 1) as nat) {
            None => None,
            Some(c) => next_count(o, c),
        }
    }
}

/// With a timeout, a cooperative operation follows the blocking engine's rule: after `k`
/// unfinished checks its count is `k * poll_period` while that stays within the timeout,
/// and it has timed out once `k * poll_period` exceeds it.
pub proof fn lemma_async_deadline(o: AsyncOptions, t: u64, k: nat)
    requires
        o.timeout == Some(t),
    ensures
        k * o.poll_period <= t ==> count_after_rounds(o, k) == Some((k * o.poll_period) as u64),
        k * o.poll_period > t ==> count_after_rounds(o, k) is None,
    decreases k,
{
    if k > 0 {
        let j = (k - 1) as nat;
        let p = o.poll_period;
        lemma_async_deadline(o, t, j);
        assert(j * p + p == k * p) by (nonlinear_arith)
            requires
                k == j + 1,
        ;
        assert(count_after_rounds(o, k) == match count_after_rounds(o, j) {
            None => None,
            Some(c) => next_count(o, c),
        });
        if j * p <= t {
            assert(count_after_rounds(o, j) == Some((j * p) as u64));
            assert(next_count(o, (j * p) as u64) == (if k * p > t {
                None
            } else {
                Some((k * p) as u64)
            }));
        } else {
            assert(count_after_rounds(o, j) is None);
            assert(k * p > t);
        }
    } else {
        assert(k * o.poll_period == 0) by (nonlinear_arith)
            requires
                k == 0,
        ;
    }
}

/// The poll period and timeout as the blocking engine takes them.
fn count_after(o: &AsyncOptions, elapsed: u64) -> (r: Option<u64>)
    requires
        o.timeout matches Some(t) ==> elapsed <= t,
    ensures
        r == next_count(*o, elapsed),
{
    match o.timeout {
        None => Some(elapsed),
        Some(t) => next_elapsed(elapsed, o.poll_period, t),
    }
}

/// A transmit in progress.
pub struct TransmitFuture {
    options: AsyncOptions,
    elapsed: u64,
}

impl TransmitFuture {
    pub closed spec fn options(&self) -> AsyncOptions {
        self.options
    }

    /// The summed poll periods of the unfinished checks so far.
    pub closed spec fn elapsed(&self) -> u64 {
        self.elapsed
    }

    pub closed spec fn wf(&self) -> bool {
        self.options.timeout matches Some(t) ==> self.elapsed <= t
    }

    /// Check once for completion of the transmit.
    pub fn poll<T: Transmit>(&mut self, radio: &mut T) -> (r: Step<Result<(), AsyncError<T::Error>>>)
        requires
            old(self).wf(),
            old(radio).inv(),
        ensures
            final(self).wf(),
            final(radio).inv(),
            final(radio).follows(*old(radio)),
            final(self).options() == old(self).options(),
            final(radio).log().len() == old(radio).log().len() + 1,
            final(radio).log().drop_last() == old(radio).log(),
            final(radio).log().last().op == Op::<T::State>::CheckTransmit,
            match final(radio).log().last().reply {
                Reply::Flag(true) => r == Step::Ready(Ok::<(), AsyncError<T::Error>>(())),
                Reply::Failed(e) => r == Step::Ready(Err::<(), _>(AsyncError::Inner(e))),
                _ => match next_count(old(self).options(), old(self).elapsed()) {
                    None => r == Step::Ready(Err::<(), _>(AsyncError::<T::Error>::Timeout)),
                    Some(n) => r == Step::<Result<(), AsyncError<T::Error>>>::Pending(
                        rearm_of(old(self).options()),
                    ) && final(self).elapsed() == n,
                },
            },
    {
        let ghost log0 = radio.log();
        let done = radio.check_transmit();
        proof {
            assert(radio.log().drop_last() =~= log0);
        }
        match done {
            Ok(true) => Step::Ready(Ok(())),
            Err(e) => Step::Ready(Err(AsyncError::Inner(e))),
            Ok(false) => match count_after(&self.options, self.elapsed) {
                None => Step::Ready(Err(AsyncError::Timeout)),
                Some(n) => {
                    self.elapsed = n;
                    if self.options.timed_wake {
                        Step::Pending(Rearm::After(self.options.poll_period))
                    } else {
                        Step::Pending(Rearm::Now)
                    }
                },
            },
        }
    }
}

/// Cooperative transmit: set the power where the options ask for it, start sending
/// `data`, and hand back the operation that polls for completion.
pub trait AsyncTransmit: Transmit + Power {
    fn async_transmit(&mut self, data: &[u8], tx_options: AsyncOptions) -> (r: Result<
        TransmitFuture,
        Self::Error,
    >)
        requires
            old(self).inv(),
        ensures
            final(self).inv(),
            final(self).follows(*old(self)),
            transmit_started(old(self).log(), final(self).log(), data@, tx_options, r),
    ;
}

/// `after` is `before` with the start of a cooperative transmit appended: the power
/// setting where asked for, then the start of the send, stopping at the first failure.
pub open spec fn transmit_started<S, I, E>(
    before: Seq<Call<S, I, E>>,
    after: Seq<Call<S, I, E>>,
    data: Seq<u8>,
    o: AsyncOptions,
    r: Result<TransmitFuture, E>,
) -> bool {
    let start = |rep: Reply<S, I, E>| Call { op: Op::StartTransmit(data), reply: rep };
    match o.power {
        Some(p) => {
            &&& after.len() >= before.len() + 1
            &&& after.take(before.len() + 1 as int) == before.push(
                Call { op: Op::SetPower(p), reply: after[before.len() as int].reply },
            )
            &&& match after[before.len() as int].reply {
                Reply::Failed(e) => after.len() == before.len() + 1 && r == Err::<TransmitFuture, E>(e),
                _ => started(before.len() + 1 as int, after, start, o, r),
            }
        },
        None => after.len() >= before.len() && after.take(before.len() as int) == before && started(
            before.len() as int,
            after,
            start,
            o,
            r,
        ),
    }
}

/// From `at` on, `after` holds exactly one start call; the operation is handed back
/// fresh where it succeeded, and its error otherwise.
pub open spec fn started<S, I, E>(
    at: int,
    after: Seq<Call<S, I, E>>,
    start: spec_fn(Reply<S, I, E>) -> Call<S, I, E>,
    o: AsyncOptions,
    r: Result<TransmitFuture, E>,
) -> bool {
    &&& after.len() == at + 1
    &&& after[at] == start(after[at].reply)
    &&& match after[at].reply {
        Reply::Failed(e) => r == Err::<TransmitFuture, E>(e),
        _ => r is Ok && r->Ok_0.wf() && r->Ok_0.options() == o && r->Ok_0.elapsed() == 0,
    }
}

impl<T: Transmit + Power> AsyncTransmit for T {
    fn async_transmit(&mut self, data: &[u8], tx_options: AsyncOptions) -> (r: Result<
        TransmitFuture,
        Self::Error,
    >) {
        let ghost log0 = self.log();
        if let Some(p) = tx_options.power {
            match self.set_power(p) {
                Ok(()) => {},
                Err(e) => {
                    proof {
                        assert(self.log().take(log0.len() + 1 as int) =~= self.log());
                    }
                    return Err(e);
                },
            }
        }
        let ghost log1 = self.log();
        let ghost st = *self;
        let started = self.start_transmit(data);
        proof {
            if tx_options.power is Some {
                <T as Device>::lemma_follows_trans(*old(self), st, *self);
            }
            assert(self.log().take(log0.len() as int) =~= log0);
            if tx_options.power is Some {
                assert(self.log().take(log0.len() + 1 as int) =~= log1);
                assert(self.log()[log0.len() as int] == log1[log0.len() as int]);
            }
        }
        match started {
            Ok(()) => Ok(TransmitFuture { options: tx_options, elapsed: 0 }),
            Err(e) => Err(e),
        }
    }
}

/// A receive in progress.
pub struct ReceiveFuture {
    options: AsyncOptions,
    elapsed: u64,
}

/// The result of a fetch that got `reply`, the buffer holding `buff` afterwards.
pub open spec fn fetched_async<S, I, E>(
    reply: Reply<S, I, E>,
    buff: Seq<u8>,
    r: Step<Result<(usize, I), AsyncError<E>>>,
) -> bool {
    match reply {
        Reply::Received(bytes, info) => {
            &&& r == Step::Ready(Ok::<(usize, I), AsyncError<E>>((bytes.len() as usize, info)))
            &&& bytes.len() <= buff.len()
            &&& buff.take(bytes.len() as int) == bytes
        },
        Reply::Failed(e) => r == Step::Ready(Err::<(usize, I), _>(AsyncError::Inner(e))),
        _ => false,
    }
}

impl ReceiveFuture {
    pub closed spec fn options(&self) -> AsyncOptions {
        self.options
    }

    /// The summed poll periods of the unfinished checks so far.
    pub closed spec fn elapsed(&self) -> u64 {
        self.elapsed
    }

    pub closed spec fn wf(&self) -> bool {
        self.options.timeout matches Some(t) ==> self.elapsed <= t
    }

    /// Check once for a received packet, and fetch it into `buff` once it is there.
    pub fn poll<T: Receive>(&mut self, radio: &mut T, buff: &mut [u8]) -> (r: Step<
        Result<(usize, T::Info), AsyncError<T::Error>>,
    >)
        requires
            old(self).wf(),
            old(radio).inv(),
        ensures
            final(self).wf(),
            final(radio).inv(),
            final(radio).follows(*old(radio)),
            final(self).options() == old(self).options(),
            final(buff)@.len() == old(buff)@.len(),
            ({
                let log0 = old(radio).log();
                let log = final(radio).log();
                let n = log0.len() as int;
                &&& log.len() > n
                &&& log.take(n) == log0
                &&& log[n].op == Op::<T::State>::CheckReceive(true)
                &&& match log[n].reply {
                    Reply::Flag(true) => {
                        &&& log.len() == n + 2
                        &&& log[n + 1].op == Op::<T::State>::GetReceived(old(buff)@.len())
                        &&& fetched_async(log[n + 1].reply, final(buff)@, r)
                    },
                    Reply::Failed(e) => log.len() == n + 1 && r == Step::Ready(
                        Err::<(usize, T::Info), _>(AsyncError::Inner(e)),
                    ),
                    _ => log.len() == n + 1 && match next_count(old(self).options(), old(self).elapsed()) {
                        None => r == Step::Ready(
                            Err::<(usize, T::Info), _>(AsyncError::<T::Error>::Timeout),
                        ),
                        Some(c) => r == Step::<Result<(usize, T::Info), AsyncError<T::Error>>>::Pending(
                            rearm_of(old(self).options()),
                        ) && final(self).elapsed() == c,
                    },
                }
            }),
    {
        let ghost log0 = radio.log();
        let ready = radio.check_receive(true);
        let ghost log1 = radio.log();
        proof {
            assert(log1.take(log0.len() as int) =~= log0);
        }
        match ready {
            Ok(true) => {
                let ghost st = *radio;
                let fetched = radio.get_received(buff);
                proof {
                    <T as Device>::lemma_follows_trans(*old(radio), st, *radio);
                    assert(radio.log().take(log0.len() as int) =~= log0);
                    assert(radio.log()[log0.len() as int] == log1[log0.len() as int]);
                }
                match fetched {
                    Ok((n, info)) => Step::Ready(Ok((n, info))),
                    Err(e) => Step::Ready(Err(AsyncError::Inner(e))),
                }
            },
            Err(e) => Step::Ready(Err(AsyncError::Inner(e))),
            Ok(false) => match count_after(&self.options, self.elapsed) {
                None => Step::Ready(Err(AsyncError::Timeout)),
                Some(c) => {
                    self.elapsed = c;
                    if self.options.timed_wake {
                        Step::Pending(Rearm::After(self.options.poll_period))
                    } else {
                        Step::Pending(Rearm::Now)
                    }
                },
            },
        }
    }
}

/// Cooperative receive: enter receive mode, and hand back the operation that polls for
/// a packet.
pub trait AsyncReceive: Receive {
    fn async_receive(&mut self, rx_options: AsyncOptions) -> (r: Result<ReceiveFuture, Self::Error>)
        requires
            old(self).inv(),
        ensures
            final(self).inv(),
            final(self).follows(*old(self)),
            final(self).log() == old(self).log().push(
                Call {
                    op: Op::StartReceive,
                    reply: match r {
                        Ok(_) => Reply::Done,
                        Err(e) => Reply::Failed(e),
                    },
                },
            ),
            r matches Ok(f) ==> f.wf() && f.options() == rx_options && f.elapsed() == 0,
    ;
}

impl<T: Receive> AsyncReceive for T {
    fn async_receive(&mut self, rx_options: AsyncOptions) -> (r: Result<ReceiveFuture, Self::Error>) {
        match self.start_receive() {
            Ok(()) => Ok(ReceiveFuture { options: rx_options, elapsed: 0 }),
            Err(e) => Err(e),
        }
    }
}

} // verus!
