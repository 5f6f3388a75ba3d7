//! Blocking completion-poll engine: start an operation, then check for completion every
//! `poll_interval`, waiting in between with the device's `DelayNs`, until it completes
//! or the summed intervals exceed `timeout`.
//!
//! Elapsed time is the sum of the nominal poll intervals, not a clock reading: a slow
//! check call does not count towards the timeout.
use crate::{extends, lemma_extends_push, Call, DelayNs, Device, Op, Receive, Reply, State, Transmit};
use vstd::prelude::*;
use vstd::std_specs::cmp::PartialEqSpec;

verus! {

/// Options for the blocking operations; durations are in nanoseconds.
#[derive(Clone, Copy, PartialEq, Eq, Debug)]
pub struct BlockingOptions {
    /// Interval between completion checks
    pub poll_interval: u32,
    /// Budget for the whole operation
    pub timeout: u64,
}

impl Default for BlockingOptions {
    /// Poll every 100 us, for at most 100 ms.
    fn default() -> (r: Self)
        ensures
            r.poll_interval == 100_000,
            r.timeout == 100_000_000,
    {
        BlockingOptions { poll_interval: 100_000, timeout: 100_000_000 }
    }
}

/// The outcome of a failed operation: a device error, or the engine's own timeout.
#[derive(Clone, Copy, Debug, PartialEq, Eq)]
pub enum BlockingError<E> {
    Inner(E),
    Timeout,
}

impl<E> From<E> for BlockingError<E> {
    fn from(e: E) -> (r: Self) {
        BlockingError::Inner(e)
    }
}

impl<E> vstd::std_specs::convert::FromSpecImpl<E> for BlockingError<E> {
    open spec fn obeys_from_spec() -> bool {
        true
    }

    open spec fn from_spec(e: E) -> Self {
        BlockingError::Inner(e)
    }
}

/// What a completion check is waiting for.
pub enum Goal<S> {
    /// A check that answers `true` once the operation is complete
    Flag,
    /// A state read that must return exactly this state
    State(S),
}

/// What one check reply tells the poll loop.
pub enum Progress<E> {
    Finished,
    Waiting,
    Failed(E),
}

pub open spec fn progress<S, I, E>(reply: Reply<S, I, E>, goal: Goal<S>) -> Progress<E> {
    match reply {
        Reply::Failed(e) => Progress::Failed(e),
        Reply::Flag(b) => if b && goal is Flag {
            Progress::Finished
        } else {
            Progress::Waiting
        },
        Reply::State(s) => if goal == Goal::State(s) {
            Progress::Finished
        } else {
            Progress::Waiting
        },
        _ => Progress::Waiting,
    }
}

/// The `j`-th check of a poll loop whose first check is at `base`.
pub open spec fn check_at<S, I, E>(log: Seq<Call<S, I, E>>, base: int, j: int) -> Call<S, I, E> {
    log[base + 2 * j]
}

/// The wait that follows the `j`-th check of a poll loop whose first check is at `base`.
pub open spec fn wait_at<S, I, E>(log: Seq<Call<S, I, E>>, base: int, j: int) -> Call<S, I, E> {
    log[base + 2 * j + 1]
}

/// From `base` on, `log` holds `k` checks that did not finish, each followed by a
/// wait of `p` nanoseconds.
pub open spec fn waited<S, I, E>(
    log: Seq<Call<S, I, E>>,
    base: int,
    check: Op<S>,
    goal: Goal<S>,
    p: u32,
    k: nat,
) -> bool {
    &&& 0 <= base
    &&& base + 2 * k <= log.len()
    &&& forall|j: int|
        0 <= j < k ==> (#[trigger] check_at(log, base, j)).op == check && progress(
            check_at(log, base, j).reply,
            goal,
        ) == Progress::<E>::Waiting
    &&& forall|j: int|
        0 <= j < k ==> #[trigger] wait_at(log, base, j) == (Call::<S, I, E> {
            op: Op::DelayNs(p),
            reply: Reply::Done,
        })
}

/// From `base` on, `log` holds a whole poll loop: `k` unfinished checks with their
/// waits, then the check that decided it. The loop went on while the summed
/// intervals stayed within the timeout, and stopped waiting once they would exceed it.
pub open spec fn polled<S, I, E>(
    log: Seq<Call<S, I, E>>,
    base: int,
    check: Op<S>,
    goal: Goal<S>,
    o: BlockingOptions,
    k: nat,
) -> bool {
    &&& waited(log, base, check, goal, o.poll_interval, k)
    &&& base + 2 * k < log.len()
    &&& check_at(log, base, k as int).op == check
    &&& k * o.poll_interval <= o.timeout
    &&& progress(check_at(log, base, k as int).reply, goal) is Waiting ==> (k + 1)
        * o.poll_interval > o.timeout
}

/// What the deciding check of a poll loop said.
pub open spec fn verdict<S, I, E>(log: Seq<Call<S, I, E>>, base: int, goal: Goal<S>, k: nat) -> Progress<E> {
    progress(check_at(log, base, k as int).reply, goal)
}

pub open spec fn outcome<E>(p: Progress<E>) -> Result<(), BlockingError<E>> {
    match p {
        Progress::Finished => Ok(()),
        Progress::Waiting => Err(BlockingError::Timeout),
        Progress::Failed(e) => Err(BlockingError::Inner(e)),
    }
}

/// The number of unfinished checks in a run that starts at `base` and ends at the
/// end of `log` (with at most one call after the deciding check).
pub open spec fn rounds<T>(log: Seq<T>, base: int) -> nat {
    ((log.len() - base - 2) / 2) as nat
}

/// `log` from `base` on is a run of an operation: the start call `start`, then, if that
/// succeeded, a whole poll loop of `check` calls; `r` is what the run returns.
pub open spec fn poll_run<S, I, E>(
    log: Seq<Call<S, I, E>>,
    base: int,
    start: Op<S>,
    check: Op<S>,
    goal: Goal<S>,
    o: BlockingOptions,
    r: Result<(), BlockingError<E>>,
) -> bool {
    &&& 0 <= base < log.len()
    &&& log[base].op == start
    &&& match log[base].reply {
        Reply::Failed(e) => log.len() == base + 1 && r == Err::<(), _>(BlockingError::Inner(e)),
        _ => {
            let k = rounds(log, base);
            &&& log.len() == base + 2 + 2 * k
            &&& polled(log, base + 1, check, goal, o, k)
            &&& r == outcome(verdict(log, base + 1, goal, k))
        },
    }
}

/// `log` from `base` on is a blocking receive run into a buffer of capacity `cap`,
/// which holds `buff` afterwards; `r` is what the run returns.
pub open spec fn receive_run<S, I, E>(
    log: Seq<Call<S, I, E>>,
    base: int,
    cap: nat,
    buff: Seq<u8>,
    o: BlockingOptions,
    r: Result<(usize, I), BlockingError<E>>,
) -> bool {
    &&& 0 <= base < log.len()
    &&& log[base].op == Op::<S>::StartReceive
    &&& match log[base].reply {
        Reply::Failed(e) => log.len() == base + 1 && r == Err::<(usize, I), _>(
            BlockingError::Inner(e),
        ),
        _ => {
            let k = rounds(log, base);
            &&& polled(log, base + 1, Op::CheckReceive(true), Goal::Flag, o, k)
            &&& match verdict(log, base + 1, Goal::<S>::Flag, k) {
                Progress::Finished => {
                    &&& log.len() == base + 3 + 2 * k
                    &&& log[base + 2 + 2 * k].op == Op::<S>::GetReceived(cap)
                    &&& fetched(log[base + 2 + 2 * k].reply, buff, r)
                },
                Progress::Waiting => log.len() == base + 2 + 2 * k && r == Err::<(usize, I), _>(
                    BlockingError::<E>::Timeout,
                ),
                Progress::Failed(e) => log.len() == base + 2 + 2 * k && r == Err::<(usize, I), _>(
                    BlockingError::Inner(e),
                ),
            }
        },
    }
}

/// The result of a receive run whose fetch got `reply`, the buffer holding `buff`.
pub open spec fn fetched<S, I, E>(
    reply: Reply<S, I, E>,
    buff: Seq<u8>,
    r: Result<(usize, I), BlockingError<E>>,
) -> bool {
    match reply {
        Reply::Received(bytes, info) => {
            &&& r == Ok::<(usize, I), BlockingError<E>>((bytes.len() as usize, info))
            &&& bytes.len() <= buff.len()
            &&& buff.take(bytes.len() as int) == bytes
        },
        Reply::Failed(e) => r == Err::<(usize, I), _>(BlockingError::Inner(e)),
        _ => false,
    }
}

/// The summed intervals after one more unfinished check: `None` once they exceed the
/// timeout.
pub fn next_elapsed(elapsed: u64, poll_interval: u32, timeout: u64) -> (r: Option<u64>)
    requires
        elapsed <= timeout,
    ensures
        elapsed + poll_interval > timeout ==> r is None,
        elapsed + poll_interval <= timeout ==> r == Some((elapsed + poll_interval) as u64),
{
    if poll_interval as u64 > timeout - elapsed {
        None
    } else {
        Some(elapsed + poll_interval as u64)
    }
}

/// A run of `k` unfinished checks ends `2 + 2k` calls after its start, or one call later
/// where a fetch follows the deciding check.
pub proof fn lemma_rounds<T>(log: Seq<T>, base: int, k: nat)
    requires
        log.len() == base + 2 + 2 * k || log.len() == base + 3 + 2 * k,
    ensures
        rounds(log, base) == k,
{
}

/// A poll loop that has seen `k` unfinished checks stays one after a further
/// unfinished check and its wait.
pub proof fn lemma_waited_step<S, I, E>(
    log: Seq<Call<S, I, E>>,
    base: int,
    check: Op<S>,
    goal: Goal<S>,
    p: u32,
    k: nat,
)
    requires
        waited(log, base, check, goal, p, k),
        base + 2 * k + 2 <= log.len(),
        check_at(log, base, k as int).op == check,
        progress(check_at(log, base, k as int).reply, goal) == Progress::<E>::Waiting,
        wait_at(log, base, k as int) == (Call::<S, I, E> { op: Op::DelayNs(p), reply: Reply::Done }),
    ensures
        waited(log, base, check, goal, p, k + 1),
{
}

/// A poll loop stays recorded while later calls are appended to the log.
pub proof fn lemma_waited_extends<S, I, E>(
    log: Seq<Call<S, I, E>>,
    log2: Seq<Call<S, I, E>>,
    base: int,
    check: Op<S>,
    goal: Goal<S>,
    p: u32,
    k: nat,
)
    requires
        waited(log, base, check, goal, p, k),
        extends(log, log2),
    ensures
        waited(log2, base, check, goal, p, k),
{
    assert forall|j: int| 0 <= j < k implies (#[trigger] check_at(log2, base, j)).op == check
        && progress(check_at(log2, base, j).reply, goal) == Progress::<E>::Waiting by {
        assert(check_at(log2, base, j) == check_at(log, base, j));
    }
    assert forall|j: int| 0 <= j < k implies #[trigger] wait_at(log2, base, j) == (Call::<S, I, E> {
        op: Op::DelayNs(p),
        reply: Reply::Done,
    }) by {
        assert(wait_at(log2, base, j) == wait_at(log, base, j));
    }
}

/// Blocking transmit: start sending `data`, then poll `check_transmit` until the send
/// completes, the device fails, or the timeout passes.
pub trait BlockingTransmit: Transmit + DelayNs {
    fn do_transmit(&mut self, data: &[u8], tx_options: BlockingOptions) -> (r: Result<
        (),
        BlockingError<Self::Error>,
    >)
        requires
            old(self).inv(),
            tx_options.poll_interval > 0,
        ensures
            final(self).inv(),
            final(self).follows(*old(self)),
            extends(old(self).log(), final(self).log()),
            poll_run(
                final(self).log(),
                old(self).log().len() as int,
                Op::StartTransmit(data@),
                Op::CheckTransmit,
                Goal::Flag,
                tx_options,
                r,
            ),
    ;
}

impl<T: Transmit + DelayNs> BlockingTransmit for T {
    fn do_transmit(&mut self, data: &[u8], tx_options: BlockingOptions) -> (r: Result<
        (),
        BlockingError<Self::Error>,
    >) {
        let ghost log0 = self.log();
        let ghost base = log0.len() as int;
        let p = tx_options.poll_interval;
        let t = tx_options.timeout;
        match self.start_transmit(data) {
            Ok(()) => {},
            Err(e) => {
                return Err(BlockingError::Inner(e));
            },
        }
        let mut c: u64 = 0;
        let ghost mut k: nat = 0;
        loop
            invariant
                self.inv(),
                self.follows(*old(self)),
                log0 == old(self).log(),
                base == log0.len(),
                extends(log0, self.log()),
                self.log().len() == base + 1 + 2 * k,
                self.log()[base] == (Call::<Self::State, Self::Info, Self::Error> {
                    op: Op::StartTransmit(data@),
                    reply: Reply::Done,
                }),
                waited(self.log(), base + 1, Op::CheckTransmit, Goal::Flag, p, k),
                c == k * p,
                c <= t,
                p == tx_options.poll_interval,
                t == tx_options.timeout,
                p > 0,
            decreases t - c,
        {
            let ghost before = self.log();
            let ghost st = *self;
            let done = self.check_transmit();
            proof {
                <T as Device>::lemma_follows_trans(*old(self), st, *self);
                lemma_extends_push(log0, before, self.log().last());
                assert(self.log() == before.push(self.log().last()));
                lemma_waited_extends(before, self.log(), base + 1, Op::CheckTransmit, Goal::Flag, p, k);
                assert(check_at(self.log(), base + 1, k as int) == self.log().last());
                lemma_rounds(self.log(), base, k);
                assert(self.log()[base] == before[base]);
            }
            match done {
                Err(e) => {
                    return Err(BlockingError::Inner(e));
                },
                Ok(true) => {
                    return Ok(());
                },
                Ok(false) => {},
            }
            proof {
                assert((k + 1) * p == k * p + p) by (nonlinear_arith);
            }
            match next_elapsed(c, p, t) {
                None => {
                    return Err(BlockingError::Timeout);
                },
                Some(n) => {
                    c = n;
                },
            }
            let ghost mid = self.log();
            let ghost st = *self;
            self.delay_ns(p);
            proof {
                <T as Device>::lemma_follows_trans(*old(self), st, *self);
                lemma_extends_push(log0, mid, self.log().last());
                assert(self.log() == mid.push(self.log().last()));
                assert(wait_at(self.log(), base + 1, k as int) == self.log().last());
                assert(check_at(self.log(), base + 1, k as int) == check_at(mid, base + 1, k as int));
                lemma_waited_extends(mid, self.log(), base + 1, Op::CheckTransmit, Goal::Flag, p, k);
                lemma_waited_step(self.log(), base + 1, Op::CheckTransmit, Goal::Flag, p, k);
                k = k + 1;
            }
        }
    }
}

/// Blocking receive: enter receive mode, poll `check_receive(true)` until a packet is
/// ready, the device fails, or the timeout passes, then fetch the packet into `buff`.
pub trait BlockingReceive: Receive + DelayNs {
    fn do_receive(&mut self, buff: &mut [u8], rx_options: BlockingOptions) -> (r: Result<
        (usize, Self::Info),
        BlockingError<Self::Error>,
    >)
        requires
            old(self).inv(),
            rx_options.poll_interval > 0,
        ensures
            final(self).inv(),
            final(self).follows(*old(self)),
            final(buff)@.len() == old(buff)@.len(),
            !(final(self).log().last().op is GetReceived) ==> final(buff)@ == old(buff)@,
            extends(old(self).log(), final(self).log()),
            receive_run(
                final(self).log(),
                old(self).log().len() as int,
                old(buff)@.len(),
                final(buff)@,
                rx_options,
                r,
            ),
    ;
}

impl<T: Receive + DelayNs> BlockingReceive for T {
    fn do_receive(&mut self, buff: &mut [u8], rx_options: BlockingOptions) -> (r: Result<
        (usize, Self::Info),
        BlockingError<Self::Error>,
    >) {
        let ghost log0 = self.log();
        let ghost base = log0.len() as int;
        let p = rx_options.poll_interval;
        let t = rx_options.timeout;
        match self.start_receive() {
            Ok(()) => {},
            Err(e) => {
                return Err(BlockingError::Inner(e));
            },
        }
        let mut c: u64 = 0;
        let ghost mut k: nat = 0;
        loop
            invariant
                self.inv(),
                self.follows(*old(self)),
                log0 == old(self).log(),
                base == log0.len(),
                buff@ == old(buff)@,
                extends(log0, self.log()),
                self.log().len() == base + 1 + 2 * k,
                self.log()[base] == (Call::<Self::State, Self::Info, Self::Error> {
                    op: Op::StartReceive,
                    reply: Reply::Done,
                }),
                waited(self.log(), base + 1, Op::CheckReceive(true), Goal::Flag, p, k),
                c == k * p,
                c <= t,
                p == rx_options.poll_interval,
                t == rx_options.timeout,
                p > 0,
            decreases t - c,
        {
            let ghost before = self.log();
            let ghost st = *self;
            let ready = self.check_receive(true);
            proof {
                <T as Device>::lemma_follows_trans(*old(self), st, *self);
                lemma_extends_push(log0, before, self.log().last());
                assert(self.log() == before.push(self.log().last()));
                lemma_waited_extends(before, self.log(), base + 1, Op::CheckReceive(true), Goal::Flag, p, k);
                assert(check_at(self.log(), base + 1, k as int) == self.log().last());
                assert(self.log()[base] == before[base]);
            }
            match ready {
                Err(e) => {
                    proof {
                        lemma_rounds(self.log(), base, k);
                    }
                    return Err(BlockingError::Inner(e));
                },
                Ok(true) => {
                    let ghost checked = self.log();
                    let ghost st = *self;
                    let fetched = self.get_received(buff);
                    proof {
                        <T as Device>::lemma_follows_trans(*old(self), st, *self);
                        lemma_extends_push(log0, checked, self.log().last());
                        assert(self.log() == checked.push(self.log().last()));
                        lemma_waited_extends(checked, self.log(), base + 1, Op::CheckReceive(true), Goal::Flag, p, k);
                        assert(check_at(self.log(), base + 1, k as int) == check_at(checked, base + 1, k as int));
                        assert(self.log()[base] == checked[base]);
                        lemma_rounds(self.log(), base, k);
                    }
                    return match fetched {
                        Ok((n, info)) => {
                            assert(buff@.take(n as int).len() == n);
                            Ok((n, info))
                        },
                        Err(e) => Err(BlockingError::Inner(e)),
                    };
                },
                Ok(false) => {},
            }
            proof {
                assert((k + 1) * p == k * p + p) by (nonlinear_arith);
            }
            match next_elapsed(c, p, t) {
                None => {
                    proof {
                        lemma_rounds(self.log(), base, k);
                    }
                    return Err(BlockingError::Timeout);
                },
                Some(n) => {
                    c = n;
                },
            }
            let ghost mid = self.log();
            let ghost st = *self;
            self.delay_ns(p);
            proof {
                <T as Device>::lemma_follows_trans(*old(self), st, *self);
                lemma_extends_push(log0, mid, self.log().last());
                assert(self.log() == mid.push(self.log().last()));
                assert(wait_at(self.log(), base + 1, k as int) == self.log().last());
                assert(check_at(self.log(), base + 1, k as int) == check_at(mid, base + 1, k as int));
                assert(self.log()[base] == mid[base]);
                lemma_waited_extends(mid, self.log(), base + 1, Op::CheckReceive(true), Goal::Flag, p, k);
                lemma_waited_step(self.log(), base + 1, Op::CheckReceive(true), Goal::Flag, p, k);
                k = k + 1;
            }
        }
    }
}

/// Blocking state change: request `state`, then poll `get_state` until the device
/// reports exactly that state, fails, or the timeout passes.
pub trait BlockingSetState: State + DelayNs where <Self as Device>::State: PartialEq + Copy {
    fn set_state_checked(&mut self, state: Self::State, options: BlockingOptions) -> (r: Result<
        (),
        BlockingError<Self::Error>,
    >)
        requires
            old(self).inv(),
            options.poll_interval > 0,
            <Self as Device>::State::obeys_eq_spec(),
            forall|a: <Self as Device>::State, b: <Self as Device>::State| #[trigger] a.eq_spec(&b) <==> a == b,
        ensures
            final(self).inv(),
            final(self).follows(*old(self)),
            extends(old(self).log(), final(self).log()),
            poll_run(
                final(self).log(),
                old(self).log().len() as int,
                Op::SetState(state),
                Op::GetState,
                Goal::State(state),
                options,
                r,
            ),
    ;
}

impl<T: State + DelayNs> BlockingSetState for T where <T as Device>::State: PartialEq + Copy {
    fn set_state_checked(&mut self, state: Self::State, options: BlockingOptions) -> (r: Result<
        (),
        BlockingError<Self::Error>,
    >) {
        let ghost log0 = self.log();
        let ghost base = log0.len() as int;
        let p = options.poll_interval;
        let t = options.timeout;
        match self.set_state(state) {
            Ok(()) => {},
            Err(e) => {
                return Err(BlockingError::Inner(e));
            },
        }
        let mut c: u64 = 0;
        let ghost mut k: nat = 0;
        loop
            invariant
                self.inv(),
                self.follows(*old(self)),
                log0 == old(self).log(),
                base == log0.len(),
                <Self as Device>::State::obeys_eq_spec(),
                forall|a: <Self as Device>::State, b: <Self as Device>::State| #[trigger] a.eq_spec(&b) <==> a == b,
                extends(log0, self.log()),
                self.log().len() == base + 1 + 2 * k,
                self.log()[base] == (Call::<Self::State, Self::Info, Self::Error> {
                    op: Op::SetState(state),
                    reply: Reply::Done,
                }),
                waited(self.log(), base + 1, Op::GetState, Goal::State(state), p, k),
                c == k * p,
                c <= t,
                p == options.poll_interval,
                t == options.timeout,
                p > 0,
            decreases t - c,
        {
            let ghost before = self.log();
            let ghost st = *self;
            let current = self.get_state();
            proof {
                <T as Device>::lemma_follows_trans(*old(self), st, *self);
                lemma_extends_push(log0, before, self.log().last());
                assert(self.log() == before.push(self.log().last()));
                lemma_waited_extends(before, self.log(), base + 1, Op::GetState, Goal::State(state), p, k);
                assert(check_at(self.log(), base + 1, k as int) == self.log().last());
                assert(self.log()[base] == before[base]);
                lemma_rounds(self.log(), base, k);
            }
            match current {
                Err(e) => {
                    return Err(BlockingError::Inner(e));
                },
                Ok(s) => {
                    if state == s {
                        return Ok(());
                    }
                },
            }
            proof {
                assert((k + 1) * p == k * p + p) by (nonlinear_arith);
            }
            match next_elapsed(c, p, t) {
                None => {
                    return Err(BlockingError::Timeout);
                },
                Some(n) => {
                    c = n;
                },
            }
            let ghost mid = self.log();
            let ghost st = *self;
            self.delay_ns(p);
            proof {
                <T as Device>::lemma_follows_trans(*old(self), st, *self);
                lemma_extends_push(log0, mid, self.log().last());
                assert(self.log() == mid.push(self.log().last()));
                assert(wait_at(self.log(), base + 1, k as int) == self.log().last());
                assert(check_at(self.log(), base + 1, k as int) == check_at(mid, base + 1, k as int));
                assert(self.log()[base] == mid[base]);
                lemma_waited_extends(mid, self.log(), base + 1, Op::GetState, Goal::State(state), p, k);
                lemma_waited_step(self.log(), base + 1, Op::GetState, Goal::State(state), p, k);
                k = k + 1;
            }
        }
    }
}

/// In a run whose start succeeded and whose checks report "not yet" exactly `k` times and
/// then completion, the operation succeeds if and only if `k` poll intervals fit in the
/// timeout; otherwise it times out.
pub proof fn lemma_deadline<S, I, E>(
    log: Seq<Call<S, I, E>>,
    base: int,
    start: Op<S>,
    check: Op<S>,
    goal: Goal<S>,
    o: BlockingOptions,
    r: Result<(), BlockingError<E>>,
    k: nat,
)
    requires
        poll_run(log, base, start, check, goal, o, r),
        log[base].reply == Reply::<S, I, E>::Done,
        forall|j: int|
            0 <= j <= rounds(log, base) ==> progress(
                (#[trigger] check_at(log, base + 1, j)).reply,
                goal,
            ) == (if j == k {
                Progress::<E>::Finished
            } else {
                Progress::<E>::Waiting
            }),
    ensures
        r == Ok::<(), BlockingError<E>>(()) <==> k * o.poll_interval <= o.timeout,
        r != Ok::<(), BlockingError<E>>(()) ==> r == Err::<(), _>(BlockingError::<E>::Timeout),
{
    let m = rounds(log, base);
    let p = o.poll_interval;
    assert(progress(check_at(log, base + 1, m as int).reply, goal) == (if m == k {
        Progress::<E>::Finished
    } else {
        Progress::<E>::Waiting
    }));
    if m != k {
        if k < m {
            assert(progress(check_at(log, base + 1, k as int).reply, goal) == Progress::<E>::Waiting);
        }
        assert(k >= m + 1);
        assert(k * p >= (m + 1) * p) by (nonlinear_arith)
            requires
                k >= m + 1,
        ;
    }
}

/// A blocking transmit against a device whose `check_transmit` answers `false` exactly
/// `k` times and then `true` succeeds if and only if `k * poll_interval <= timeout`, and
/// times out otherwise.
pub proof fn lemma_transmit_deadline<S, I, E>(
    log: Seq<Call<S, I, E>>,
    base: int,
    data: Seq<u8>,
    o: BlockingOptions,
    r: Result<(), BlockingError<E>>,
    k: nat,
)
    requires
        poll_run(log, base, Op::StartTransmit(data), Op::CheckTransmit, Goal::Flag, o, r),
        log[base].reply == Reply::<S, I, E>::Done,
        forall|j: int|
            0 <= j <= rounds(log, base) ==> (#[trigger] check_at(log, base + 1, j)).reply
                == Reply::<S, I, E>::Flag(j == k),
    ensures
        r == Ok::<(), BlockingError<E>>(()) <==> k * o.poll_interval <= o.timeout,
        r != Ok::<(), BlockingError<E>>(()) ==> r == Err::<(), _>(BlockingError::<E>::Timeout),
{
    assert forall|j: int| 0 <= j <= rounds(log, base) implies progress(
        (#[trigger] check_at(log, base + 1, j)).reply,
        Goal::<S>::Flag,
    ) == (if j == k {
        Progress::<E>::Finished
    } else {
        Progress::<E>::Waiting
    }) by {}
    lemma_deadline(log, base, Op::StartTransmit(data), Op::CheckTransmit, Goal::Flag, o, r, k);
}

/// A checked state change follows the same deadline rule as transmit and receive: where
/// the device reports other states exactly `k` times and then the requested one, it
/// succeeds if and only if `k * poll_interval <= timeout`, and times out otherwise.
pub proof fn lemma_set_state_deadline<S, I, E>(
    log: Seq<Call<S, I, E>>,
    base: int,
    state: S,
    o: BlockingOptions,
    r: Result<(), BlockingError<E>>,
    k: nat,
)
    requires
        poll_run(log, base, Op::SetState(state), Op::GetState, Goal::State(state), o, r),
        log[base].reply == Reply::<S, I, E>::Done,
        forall|j: int|
            0 <= j <= rounds(log, base) ==> (#[trigger] check_at(log, base + 1, j)).reply is State
                && ((check_at(log, base + 1, j).reply->State_0 == state) <==> j == k),
    ensures
        r == Ok::<(), BlockingError<E>>(()) <==> k * o.poll_interval <= o.timeout,
        r != Ok::<(), BlockingError<E>>(()) ==> r == Err::<(), _>(BlockingError::<E>::Timeout),
{
    lemma_deadline(log, base, Op::SetState(state), Op::GetState, Goal::State(state), o, r, k);
}

/// A checked state change succeeds only when the last state read is exactly the
/// requested state, and every earlier read returned another state or nothing.
pub proof fn lemma_set_state_exact<S, I, E>(
    log: Seq<Call<S, I, E>>,
    base: int,
    state: S,
    o: BlockingOptions,
    r: Result<(), BlockingError<E>>,
)
    requires
        poll_run(log, base, Op::SetState(state), Op::GetState, Goal::State(state), o, r),
        r is Ok,
    ensures
        log.last() == (Call::<S, I, E> { op: Op::GetState, reply: Reply::State(state) }),
        forall|j: int|
            0 <= j < rounds(log, base) ==> (#[trigger] check_at(log, base + 1, j)).reply
                != Reply::<S, I, E>::State(state),
{
    let m = rounds(log, base);
    assert(check_at(log, base + 1, m as int) == log.last());
    assert forall|j: int| 0 <= j < m implies (#[trigger] check_at(log, base + 1, j)).reply
        != Reply::<S, I, E>::State(state) by {
        assert(progress(check_at(log, base + 1, j).reply, Goal::State(state)) == Progress::<E>::Waiting);
    }
}

/// In a blocking receive run, every call after the start is `check_receive(true)` (the
/// restart flag never changes), a wait of one poll interval, or the fetch; the fetch
/// happens at most once, as the last call, right after a check that answered `true`.
pub proof fn lemma_receive_calls<S, I, E>(
    log: Seq<Call<S, I, E>>,
    base: int,
    cap: nat,
    buff: Seq<u8>,
    o: BlockingOptions,
    r: Result<(usize, I), BlockingError<E>>,
    i: int,
)
    requires
        receive_run(log, base, cap, buff, o, r),
        base < i < log.len(),
    ensures
        log[i].op == Op::<S>::CheckReceive(true) || log[i].op == Op::<S>::DelayNs(o.poll_interval)
            || log[i].op is GetReceived,
        log[i].op is GetReceived ==> {
            &&& i == log.len() - 1
            &&& log[i - 1].op == Op::<S>::CheckReceive(true)
            &&& log[i - 1].reply == Reply::<S, I, E>::Flag(true)
        },
{
    let m = rounds(log, base);
    let j = (i - base - 1) / 2;
    if (i - base - 1) % 2 == 0 {
        assert(i == base + 1 + 2 * j);
        assert(log[i] == check_at(log, base + 1, j));
        if j < m {
        } else {
            assert(j == m);
        }
    } else {
        assert(i == base + 1 + 2 * j + 1);
        if j < m {
            assert(log[i] == wait_at(log, base + 1, j));
        } else {
            assert(j == m);
            assert(log[i - 1] == check_at(log, base + 1, m as int));
        }
    }
}

/// A blocking run fails only as the device said: a device error is the reply to one of
/// its calls, and a timeout follows a check that had not finished.
pub proof fn lemma_run_error<S, I, E>(
    log: Seq<Call<S, I, E>>,
    base: int,
    start: Op<S>,
    check: Op<S>,
    goal: Goal<S>,
    o: BlockingOptions,
    r: Result<(), BlockingError<E>>,
)
    requires
        poll_run(log, base, start, check, goal, o, r),
    ensures
        r matches Err(BlockingError::Inner(e)) ==> exists|i: int|
            base <= i < log.len() && (#[trigger] log[i]).reply == Reply::<S, I, E>::Failed(e),
        r == Err::<(), _>(BlockingError::<E>::Timeout) ==> exists|i: int|
            base <= i < log.len() && (#[trigger] log[i]).op == check && progress(log[i].reply, goal)
                == Progress::<E>::Waiting,
{
    let k = rounds(log, base);
    if !(log[base].reply is Failed) {
        assert(log[base + 1 + 2 * k] == check_at(log, base + 1, k as int));
    }
}

/// A blocking receive fails with a device error only where the device answered one of
/// its calls with that error.
pub proof fn lemma_receive_error<S, I, E>(
    log: Seq<Call<S, I, E>>,
    base: int,
    cap: nat,
    buff: Seq<u8>,
    o: BlockingOptions,
    r: Result<(usize, I), BlockingError<E>>,
)
    requires
        receive_run(log, base, cap, buff, o, r),
    ensures
        r matches Err(BlockingError::Inner(e)) ==> exists|i: int|
            base <= i < log.len() && (#[trigger] log[i]).reply == Reply::<S, I, E>::Failed(e),
{
    let k = rounds(log, base);
    if !(log[base].reply is Failed) {
        assert(log[base + 1 + 2 * k] == check_at(log, base + 1, k as int));
        if verdict(log, base + 1, Goal::<S>::Flag, k) is Finished {
            assert(log[base + 2 + 2 * k] == log[base + 2 + 2 * k]);
        }
    }
}

/// A blocking receive against a device whose `check_receive` answers `false` exactly `k`
/// times and then `true` times out if and only if `k * poll_interval > timeout`;
/// otherwise it fetches the packet, as its last call.
pub proof fn lemma_receive_deadline<S, I, E>(
    log: Seq<Call<S, I, E>>,
    base: int,
    cap: nat,
    buff: Seq<u8>,
    o: BlockingOptions,
    r: Result<(usize, I), BlockingError<E>>,
    k: nat,
)
    requires
        receive_run(log, base, cap, buff, o, r),
        log[base].reply == Reply::<S, I, E>::Done,
        forall|j: int|
            0 <= j <= rounds(log, base) ==> (#[trigger] check_at(log, base + 1, j)).reply
                == Reply::<S, I, E>::Flag(j == k),
    ensures
        r == Err::<(usize, I), _>(BlockingError::<E>::Timeout) <==> k * o.poll_interval
            > o.timeout,
        k * o.poll_interval <= o.timeout ==> log.last().op is GetReceived,
{
    let m = rounds(log, base);
    let p = o.poll_interval;
    assert(check_at(log, base + 1, m as int).reply == Reply::<S, I, E>::Flag(m == k));
    if m != k {
        if k < m {
            assert(check_at(log, base + 1, k as int).reply == Reply::<S, I, E>::Flag(true));
        }
        assert(k >= m + 1);
        assert(k * p >= (m + 1) * p) by (nonlinear_arith)
            requires
                k >= m + 1,
        ;
    } else {
        assert(log.last() == log[base + 2 + 2 * k]);
    }
}

} // verus!
