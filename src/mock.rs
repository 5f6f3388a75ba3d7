//! Mock radio: implements every capability by consuming an ordered queue of expected
//! calls (transactions), each with a canned reply.
//!
//! Each call takes the next expectation; where the call's request and arguments equal
//! the expected ones, the canned reply is handed back. Otherwise the call fails with
//! `MockFault::Mismatch` (or `Exhausted` when nothing is left), and from then on every
//! call fails, so a driver that strays from the expected sequence is stopped at its
//! first wrong call.
use crate::{
    done_reply, flag_reply, received_reply, rssi_reply, state_reply, BasicInfo, ReceiveInfo, Busy, Call,
    Channel, DelayNs, Device, Interrupts, Op, Power, RadioState, Receive, Reply, Rssi, State,
    Transmit,
};
use crate::blocking::{
    check_at, poll_run, progress, receive_run, rounds, wait_at, BlockingError, BlockingOptions, Goal, Progress,
};
use embedded_hal_mock::common::Generic;
use vstd::prelude::*;

verus! {

#[verifier::external_type_specification]
#[verifier::external_body]
#[verifier::reject_recursive_types(T)]
pub struct ExGeneric<T: Clone + core::fmt::Debug + PartialEq>(Generic<T>);

/// The items waiting in an embedded-hal-mock `Generic` queue, front first.
pub uninterp spec fn queued(g: Generic<usize>) -> Seq<usize>;

/// Whether `done` has been called on an embedded-hal-mock `Generic` queue since its
/// expectations were last set.
pub uninterp spec fn done_called(g: Generic<usize>) -> bool;

/// Relies on `Generic::new`: the new queue holds the given items in order.
#[verifier::external_body]
fn queue_new(items: &Vec<usize>) -> (g: Generic<usize>)
    ensures
        queued(g) == items@,
        !done_called(g),
{
    Generic::new(items)
}

/// Relies on `Generic::update_expectations`: it asserts that the queue is drained, then
/// holds the given items in order.
#[verifier::external_body]
fn queue_update(g: &mut Generic<usize>, items: &Vec<usize>)
    requires
        queued(*old(g)).len() == 0,
    ensures
        queued(*final(g)) == items@,
        !done_called(*final(g)),
{
    g.update_expectations(items)
}

/// Relies on `Generic`'s `Iterator::next`: it pops the front of the queue.
#[verifier::external_body]
fn queue_next(g: &mut Generic<usize>) -> (r: Option<usize>)
    ensures
        queued(*old(g)).len() == 0 ==> r is None && queued(*final(g)) == queued(*old(g)),
        queued(*old(g)).len() > 0 ==> r == Some(queued(*old(g))[0]) && queued(*final(g))
            == queued(*old(g)).drop_first(),
        done_called(*final(g)) == done_called(*old(g)),
{
    g.next()
}

/// Relies on `Generic::done`: it asserts that the queue is drained and that `done` was
/// not called before, and marks it called.
#[verifier::external_body]
fn queue_done(g: &mut Generic<usize>)
    requires
        queued(*old(g)).len() == 0,
        !done_called(*old(g)),
    ensures
        queued(*final(g)) == queued(*old(g)),
        done_called(*final(g)),
{
    g.done()
}

/// States of the mock radio.
#[derive(Debug, Clone, Copy)]
pub enum MockState {
    Idle,
    Sleep,
    Receive,
    Receiving,
    Transmitting,
}

impl PartialEq for MockState {
    fn eq(&self, other: &MockState) -> (r: bool) {
        match (self, other) {
            (MockState::Idle, MockState::Idle) => true,
            (MockState::Sleep, MockState::Sleep) => true,
            (MockState::Receive, MockState::Receive) => true,
            (MockState::Receiving, MockState::Receiving) => true,
            (MockState::Transmitting, MockState::Transmitting) => true,
            _ => false,
        }
    }
}

impl vstd::std_specs::cmp::PartialEqSpecImpl for MockState {
    open spec fn obeys_eq_spec() -> bool {
        true
    }

    open spec fn eq_spec(&self, other: &MockState) -> bool {
        *self == *other
    }
}

impl Eq for MockState {}

impl RadioState for MockState {
    fn idle() -> Self {
        MockState::Idle
    }

    fn sleep() -> Self {
        MockState::Sleep
    }
}

/// Device error a transaction can hand back.
#[derive(Debug, Clone, Copy, PartialEq, Eq)]
pub enum MockError {
    Timeout,
}

/// Why a call on the mock failed.
#[derive(Debug, Clone, Copy, PartialEq, Eq)]
pub enum MockFault {
    /// The expectation's canned device error
    Device(MockError),
    /// The call differs from the expected one, or follows an earlier failed call
    Mismatch,
    /// No expectation was left for the call
    Exhausted,
    /// The canned packet does not fit the caller's buffer
    BufferTooSmall,
    /// Expectations were left unconsumed at the end
    Unconsumed,
}

/// What a call asks of the mock (and what an expectation expects).
pub enum Asked {
    SetState(MockState),
    GetState,
    IsBusy,
    SetRegister(u8, u8),
    GetRegister,
    GetIrq(bool),
    PollRssi,
    SetChannel(u8),
    SetPower(i8),
    StartTransmit(Seq<u8>),
    CheckTransmit,
    StartReceive,
    CheckReceive(bool),
    /// A fetch into a buffer of the given capacity (any capacity, for an expectation)
    GetReceived(nat),
    DelayNs(u32),
}

/// The canned reply of an expectation.
pub enum Canned {
    Done,
    State(MockState),
    Register(u8),
    Irq(u8),
    Rssi(i16),
    Received(Seq<u8>, BasicInfo),
    Bool(bool),
    Fail(MockError),
}

/// An expectation: the call expected, and the reply to hand back.
pub struct Expected {
    pub request: Asked,
    pub response: Canned,
}

#[derive(Debug, Clone, PartialEq)]
enum Request {
    SetState(MockState),
    GetState,
    IsBusy,
    SetRegister(u8, u8),
    GetRegister,
    GetIrq(bool),
    PollRssi,
    SetChannel(u8),
    SetPower(i8),
    StartTransmit(Vec<u8>),
    CheckTransmit,
    StartReceive,
    CheckReceive(bool),
    GetReceived,
    DelayNs(u32),
}

#[derive(Debug, Clone, PartialEq)]
enum Response {
    Done,
    State(MockState),
    Register(u8),
    Irq(u8),
    Rssi(i16),
    Received(Vec<u8>, BasicInfo),
    Bool(bool),
    Fail(MockError),
}

impl View for Request {
    type V = Asked;

    closed spec fn view(&self) -> Asked {
        match self {
            Request::SetState(s) => Asked::SetState(*s),
            Request::GetState => Asked::GetState,
            Request::IsBusy => Asked::IsBusy,
            Request::SetRegister(a, v) => Asked::SetRegister(*a, *v),
            Request::GetRegister => Asked::GetRegister,
            Request::GetIrq(c) => Asked::GetIrq(*c),
            Request::PollRssi => Asked::PollRssi,
            Request::SetChannel(c) => Asked::SetChannel(*c),
            Request::SetPower(p) => Asked::SetPower(*p),
            Request::StartTransmit(d) => Asked::StartTransmit(d@),
            Request::CheckTransmit => Asked::CheckTransmit,
            Request::StartReceive => Asked::StartReceive,
            Request::CheckReceive(r) => Asked::CheckReceive(*r),
            Request::GetReceived => Asked::GetReceived(0),
            Request::DelayNs(n) => Asked::DelayNs(*n),
        }
    }
}

impl View for Response {
    type V = Canned;

    closed spec fn view(&self) -> Canned {
        match self {
            Response::Done => Canned::Done,
            Response::State(s) => Canned::State(*s),
            Response::Register(v) => Canned::Register(*v),
            Response::Irq(q) => Canned::Irq(*q),
            Response::Rssi(v) => Canned::Rssi(*v),
            Response::Received(d, i) => Canned::Received(d@, *i),
            Response::Bool(b) => Canned::Bool(*b),
            Response::Fail(e) => Canned::Fail(*e),
        }
    }
}

/// A transaction: an expected request with its canned response.
#[derive(Debug, Clone, PartialEq)]
pub struct Transaction {
    request: Request,
    response: Response,
}

impl View for Transaction {
    type V = Expected;

    closed spec fn view(&self) -> Expected {
        Expected { request: self.request@, response: self.response@ }
    }
}

/// The canned reply for a call that expects no value back.
pub open spec fn canned_done(err: Option<MockError>) -> Canned {
    match err {
        Some(e) => Canned::Fail(e),
        None => Canned::Done,
    }
}

/// The canned reply for a check that answers a flag.
pub open spec fn canned_flag(res: Result<bool, MockError>) -> Canned {
    match res {
        Ok(b) => Canned::Bool(b),
        Err(e) => Canned::Fail(e),
    }
}

impl From<Option<MockError>> for Response {
    fn from(err: Option<MockError>) -> (r: Response) {
        match err {
            Some(e) => Response::Fail(e),
            None => Response::Done,
        }
    }
}

impl vstd::std_specs::convert::FromSpecImpl<Option<MockError>> for Response {
    closed spec fn obeys_from_spec() -> bool {
        true
    }

    closed spec fn from_spec(err: Option<MockError>) -> Response {
        match err {
            Some(e) => Response::Fail(e),
            None => Response::Done,
        }
    }
}

impl Response {
    fn flag(res: Result<bool, MockError>) -> (r: Response)
        ensures
            r@ == canned_flag(res),
    {
        match res {
            Ok(b) => Response::Bool(b),
            Err(e) => Response::Fail(e),
        }
    }
}

impl Transaction {
    /// Set the radio state
    pub fn set_state(state: MockState, err: Option<MockError>) -> (r: Self)
        ensures
            r@ == (Expected { request: Asked::SetState(state), response: canned_done(err) }),
    {
        let response = Response::from(err);
        Transaction { request: Request::SetState(state), response }
    }

    /// Get the radio state
    pub fn get_state(res: Result<MockState, MockError>) -> (r: Self)
        ensures
            r@ == (Expected { request: Asked::GetState, response: match res { Ok(s) => Canned::State(s), Err(e) => Canned::Fail(e) } }),
    {
        let response = match res { Ok(s) => Response::State(s), Err(e) => Response::Fail(e) };
        Transaction { request: Request::GetState, response }
    }

    /// Check whether the radio is currently busy
    pub fn is_busy(res: Result<bool, MockError>) -> (r: Self)
        ensures
            r@ == (Expected { request: Asked::IsBusy, response: canned_flag(res) }),
    {
        let response = Response::flag(res);
        Transaction { request: Request::IsBusy, response }
    }

    /// Set a radio register
    pub fn set_register(reg: u8, value: u8, err: Option<MockError>) -> (r: Self)
        ensures
            r@ == (Expected { request: Asked::SetRegister(reg, value), response: canned_done(err) }),
    {
        let response = Response::from(err);
        Transaction { request: Request::SetRegister(reg, value), response }
    }

    /// Get a radio register
    pub fn get_register(res: Result<u8, MockError>) -> (r: Self)
        ensures
            r@ == (Expected { request: Asked::GetRegister, response: match res { Ok(v) => Canned::Register(v), Err(e) => Canned::Fail(e) } }),
    {
        let response = match res { Ok(v) => Response::Register(v), Err(e) => Response::Fail(e) };
        Transaction { request: Request::GetRegister, response }
    }

    /// Set the radio channel
    pub fn set_channel(ch: u8, err: Option<MockError>) -> (r: Self)
        ensures
            r@ == (Expected { request: Asked::SetChannel(ch), response: canned_done(err) }),
    {
        let response = Response::from(err);
        Transaction { request: Request::SetChannel(ch), response }
    }

    /// Set the radio power
    pub fn set_power(power: i8, err: Option<MockError>) -> (r: Self)
        ensures
            r@ == (Expected { request: Asked::SetPower(power), response: canned_done(err) }),
    {
        let response = Response::from(err);
        Transaction { request: Request::SetPower(power), response }
    }

    /// Start a transmission of `data`
    pub fn start_transmit(data: Vec<u8>, err: Option<MockError>) -> (r: Self)
        ensures
            r@ == (Expected { request: Asked::StartTransmit(data@), response: canned_done(err) }),
    {
        let response = Response::from(err);
        Transaction { request: Request::StartTransmit(data), response }
    }

    /// Check for transmission completed
    pub fn check_transmit(res: Result<bool, MockError>) -> (r: Self)
        ensures
            r@ == (Expected { request: Asked::CheckTransmit, response: canned_flag(res) }),
    {
        let response = Response::flag(res);
        Transaction { request: Request::CheckTransmit, response }
    }

    /// Start reception
    pub fn start_receive(err: Option<MockError>) -> (r: Self)
        ensures
            r@ == (Expected { request: Asked::StartReceive, response: canned_done(err) }),
    {
        let response = Response::from(err);
        Transaction { request: Request::StartReceive, response }
    }

    /// Check for reception, with the expected restart flag
    pub fn check_receive(restart: bool, res: Result<bool, MockError>) -> (r: Self)
        ensures
            r@ == (Expected { request: Asked::CheckReceive(restart), response: canned_flag(res) }),
    {
        let response = Response::flag(res);
        Transaction { request: Request::CheckReceive(restart), response }
    }

    /// Fetch the received data and information
    pub fn get_received(res: Result<(Vec<u8>, BasicInfo), MockError>) -> (r: Self)
        ensures
            r@ == (Expected { request: Asked::GetReceived(0), response: match res { Ok((d, i)) => Canned::Received(d@, i), Err(e) => Canned::Fail(e) } }),
    {
        let response = match res { Ok((d, i)) => Response::Received(d, i), Err(e) => Response::Fail(e) };
        Transaction { request: Request::GetReceived, response }
    }

    /// Fetch the radio interrupts
    pub fn get_irq(clear: bool, res: Result<u8, MockError>) -> (r: Self)
        ensures
            r@ == (Expected { request: Asked::GetIrq(clear), response: match res { Ok(q) => Canned::Irq(q), Err(e) => Canned::Fail(e) } }),
    {
        let response = match res { Ok(q) => Response::Irq(q), Err(e) => Response::Fail(e) };
        Transaction { request: Request::GetIrq(clear), response }
    }

    /// Poll for RSSI
    pub fn poll_rssi(res: Result<i16, MockError>) -> (r: Self)
        ensures
            r@ == (Expected { request: Asked::PollRssi, response: match res { Ok(v) => Canned::Rssi(v), Err(e) => Canned::Fail(e) } }),
    {
        let response = match res { Ok(v) => Response::Rssi(v), Err(e) => Response::Fail(e) };
        Transaction { request: Request::PollRssi, response }
    }

    /// Delay for `ns` nanoseconds
    pub fn delay_ns(ns: u32) -> (r: Self)
        ensures
            r@ == (Expected { request: Asked::DelayNs(ns), response: Canned::Done }),
    {
        let response = Response::Done;
        Transaction { request: Request::DelayNs(ns), response }
    }
}


/// A call made on the mock: what was asked, the expectation it took (none when the queue
/// was empty or an earlier call had failed), and whether an earlier call had failed.
pub struct MockCall {
    pub asked: Asked,
    pub expected: Option<Expected>,
    pub after_fault: bool,
}

/// Whether the expected request `e` is the call `a`: the same request with equal
/// arguments (a fetch expectation fits a buffer of any capacity).
pub open spec fn expects(e: Asked, a: Asked) -> bool {
    match (e, a) {
        (Asked::GetReceived(_), Asked::GetReceived(_)) => true,
        _ => e == a,
    }
}

/// The mock's reply to the call `a` that took the expectation `t`.
pub open spec fn answer(t: Expected, a: Asked) -> Reply<MockState, BasicInfo, MockFault> {
    if !expects(t.request, a) {
        Reply::Failed(MockFault::Mismatch)
    } else {
        match (t.response, a) {
            (Canned::Fail(e), _) => Reply::Failed(MockFault::Device(e)),
            (Canned::Done, Asked::SetState(_)) => Reply::Done,
            (Canned::Done, Asked::SetChannel(_)) => Reply::Done,
            (Canned::Done, Asked::SetPower(_)) => Reply::Done,
            (Canned::Done, Asked::StartTransmit(_)) => Reply::Done,
            (Canned::Done, Asked::StartReceive) => Reply::Done,
            (Canned::Done, Asked::DelayNs(_)) => Reply::Done,
            (Canned::State(s), Asked::GetState) => Reply::State(s),
            (Canned::Bool(b), Asked::IsBusy) => Reply::Flag(b),
            (Canned::Bool(b), Asked::CheckTransmit) => Reply::Flag(b),
            (Canned::Bool(b), Asked::CheckReceive(_)) => Reply::Flag(b),
            (Canned::Rssi(v), Asked::PollRssi) => Reply::Rssi(v),
            (Canned::Irq(_), Asked::GetIrq(_)) => Reply::Done,
            (Canned::Received(d, i), Asked::GetReceived(cap)) => if d.len() <= cap {
                Reply::Received(d, i)
            } else {
                Reply::Failed(MockFault::BufferTooSmall)
            },
            _ => Reply::Failed(MockFault::Mismatch),
        }
    }
}

/// The mock's reply to a recorded call.
pub open spec fn reply_of(c: MockCall) -> Reply<MockState, BasicInfo, MockFault> {
    if c.after_fault {
        Reply::Failed(MockFault::Mismatch)
    } else {
        match c.expected {
            None => Reply::Failed(MockFault::Exhausted),
            Some(t) => answer(t, c.asked),
        }
    }
}

/// A reply that stops the mock: any failure but a canned device error.
pub open spec fn is_fault(r: Reply<MockState, BasicInfo, MockFault>) -> bool {
    r matches Reply::Failed(f) && !(f is Device)
}

pub open spec fn op_of(a: Asked) -> Op<MockState> {
    match a {
        Asked::SetState(s) => Op::SetState(s),
        Asked::GetState => Op::GetState,
        Asked::IsBusy => Op::IsBusy,
        Asked::SetRegister(_, _) => Op::Register,
        Asked::GetRegister => Op::Register,
        Asked::GetIrq(c) => Op::GetInterrupts(c),
        Asked::PollRssi => Op::PollRssi,
        Asked::SetChannel(_) => Op::SetChannel,
        Asked::SetPower(p) => Op::SetPower(p),
        Asked::StartTransmit(d) => Op::StartTransmit(d),
        Asked::CheckTransmit => Op::CheckTransmit,
        Asked::StartReceive => Op::StartReceive,
        Asked::CheckReceive(r) => Op::CheckReceive(r),
        Asked::GetReceived(cap) => Op::GetReceived(cap),
        Asked::DelayNs(n) => Op::DelayNs(n),
    }
}

/// The device log entry of a recorded call. A wait has no way to report a failure: a
/// wrong wait shows in the calls that follow it.
pub open spec fn entry(c: MockCall) -> Call<MockState, BasicInfo, MockFault> {
    Call {
        op: op_of(c.asked),
        reply: if c.asked is DelayNs {
            Reply::Done
        } else {
            reply_of(c)
        },
    }
}

/// Whether a call's result stops the mock: a failure other than a canned device error.
fn stops<T>(r: &Result<T, MockFault>) -> (b: bool)
    ensures
        b == (r matches Err(f) && !(f is Device)),
{
    match r {
        Err(MockFault::Device(_)) => false,
        Err(_) => true,
        Ok(_) => false,
    }
}

/// Copy a byte vector.
fn copy_bytes(v: &Vec<u8>) -> (r: Vec<u8>)
    ensures
        r@ == v@,
{
    let mut out: Vec<u8> = Vec::new();
    let mut i: usize = 0;
    while i < v.len()
        invariant
            0 <= i <= v@.len(),
            out@ == v@.take(i as int),
        decreases v@.len() - i,
    {
        out.push(v[i]);
        i = i + 1;
        assert(out@ =~= v@.take(i as int));
    }
    assert(v@.take(v@.len() as int) =~= v@);
    out
}

/// Whether two byte strings are equal.
fn same_bytes(a: &[u8], b: &[u8]) -> (r: bool)
    ensures
        r == (a@ == b@),
{
    if a.len() != b.len() {
        return false;
    }
    let mut i: usize = 0;
    while i < a.len()
        invariant
            0 <= i <= a@.len(),
            a@.len() == b@.len(),
            a@.take(i as int) == b@.take(i as int),
        decreases a@.len() - i,
    {
        if a[i] != b[i] {
            return false;
        }
        assert(a@.take(i + 1) =~= a@.take(i as int).push(a@[i as int]));
        assert(b@.take(i + 1) =~= b@.take(i as int).push(b@[i as int]));
        i = i + 1;
    }
    assert(a@.take(a@.len() as int) =~= a@);
    assert(b@.take(b@.len() as int) =~= b@);
    true
}

impl Transaction {
    /// A copy of this transaction.
    fn duplicate(&self) -> (r: Transaction)
        ensures
            r@ == self@,
    {
        let request = match &self.request {
            Request::SetState(s) => Request::SetState(*s),
            Request::GetState => Request::GetState,
            Request::IsBusy => Request::IsBusy,
            Request::SetRegister(a, v) => Request::SetRegister(*a, *v),
            Request::GetRegister => Request::GetRegister,
            Request::GetIrq(c) => Request::GetIrq(*c),
            Request::PollRssi => Request::PollRssi,
            Request::SetChannel(c) => Request::SetChannel(*c),
            Request::SetPower(p) => Request::SetPower(*p),
            Request::StartTransmit(d) => Request::StartTransmit(copy_bytes(d)),
            Request::CheckTransmit => Request::CheckTransmit,
            Request::StartReceive => Request::StartReceive,
            Request::CheckReceive(r) => Request::CheckReceive(*r),
            Request::GetReceived => Request::GetReceived,
            Request::DelayNs(n) => Request::DelayNs(*n),
        };
        let response = match &self.response {
            Response::Done => Response::Done,
            Response::State(s) => Response::State(*s),
            Response::Register(v) => Response::Register(*v),
            Response::Irq(q) => Response::Irq(*q),
            Response::Rssi(v) => Response::Rssi(*v),
            Response::Received(d, i) => Response::Received(copy_bytes(d), *i),
            Response::Bool(b) => Response::Bool(*b),
            Response::Fail(e) => Response::Fail(*e),
        };
        Transaction { request, response }
    }
}

/// Copies of the given transactions.
fn duplicate_all(expectations: &[Transaction]) -> (r: Vec<Transaction>)
    ensures
        r@.len() == expectations@.len(),
        forall|i: int| 0 <= i < r@.len() ==> (#[trigger] r@[i])@ == expectations@[i]@,
{
    let mut out: Vec<Transaction> = Vec::new();
    let mut i: usize = 0;
    while i < expectations.len()
        invariant
            0 <= i <= expectations@.len(),
            out@.len() == i,
            forall|j: int| 0 <= j < i ==> (#[trigger] out@[j])@ == expectations@[j]@,
        decreases expectations@.len() - i,
    {
        out.push(expectations[i].duplicate());
        i = i + 1;
    }
    out
}

/// The indices `0..n`, in order.
fn indices(n: usize) -> (r: Vec<usize>)
    ensures
        r@.len() == n,
        forall|j: int| 0 <= j < n ==> #[trigger] r@[j] == j,
{
    let mut out: Vec<usize> = Vec::new();
    let mut i: usize = 0;
    while i < n
        invariant
            0 <= i <= n,
            out@.len() == i,
            forall|j: int| 0 <= j < i ==> #[trigger] out@[j] == j,
        decreases n - i,
    {
        out.push(i);
        i = i + 1;
    }
    out
}

/// Mock radio driven by a queue of transactions. Call `done` at the end of a test: the
/// underlying embedded-hal-mock queue panics when dropped without it.
pub struct Radio {
    /// The transactions of the current expectations
    script: Vec<Transaction>,
    /// Indices into `script` of the expectations still waiting, next first
    queue: Generic<usize>,
    /// How many expectations are still waiting
    remaining: usize,
    /// Whether a call has failed other than with a canned device error
    faulted: bool,
    /// Whether `done` was called on the queue since it was last filled
    finished: bool,
    given: Ghost<Seq<Expected>>,
    taken: Ghost<Seq<Expected>>,
    calls: Ghost<Seq<MockCall>>,
}

/// The mock radio with its usual types.
pub type MockRadio = Radio;

impl Radio {
    /// The expectations still waiting, next first.
    pub closed spec fn pending(&self) -> Seq<Expected> {
        queued(self.queue).map_values(|i: usize| self.script@[i as int]@)
    }

    /// Every expectation ever set, in order.
    pub closed spec fn given(&self) -> Seq<Expected> {
        self.given@
    }

    /// The expectations consumed so far, in order.
    pub closed spec fn taken(&self) -> Seq<Expected> {
        self.taken@
    }

    /// Every call made on the mock, in order.
    pub closed spec fn calls(&self) -> Seq<MockCall> {
        self.calls@
    }

    /// Whether a call has failed other than with a canned device error.
    pub closed spec fn faulted(&self) -> bool {
        self.faulted
    }

    closed spec fn wf_queue(&self) -> bool {
        &&& forall|j: int|
            0 <= j < queued(self.queue).len() ==> #[trigger] queued(self.queue)[j]
                < self.script@.len()
        &&& self.remaining == queued(self.queue).len()
        &&& self.finished == done_called(self.queue)
        &&& self.taken@ + self.pending() == self.given@
    }

    closed spec fn wf_later(&self) -> bool {
        forall|i: int, j: int|
            0 <= i < j < self.calls@.len() && is_fault(reply_of(#[trigger] self.calls@[i]))
                ==> (#[trigger] self.calls@[j]).after_fault
    }

    closed spec fn wf_flag(&self) -> bool {
        forall|i: int|
            0 <= i < self.calls@.len() && is_fault(reply_of(#[trigger] self.calls@[i]))
                ==> self.faulted
    }

    /// The mock's consistency condition.
    pub closed spec fn wf(&self) -> bool {
        &&& self.wf_queue()
        &&& self.wf_later()
        &&& self.wf_flag()
    }
}


/// The interrupt flags a recorded call handed out, if it handed out any.
pub open spec fn irq_of(c: MockCall) -> Option<u8> {
    if c.after_fault {
        None
    } else {
        match c.expected {
            Some(t) => if c.asked is GetIrq && expects(t.request, c.asked) {
                match t.response {
                    Canned::Irq(q) => Some(q),
                    _ => None,
                }
            } else {
                None
            },
            None => None,
        }
    }
}

/// The interrupt flags handed out by a sequence of mock calls, in order.
pub open spec fn irqs_of(calls: Seq<MockCall>) -> Seq<u8>
    decreases calls.len(),
{
    if calls.len() == 0 {
        Seq::empty()
    } else {
        irqs_of(calls.drop_last()) + match irq_of(calls.last()) {
            Some(q) => seq![q],
            None => Seq::empty(),
        }
    }
}

/// The channels asked for by a sequence of mock calls, in order.
pub open spec fn channels_of(calls: Seq<MockCall>) -> Seq<u8>
    decreases calls.len(),
{
    if calls.len() == 0 {
        Seq::empty()
    } else {
        channels_of(calls.drop_last()) + match calls.last().asked {
            Asked::SetChannel(ch) => seq![ch],
            _ => Seq::empty(),
        }
    }
}

/// The device log of a sequence of mock calls.
pub open spec fn log_of(calls: Seq<MockCall>) -> Seq<Call<MockState, BasicInfo, MockFault>> {
    calls.map_values(|c: MockCall| entry(c))
}

proof fn lemma_log_push(calls: Seq<MockCall>, c: MockCall)
    ensures
        log_of(calls.push(c)) == log_of(calls).push(entry(c)),
{
    assert(log_of(calls.push(c)) =~= log_of(calls).push(entry(c)));
}

/// The call record of a call `a` made on a mock in the state `m`.
pub open spec fn next_call(m: Radio, a: Asked) -> MockCall {
    MockCall {
        asked: a,
        expected: if m.faulted() || m.pending().len() == 0 {
            None
        } else {
            Some(m.pending()[0])
        },
        after_fault: m.faulted(),
    }
}

/// The mock `after` is the mock `before` once it has answered the call `a`: the call is
/// recorded with the expectation it took, that expectation (if any) has moved from the
/// waiting ones to the consumed ones, and the mock has stopped where the reply is a fault.
pub open spec fn answered(before: Radio, after: Radio, a: Asked) -> bool {
    let c = next_call(before, a);
    &&& after.calls() == before.calls().push(c)
    &&& after.given() == before.given()
    &&& if c.expected is Some {
        &&& after.pending() == before.pending().drop_first()
        &&& after.taken() == before.taken().push(before.pending()[0])
    } else {
        &&& after.pending() == before.pending()
        &&& after.taken() == before.taken()
    }
    &&& after.faulted() == (before.faulted() || is_fault(reply_of(c)))
}

/// The requests of a sequence of recorded calls.
pub open spec fn asks_of(calls: Seq<MockCall>) -> Seq<Asked> {
    calls.map_values(|c: MockCall| c.asked)
}

/// A mock's calls and queue after answering a sequence of requests.
pub struct Replayed {
    pub calls: Seq<MockCall>,
    pub pending: Seq<Expected>,
    pub faulted: bool,
}

/// Answering the requests `asks` in turn, from a mock whose waiting expectations are
/// `pending` and which has (or has not) stopped: each takes the first waiting
/// expectation unless the mock has stopped or none is left.
pub open spec fn replay(pending: Seq<Expected>, faulted: bool, asks: Seq<Asked>) -> Replayed
    decreases asks.len(),
{
    if asks.len() == 0 {
        Replayed { calls: Seq::empty(), pending, faulted }
    } else {
        let prev = replay(pending, faulted, asks.drop_last());
        let c = MockCall {
            asked: asks.last(),
            expected: if prev.faulted || prev.pending.len() == 0 {
                None
            } else {
                Some(prev.pending[0])
            },
            after_fault: prev.faulted,
        };
        Replayed {
            calls: prev.calls.push(c),
            pending: if c.expected is Some {
                prev.pending.drop_first()
            } else {
                prev.pending
            },
            faulted: prev.faulted || is_fault(reply_of(c)),
        }
    }
}

/// Replaying records one call per request, with that request.
pub proof fn lemma_replay_asks(pending: Seq<Expected>, faulted: bool, asks: Seq<Asked>)
    ensures
        replay(pending, faulted, asks).calls.len() == asks.len(),
        asks_of(replay(pending, faulted, asks).calls) == asks,
    decreases asks.len(),
{
    if asks.len() > 0 {
        lemma_replay_asks(pending, faulted, asks.drop_last());
        let prev = replay(pending, faulted, asks.drop_last());
        let r = replay(pending, faulted, asks);
        assert(asks_of(r.calls) =~= asks_of(prev.calls).push(asks.last()));
        assert(asks =~= asks.drop_last().push(asks.last()));
    }
}

/// Replaying two sequences of requests one after the other is replaying both at once.
pub proof fn lemma_replay_append(
    pending: Seq<Expected>,
    faulted: bool,
    a1: Seq<Asked>,
    a2: Seq<Asked>,
)
    ensures
        ({
            let r1 = replay(pending, faulted, a1);
            let r2 = replay(r1.pending, r1.faulted, a2);
            replay(pending, faulted, a1 + a2) == (Replayed {
                calls: r1.calls + r2.calls,
                pending: r2.pending,
                faulted: r2.faulted,
            })
        }),
    decreases a2.len(),
{
    let r1 = replay(pending, faulted, a1);
    if a2.len() == 0 {
        assert(a1 + a2 =~= a1);
        assert(r1.calls + Seq::<MockCall>::empty() =~= r1.calls);
    } else {
        lemma_replay_append(pending, faulted, a1, a2.drop_last());
        assert((a1 + a2).drop_last() =~= a1 + a2.drop_last());
        assert((a1 + a2).last() == a2.last());
        let r2p = replay(r1.pending, r1.faulted, a2.drop_last());
        let r2 = replay(r1.pending, r1.faulted, a2);
        assert(r2.calls == r2p.calls.push(r2.calls.last()));
        assert((r1.calls + r2p.calls).push(r2.calls.last()) =~= r1.calls + r2.calls);
    }
}

/// A mock that answered the call `a` follows its earlier self.
pub proof fn lemma_answered_follows(before: Radio, after: Radio, a: Asked)
    requires
        answered(before, after, a),
    ensures
        after.follows(before),
{
    let n = before.calls().len();
    let c = next_call(before, a);
    assert(after.calls().skip(n as int) =~= seq![c]);
    assert(asks_of(seq![c]) =~= seq![a]);
    assert(seq![a].drop_last() =~= Seq::<Asked>::empty());
    let r = replay(before.pending(), before.faulted(), seq![a]);
    let r0 = replay(before.pending(), before.faulted(), Seq::<Asked>::empty());
    assert(replay(before.pending(), before.faulted(), seq![a].drop_last()) == r0);
    assert(seq![a].last() == a);
    assert(r0.calls =~= Seq::<MockCall>::empty());
    assert(r.calls =~= seq![c]);
    assert(after.calls() =~= before.calls() + r.calls);
}

impl Device for Radio {
    type Error = MockFault;
    type State = MockState;
    type Info = BasicInfo;

    open spec fn log(&self) -> Seq<Call<MockState, BasicInfo, MockFault>> {
        log_of(self.calls())
    }

    open spec fn inv(&self) -> bool {
        self.wf()
    }

    /// Since `earlier`, the mock has only answered calls, each from its queue in turn.
    open spec fn follows(&self, earlier: Radio) -> bool {
        let n = earlier.calls().len();
        let r = replay(earlier.pending(), earlier.faulted(), asks_of(self.calls().skip(n as int)));
        &&& n <= self.calls().len()
        &&& self.calls() == earlier.calls() + r.calls
        &&& self.pending() == r.pending
        &&& self.faulted() == r.faulted
        &&& self.given() == earlier.given()
    }

    proof fn lemma_follows_refl(a: Radio) {
        let n = a.calls().len();
        assert(a.calls().skip(n as int) =~= Seq::<MockCall>::empty());
        assert(asks_of(Seq::<MockCall>::empty()) =~= Seq::<Asked>::empty());
        assert(a.calls() + Seq::<MockCall>::empty() =~= a.calls());
    }

    proof fn lemma_follows_trans(a: Radio, b: Radio, c: Radio) {
        let na = a.calls().len();
        let nb = b.calls().len();
        let ab = asks_of(b.calls().skip(na as int));
        let bc = asks_of(c.calls().skip(nb as int));
        let r1 = replay(a.pending(), a.faulted(), ab);
        let r2 = replay(b.pending(), b.faulted(), bc);
        lemma_replay_append(a.pending(), a.faulted(), ab, bc);
        assert(c.calls().skip(na as int) =~= b.calls().skip(na as int) + c.calls().skip(nb as int));
        assert(asks_of(c.calls().skip(na as int)) =~= ab + bc);
        assert(c.calls() =~= a.calls() + (r1.calls + r2.calls));
    }
}

impl Radio {
    /// A mock that expects the given transactions, in order.
    pub fn new(expectations: &[Transaction]) -> (r: Self)
        ensures
            r.wf(),
            r.pending() == expectations@.map_values(|t: Transaction| t@),
            r.given() == r.pending(),
            r.taken() == Seq::<Expected>::empty(),
            r.calls() == Seq::<MockCall>::empty(),
            !r.faulted(),
    {
        let script = duplicate_all(expectations);
        let idx = indices(script.len());
        let queue = queue_new(&idx);
        let ghost all = expectations@.map_values(|t: Transaction| t@);
        let r = Radio {
            script,
            queue,
            remaining: idx.len(),
            faulted: false,
            finished: false,
            given: Ghost(all),
            taken: Ghost(Seq::empty()),
            calls: Ghost(Seq::empty()),
        };
        proof {
            assert(r.pending() =~= all);
            assert(r.taken@ + r.pending() =~= r.given@);
        }
        r
    }

    /// Take the expectation that answers the next call `asked`, and record the call.
    fn take(&mut self, asked: Ghost<Asked>) -> (r: Option<usize>)
        requires
            old(self).wf(),
        ensures
            final(self).wf_queue(),
            final(self).wf_later(),
            forall|i: int|
                0 <= i < old(self).calls@.len() && is_fault(reply_of(#[trigger] final(self).calls@[i]))
                    ==> final(self).faulted,
            final(self).script@ == old(self).script@,
            final(self).faulted == old(self).faulted,
            final(self).given@ == old(self).given@,
            final(self).calls@ == old(self).calls@.push(next_call(*old(self), asked@)),
            r is Some <==> !old(self).faulted && old(self).pending().len() > 0,
            r matches Some(i) ==> i < final(self).script@.len() && final(self).script@[i as int]@
                == old(self).pending()[0],
            r is Some ==> final(self).pending() == old(self).pending().drop_first()
                && final(self).taken@ == old(self).taken@.push(old(self).pending()[0]),
            r is None ==> final(self).pending() == old(self).pending() && final(self).taken@
                == old(self).taken@,
    {
        let ghost c = next_call(*self, asked@);
        let ghost calls0 = self.calls@;
        if self.faulted {
            self.calls = Ghost(self.calls@.push(c));
            proof {
                assert forall|i: int, j: int|
                    0 <= i < j < self.calls@.len() && is_fault(reply_of(#[trigger] self.calls@[i]))
                        implies (#[trigger] self.calls@[j]).after_fault by {
                    if j < calls0.len() {
                        assert(self.calls@[i] == calls0[i]);
                        assert(self.calls@[j] == calls0[j]);
                    }
                }
            }
            return None;
        }
        let ghost pending0 = self.pending();
        let ghost queued0 = queued(self.queue);
        let slot = queue_next(&mut self.queue);
        match slot {
            None => {},
            Some(i) => {
                self.remaining = self.remaining - 1;
                self.taken = Ghost(self.taken@.push(pending0[0]));
                proof {
                    assert(queued0[0] < self.script@.len());
                    assert(self.pending() =~= pending0.drop_first());
                    assert(self.taken@ + self.pending() =~= self.given@);
                }
            },
        }
        self.calls = Ghost(self.calls@.push(c));
        proof {
            assert forall|i: int, j: int|
                0 <= i < j < self.calls@.len() && is_fault(reply_of(#[trigger] self.calls@[i]))
                    implies (#[trigger] self.calls@[j]).after_fault by {
                assert(self.calls@[i] == calls0[i]);
                if j < calls0.len() {
                    assert(self.calls@[j] == calls0[j]);
                }
            }
            assert forall|i: int|
                0 <= i < calls0.len() && is_fault(reply_of(#[trigger] self.calls@[i])) implies self.faulted by {
                assert(self.calls@[i] == calls0[i]);
            }
        }
        slot
    }

    /// Stop the mock where the last call failed other than with a canned device error.
    fn conclude(&mut self, fault: bool)
        requires
            old(self).wf_queue(),
            old(self).wf_later(),
            old(self).calls@.len() > 0,
            forall|i: int|
                0 <= i < old(self).calls@.len() - 1 && is_fault(reply_of(#[trigger] old(self).calls@[i]))
                    ==> old(self).faulted,
            fault == is_fault(reply_of(old(self).calls@.last())),
        ensures
            final(self).wf(),
            final(self).calls@ == old(self).calls@,
            final(self).script@ == old(self).script@,
            final(self).given@ == old(self).given@,
            final(self).taken@ == old(self).taken@,
            final(self).pending() == old(self).pending(),
            final(self).faulted == (old(self).faulted || fault),
    {
        if fault {
            self.faulted = true;
        }
    }
}

impl Transmit for Radio {
    fn start_transmit(&mut self, data: &[u8]) -> (r: Result<(), MockFault>)
        ensures
            answered(*old(self), *final(self), Asked::StartTransmit(data@)),
            done_reply::<MockState, BasicInfo, MockFault>(r) == reply_of(next_call(*old(self), Asked::StartTransmit(data@))),
    {
        let ghost calls0 = self.calls@;
        let ghost s0 = *self;
        let ghost a = Asked::StartTransmit(data@);
        let was = self.faulted;
        let slot = self.take(Ghost(a));
        let r: Result<(), MockFault> = match slot {
            None => Err(
                if was {
                    MockFault::Mismatch
                } else {
                    MockFault::Exhausted
                },
            ),
            Some(i) => match &self.script[i].request {
                Request::StartTransmit(expected) => {
                    if same_bytes(expected.as_slice(), data) {
                        match &self.script[i].response {
                            Response::Done => Ok(()),
                            Response::Fail(e) => Err(MockFault::Device(*e)),
                            _ => Err(MockFault::Mismatch),
                        }
                    } else {
                        Err(MockFault::Mismatch)
                    }
                },
                _ => Err(MockFault::Mismatch),
            },
        };
        let fault = stops(&r);
        proof {
            assert(done_reply::<MockState, BasicInfo, MockFault>(r) == reply_of(self.calls@.last()));
        }
        self.conclude(fault);
        proof {
            lemma_log_push(calls0, self.calls@.last());
        }
        proof {
            lemma_answered_follows(s0, *self, a);
        }
        r
    }

    fn check_transmit(&mut self) -> (r: Result<bool, MockFault>)
        ensures
            answered(*old(self), *final(self), Asked::CheckTransmit),
            flag_reply::<MockState, BasicInfo, MockFault>(r) == reply_of(next_call(*old(self), Asked::CheckTransmit)),
    {
        let ghost calls0 = self.calls@;
        let ghost s0 = *self;
        let ghost a = Asked::CheckTransmit;
        let was = self.faulted;
        let slot = self.take(Ghost(a));
        let r: Result<bool, MockFault> = match slot {
            None => Err(
                if was {
                    MockFault::Mismatch
                } else {
                    MockFault::Exhausted
                },
            ),
            Some(i) => match &self.script[i].request {
                Request::CheckTransmit => match &self.script[i].response {
                    Response::Bool(b) => Ok(*b),
                    Response::Fail(e) => Err(MockFault::Device(*e)),
                    _ => Err(MockFault::Mismatch),
                },
                _ => Err(MockFault::Mismatch),
            },
        };
        let fault = stops(&r);
        proof {
            assert(flag_reply::<MockState, BasicInfo, MockFault>(r) == reply_of(self.calls@.last()));
        }
        self.conclude(fault);
        proof {
            lemma_log_push(calls0, self.calls@.last());
        }
        proof {
            lemma_answered_follows(s0, *self, a);
        }
        r
    }
}

impl Receive for Radio {
    fn start_receive(&mut self) -> (r: Result<(), MockFault>)
        ensures
            answered(*old(self), *final(self), Asked::StartReceive),
            done_reply::<MockState, BasicInfo, MockFault>(r) == reply_of(next_call(*old(self), Asked::StartReceive)),
    {
        let ghost calls0 = self.calls@;
        let ghost s0 = *self;
        let ghost a = Asked::StartReceive;
        let was = self.faulted;
        let slot = self.take(Ghost(a));
        let r: Result<(), MockFault> = match slot {
            None => Err(
                if was {
                    MockFault::Mismatch
                } else {
                    MockFault::Exhausted
                },
            ),
            Some(i) => match &self.script[i].request {
                Request::StartReceive => match &self.script[i].response {
                        Response::Done => Ok(()),
                        Response::Fail(e) => Err(MockFault::Device(*e)),
                    _ => Err(MockFault::Mismatch),
                },
                _ => Err(MockFault::Mismatch),
            },
        };
        let fault = stops(&r);
        proof {
            assert(done_reply::<MockState, BasicInfo, MockFault>(r) == reply_of(self.calls@.last()));
        }
        self.conclude(fault);
        proof {
            lemma_log_push(calls0, self.calls@.last());
        }
        proof {
            lemma_answered_follows(s0, *self, a);
        }
        r
    }

    fn check_receive(&mut self, restart: bool) -> (r: Result<bool, MockFault>)
        ensures
            answered(*old(self), *final(self), Asked::CheckReceive(restart)),
            flag_reply::<MockState, BasicInfo, MockFault>(r) == reply_of(next_call(*old(self), Asked::CheckReceive(restart))),
    {
        let ghost calls0 = self.calls@;
        let ghost s0 = *self;
        let ghost a = Asked::CheckReceive(restart);
        let was = self.faulted;
        let slot = self.take(Ghost(a));
        let r: Result<bool, MockFault> = match slot {
            None => Err(
                if was {
                    MockFault::Mismatch
                } else {
                    MockFault::Exhausted
                },
            ),
            Some(i) => match &self.script[i].request {
                Request::CheckReceive(expected) => {
                    if *expected == restart {
                            match &self.script[i].response {
                            Response::Bool(b) => Ok(*b),
                            Response::Fail(e) => Err(MockFault::Device(*e)),
                                _ => Err(MockFault::Mismatch),
                            }
                    } else {
                            Err(MockFault::Mismatch)
                    }
                },
                _ => Err(MockFault::Mismatch),
            },
        };
        let fault = stops(&r);
        proof {
            assert(flag_reply::<MockState, BasicInfo, MockFault>(r) == reply_of(self.calls@.last()));
        }
        self.conclude(fault);
        proof {
            lemma_log_push(calls0, self.calls@.last());
        }
        proof {
            lemma_answered_follows(s0, *self, a);
        }
        r
    }

    fn get_received(&mut self, buff: &mut [u8]) -> (r: Result<(usize, BasicInfo), MockFault>)
        ensures
            answered(*old(self), *final(self), Asked::GetReceived(old(buff)@.len())),
            received_reply::<MockState, BasicInfo, MockFault>(r, final(buff)@) == reply_of(next_call(*old(self), Asked::GetReceived(old(buff)@.len()))),
            r matches Ok((n, _)) ==> final(buff)@.skip(n as int) == old(buff)@.skip(n as int),
            r is Err ==> final(buff)@ == old(buff)@,
    {
        let ghost calls0 = self.calls@;
        let ghost s0 = *self;
        let ghost a = Asked::GetReceived(buff@.len());
        let was = self.faulted;
        let slot = self.take(Ghost(a));
        let r: Result<(usize, BasicInfo), MockFault> = match slot {
            None => Err(
                if was {
                    MockFault::Mismatch
                } else {
                    MockFault::Exhausted
                },
            ),
            Some(i) => match &self.script[i].request {
                Request::GetReceived => match &self.script[i].response {
                    Response::Received(d, info) => {
                        if d.len() <= buff.len() {
                            copy_into(buff, d);
                            Ok((d.len(), *info))
                        } else {
                            Err(MockFault::BufferTooSmall)
                        }
                    },
                    Response::Fail(e) => Err(MockFault::Device(*e)),
                    _ => Err(MockFault::Mismatch),
                },
                _ => Err(MockFault::Mismatch),
            },
        };
        let fault = stops(&r);
        proof {
            assert(received_reply::<MockState, BasicInfo, MockFault>(r, buff@) == reply_of(
                self.calls@.last(),
            ));
        }
        self.conclude(fault);
        proof {
            lemma_log_push(calls0, self.calls@.last());
        }
        proof {
            lemma_answered_follows(s0, *self, a);
        }
        r
    }
}

impl State for Radio {
    fn set_state(&mut self, state: MockState) -> (r: Result<(), MockFault>)
        ensures
            answered(*old(self), *final(self), Asked::SetState(state)),
            done_reply::<MockState, BasicInfo, MockFault>(r) == reply_of(next_call(*old(self), Asked::SetState(state))),
    {
        let ghost calls0 = self.calls@;
        let ghost s0 = *self;
        let ghost a = Asked::SetState(state);
        let was = self.faulted;
        let slot = self.take(Ghost(a));
        let r: Result<(), MockFault> = match slot {
            None => Err(
                if was {
                    MockFault::Mismatch
                } else {
                    MockFault::Exhausted
                },
            ),
            Some(i) => match &self.script[i].request {
                Request::SetState(expected) => {
                    if *expected == state {
                            match &self.script[i].response {
                            Response::Done => Ok(()),
                            Response::Fail(e) => Err(MockFault::Device(*e)),
                                _ => Err(MockFault::Mismatch),
                            }
                    } else {
                            Err(MockFault::Mismatch)
                    }
                },
                _ => Err(MockFault::Mismatch),
            },
        };
        let fault = stops(&r);
        proof {
            assert(done_reply::<MockState, BasicInfo, MockFault>(r) == reply_of(self.calls@.last()));
        }
        self.conclude(fault);
        proof {
            lemma_log_push(calls0, self.calls@.last());
        }
        proof {
            lemma_answered_follows(s0, *self, a);
        }
        r
    }

    fn get_state(&mut self) -> (r: Result<MockState, MockFault>)
        ensures
            answered(*old(self), *final(self), Asked::GetState),
            state_reply::<MockState, BasicInfo, MockFault>(r) == reply_of(next_call(*old(self), Asked::GetState)),
    {
        let ghost calls0 = self.calls@;
        let ghost s0 = *self;
        let ghost a = Asked::GetState;
        let was = self.faulted;
        let slot = self.take(Ghost(a));
        let r: Result<MockState, MockFault> = match slot {
            None => Err(
                if was {
                    MockFault::Mismatch
                } else {
                    MockFault::Exhausted
                },
            ),
            Some(i) => match &self.script[i].request {
                Request::GetState => match &self.script[i].response {
                        Response::State(s) => Ok(*s),
                        Response::Fail(e) => Err(MockFault::Device(*e)),
                    _ => Err(MockFault::Mismatch),
                },
                _ => Err(MockFault::Mismatch),
            },
        };
        let fault = stops(&r);
        proof {
            assert(state_reply::<MockState, BasicInfo, MockFault>(r) == reply_of(self.calls@.last()));
        }
        self.conclude(fault);
        proof {
            lemma_log_push(calls0, self.calls@.last());
        }
        proof {
            lemma_answered_follows(s0, *self, a);
        }
        r
    }
}

impl Busy for Radio {
    fn is_busy(&mut self) -> (r: Result<bool, MockFault>)
        ensures
            answered(*old(self), *final(self), Asked::IsBusy),
            flag_reply::<MockState, BasicInfo, MockFault>(r) == reply_of(next_call(*old(self), Asked::IsBusy)),
    {
        let ghost calls0 = self.calls@;
        let ghost s0 = *self;
        let ghost a = Asked::IsBusy;
        let was = self.faulted;
        let slot = self.take(Ghost(a));
        let r: Result<bool, MockFault> = match slot {
            None => Err(
                if was {
                    MockFault::Mismatch
                } else {
                    MockFault::Exhausted
                },
            ),
            Some(i) => match &self.script[i].request {
                Request::IsBusy => match &self.script[i].response {
                        Response::Bool(b) => Ok(*b),
                        Response::Fail(e) => Err(MockFault::Device(*e)),
                    _ => Err(MockFault::Mismatch),
                },
                _ => Err(MockFault::Mismatch),
            },
        };
        let fault = stops(&r);
        proof {
            assert(flag_reply::<MockState, BasicInfo, MockFault>(r) == reply_of(self.calls@.last()));
        }
        self.conclude(fault);
        proof {
            lemma_log_push(calls0, self.calls@.last());
        }
        proof {
            lemma_answered_follows(s0, *self, a);
        }
        r
    }
}

impl Channel for Radio {
    type Channel = u8;

    open spec fn channel_log(&self) -> Seq<u8> {
        channels_of(self.calls())
    }

    fn set_channel(&mut self, channel: &u8) -> (r: Result<(), MockFault>)
        ensures
            answered(*old(self), *final(self), Asked::SetChannel(*channel)),
            done_reply::<MockState, BasicInfo, MockFault>(r) == reply_of(next_call(*old(self), Asked::SetChannel(*channel))),
    {
        let ghost calls0 = self.calls@;
        let ghost s0 = *self;
        let ghost a = Asked::SetChannel(*channel);
        let was = self.faulted;
        let slot = self.take(Ghost(a));
        let r: Result<(), MockFault> = match slot {
            None => Err(
                if was {
                    MockFault::Mismatch
                } else {
                    MockFault::Exhausted
                },
            ),
            Some(i) => match &self.script[i].request {
                Request::SetChannel(expected) => {
                    if *expected == *channel {
                            match &self.script[i].response {
                            Response::Done => Ok(()),
                            Response::Fail(e) => Err(MockFault::Device(*e)),
                                _ => Err(MockFault::Mismatch),
                            }
                    } else {
                            Err(MockFault::Mismatch)
                    }
                },
                _ => Err(MockFault::Mismatch),
            },
        };
        let fault = stops(&r);
        proof {
            assert(done_reply::<MockState, BasicInfo, MockFault>(r) == reply_of(self.calls@.last()));
        }
        self.conclude(fault);
        proof {
            lemma_log_push(calls0, self.calls@.last());
            assert(self.calls@.drop_last() == calls0);
            assert(channels_of(self.calls@) =~= channels_of(calls0).push(*channel));
        }
        proof {
            lemma_answered_follows(s0, *self, a);
        }
        r
    }
}

impl Power for Radio {
    fn set_power(&mut self, power: i8) -> (r: Result<(), MockFault>)
        ensures
            answered(*old(self), *final(self), Asked::SetPower(power)),
            done_reply::<MockState, BasicInfo, MockFault>(r) == reply_of(next_call(*old(self), Asked::SetPower(power))),
    {
        let ghost calls0 = self.calls@;
        let ghost s0 = *self;
        let ghost a = Asked::SetPower(power);
        let was = self.faulted;
        let slot = self.take(Ghost(a));
        let r: Result<(), MockFault> = match slot {
            None => Err(
                if was {
                    MockFault::Mismatch
                } else {
                    MockFault::Exhausted
                },
            ),
            Some(i) => match &self.script[i].request {
                Request::SetPower(expected) => {
                    if *expected == power {
                            match &self.script[i].response {
                            Response::Done => Ok(()),
                            Response::Fail(e) => Err(MockFault::Device(*e)),
                                _ => Err(MockFault::Mismatch),
                            }
                    } else {
                            Err(MockFault::Mismatch)
                    }
                },
                _ => Err(MockFault::Mismatch),
            },
        };
        let fault = stops(&r);
        proof {
            assert(done_reply::<MockState, BasicInfo, MockFault>(r) == reply_of(self.calls@.last()));
        }
        self.conclude(fault);
        proof {
            lemma_log_push(calls0, self.calls@.last());
        }
        proof {
            lemma_answered_follows(s0, *self, a);
        }
        r
    }
}

impl Rssi for Radio {
    fn poll_rssi(&mut self) -> (r: Result<i16, MockFault>)
        ensures
            answered(*old(self), *final(self), Asked::PollRssi),
            rssi_reply::<MockState, BasicInfo, MockFault>(r) == reply_of(next_call(*old(self), Asked::PollRssi)),
    {
        let ghost calls0 = self.calls@;
        let ghost s0 = *self;
        let ghost a = Asked::PollRssi;
        let was = self.faulted;
        let slot = self.take(Ghost(a));
        let r: Result<i16, MockFault> = match slot {
            None => Err(
                if was {
                    MockFault::Mismatch
                } else {
                    MockFault::Exhausted
                },
            ),
            Some(i) => match &self.script[i].request {
                Request::PollRssi => match &self.script[i].response {
                        Response::Rssi(v) => Ok(*v),
                        Response::Fail(e) => Err(MockFault::Device(*e)),
                    _ => Err(MockFault::Mismatch),
                },
                _ => Err(MockFault::Mismatch),
            },
        };
        let fault = stops(&r);
        proof {
            assert(rssi_reply::<MockState, BasicInfo, MockFault>(r) == reply_of(self.calls@.last()));
        }
        self.conclude(fault);
        proof {
            lemma_log_push(calls0, self.calls@.last());
        }
        proof {
            lemma_answered_follows(s0, *self, a);
        }
        r
    }
}

impl Interrupts for Radio {
    type Irq = u8;

    open spec fn irq_log(&self) -> Seq<u8> {
        irqs_of(self.calls())
    }

    fn get_interrupts(&mut self, clear: bool) -> (r: Result<u8, MockFault>)
        ensures
            answered(*old(self), *final(self), Asked::GetIrq(clear)),
            (match r {
                Ok(_) => Reply::<MockState, BasicInfo, MockFault>::Done,
                Err(e) => Reply::Failed(e),
            }) == reply_of(next_call(*old(self), Asked::GetIrq(clear))),
            r matches Ok(q) ==> irq_of(next_call(*old(self), Asked::GetIrq(clear))) == Some(q),
    {
        let ghost calls0 = self.calls@;
        let ghost s0 = *self;
        let ghost a = Asked::GetIrq(clear);
        let was = self.faulted;
        let slot = self.take(Ghost(a));
        let r: Result<u8, MockFault> = match slot {
            None => Err(
                if was {
                    MockFault::Mismatch
                } else {
                    MockFault::Exhausted
                },
            ),
            Some(i) => match &self.script[i].request {
                Request::GetIrq(expected) => {
                    if *expected == clear {
                            match &self.script[i].response {
                            Response::Irq(q) => Ok(*q),
                            Response::Fail(e) => Err(MockFault::Device(*e)),
                                _ => Err(MockFault::Mismatch),
                            }
                    } else {
                            Err(MockFault::Mismatch)
                    }
                },
                _ => Err(MockFault::Mismatch),
            },
        };
        let fault = stops(&r);
        proof {
            assert((match r {
                Ok(_) => Reply::<MockState, BasicInfo, MockFault>::Done,
                Err(e) => Reply::Failed(e),
            }) == reply_of(self.calls@.last()));
            assert(self.calls@.drop_last() == calls0);
            assert(r matches Ok(q) ==> irq_of(self.calls@.last()) == Some(q));
            assert(r is Err ==> irq_of(self.calls@.last()) is None);
        }
        self.conclude(fault);
        proof {
            lemma_log_push(calls0, self.calls@.last());
            let q = irq_of(self.calls@.last());
            assert(irqs_of(self.calls@) == irqs_of(calls0) + match q {
                Some(v) => seq![v],
                None => Seq::<u8>::empty(),
            });
            assert(irqs_of(calls0) + Seq::<u8>::empty() =~= irqs_of(calls0));
        }
        proof {
            lemma_answered_follows(s0, *self, a);
        }
        r
    }
}

impl DelayNs for Radio {
    fn delay_ns(&mut self, ns: u32)
        ensures
            answered(*old(self), *final(self), Asked::DelayNs(ns)),
    {
        let ghost calls0 = self.calls@;
        let ghost s0 = *self;
        let ghost a = Asked::DelayNs(ns);
        let was = self.faulted;
        let slot = self.take(Ghost(a));
        let fault = match slot {
            None => true,
            Some(i) => match &self.script[i].request {
                Request::DelayNs(expected) => {
                    if *expected == ns {
                        match &self.script[i].response {
                            Response::Done => false,
                            Response::Fail(_) => false,
                            _ => true,
                        }
                    } else {
                        true
                    }
                },
                _ => true,
            },
        };
        self.conclude(fault);
        proof {
            lemma_log_push(calls0, self.calls@.last());
        }
        proof {
            lemma_answered_follows(s0, *self, a);
        }
    }
}

/// Copy `d` into the start of `buff`.
fn copy_into(buff: &mut [u8], d: &Vec<u8>)
    requires
        d@.len() <= old(buff)@.len(),
    ensures
        final(buff)@.len() == old(buff)@.len(),
        final(buff)@.take(d@.len() as int) == d@,
        final(buff)@.skip(d@.len() as int) == old(buff)@.skip(d@.len() as int),
{
    let mut i: usize = 0;
    while i < d.len()
        invariant
            0 <= i <= d@.len(),
            d@.len() <= buff@.len(),
            buff@.len() == old(buff)@.len(),
            buff@.take(i as int) == d@.take(i as int),
            forall|j: int| i <= j < buff@.len() ==> buff@[j] == old(buff)@[j],
        decreases d@.len() - i,
    {
        buff[i] = d[i];
        i = i + 1;
        assert(buff@.take(i as int) =~= d@.take(i as int));
    }
    assert(d@.take(d@.len() as int) =~= d@);
    assert(buff@.skip(d@.len() as int) =~= old(buff)@.skip(d@.len() as int));
}


impl Radio {
    /// Set further expectations, once the earlier ones are all consumed.
    pub fn expect(&mut self, expectations: &[Transaction])
        requires
            old(self).wf(),
            old(self).pending().len() == 0,
        ensures
            final(self).wf(),
            final(self).pending() == expectations@.map_values(|t: Transaction| t@),
            final(self).given() == old(self).given() + final(self).pending(),
            final(self).taken() == old(self).taken(),
            final(self).calls() == old(self).calls(),
            final(self).faulted() == old(self).faulted(),
    {
        let script = duplicate_all(expectations);
        let idx = indices(script.len());
        queue_update(&mut self.queue, &idx);
        self.script = script;
        self.remaining = idx.len();
        self.finished = false;
        let ghost added = expectations@.map_values(|t: Transaction| t@);
        proof {
            assert(self.pending() =~= added);
            assert(self.taken@ + self.pending() =~= self.given@ + added);
        }
        self.given = Ghost(self.given@ + added);
    }

    /// Take the next expectation off the queue without answering a call.
    pub fn next(&mut self) -> (r: Option<Transaction>)
        requires
            old(self).wf(),
        ensures
            final(self).wf(),
            old(self).pending().len() == 0 ==> r is None && final(self).pending() == old(
                self,
            ).pending() && final(self).taken() == old(self).taken(),
            old(self).pending().len() > 0 ==> r is Some && r->Some_0@ == old(self).pending()[0]
                && final(self).pending() == old(self).pending().drop_first() && final(self).taken()
                == old(self).taken().push(old(self).pending()[0]),
            final(self).given() == old(self).given(),
            final(self).calls() == old(self).calls(),
            final(self).faulted() == old(self).faulted(),
    {
        let ghost pending0 = self.pending();
        let ghost queued0 = queued(self.queue);
        match queue_next(&mut self.queue) {
            None => None,
            Some(i) => {
                self.remaining = self.remaining - 1;
                self.taken = Ghost(self.taken@.push(pending0[0]));
                proof {
                    assert(queued0[0] < self.script@.len());
                    assert(self.pending() =~= pending0.drop_first());
                    assert(self.taken@ + self.pending() =~= self.given@);
                }
                Some(self.script[i].duplicate())
            },
        }
    }

    /// Check at the end of a test that every expectation was consumed and no call
    /// failed other than with a canned device error. The expectations left, if any, are
    /// discarded, so the mock can be dropped afterwards.
    pub fn done(&mut self) -> (r: Result<(), MockFault>)
        requires
            old(self).wf(),
        ensures
            final(self).wf(),
            final(self).pending().len() == 0,
            final(self).taken() == old(self).taken() + old(self).pending(),
            final(self).given() == old(self).given(),
            final(self).calls() == old(self).calls(),
            final(self).faulted() == old(self).faulted(),
            r == (if old(self).faulted() {
                Err(MockFault::Mismatch)
            } else if old(self).pending().len() > 0 {
                Err(MockFault::Unconsumed)
            } else {
                Ok(())
            }),
    {
        let r = if self.faulted {
            Err(MockFault::Mismatch)
        } else if self.remaining > 0 {
            Err(MockFault::Unconsumed)
        } else {
            Ok(())
        };
        let ghost taken0 = self.taken@;
        let ghost pending0 = self.pending();
        while self.remaining > 0
            invariant
                self.wf(),
                self.taken@ + self.pending() == taken0 + pending0,
                self.taken@.len() >= taken0.len(),
                self.calls@ == old(self).calls@,
                self.given@ == old(self).given@,
                self.faulted == old(self).faulted,
            decreases self.remaining,
        {
            let _ = self.next();
        }
        proof {
            assert(self.taken@ =~= self.taken@ + self.pending());
        }
        if !self.finished {
            queue_done(&mut self.queue);
            self.finished = true;
        }
        r
    }
}

/// The mock consumes its expectations strictly in order: those consumed so far, then
/// those still waiting, are exactly all that were set (each call takes the first waiting
/// one, as its contract states). A recorded call that took an expectation whose request
/// differs from the call failed with `Mismatch` there and then, and every call after a
/// failed one (other than a canned device error) failed with `Mismatch` too.
pub proof fn lemma_mock_fifo(m: Radio)
    requires
        m.wf(),
    ensures
        m.taken() + m.pending() == m.given(),
        forall|i: int|
            0 <= i < m.calls().len() && !(#[trigger] m.calls()[i]).after_fault
                && m.calls()[i].expected is Some && !expects(
                m.calls()[i].expected->Some_0.request,
                m.calls()[i].asked,
            ) ==> reply_of(m.calls()[i]) == Reply::<MockState, BasicInfo, MockFault>::Failed(
                MockFault::Mismatch,
            ),
        forall|i: int, j: int|
            0 <= i < j < m.calls().len() && is_fault(reply_of(#[trigger] m.calls()[i])) ==> reply_of(
                #[trigger] m.calls()[j],
            ) == Reply::<MockState, BasicInfo, MockFault>::Failed(MockFault::Mismatch),
{
}

/// Bytes round-trip through the mock unchanged: a transmit call succeeds (or gets its
/// canned device error) only where its bytes equal, byte for byte, those of the
/// expectation it took; and a fetch hands back exactly the bytes and information of its
/// expectation's canned packet.
pub proof fn lemma_mock_bytes(c: MockCall)
    ensures
        (c.asked is StartTransmit && !is_fault(reply_of(c))) ==> c.expected is Some
            && c.expected->Some_0.request == c.asked,
        reply_of(c) is Received ==> c.expected is Some && c.expected->Some_0.response
            == Canned::Received(reply_of(c)->Received_0, reply_of(c)->Received_1),
{
}

/// The recorded call of a request that took expectation `t` with no earlier failure.
pub open spec fn matched_call(a: Asked, t: Expected) -> MockCall {
    MockCall { asked: a, expected: Some(t), after_fault: false }
}

/// Where the first `n` requests are, in order, the requests of the first `n` waiting
/// expectations and none of them fails, a mock that has not stopped answers each from
/// its expectation and moves on.
pub proof fn lemma_replay_match(g: Seq<Expected>, asks: Seq<Asked>, n: nat)
    requires
        n <= asks.len(),
        n <= g.len(),
        forall|j: int|
            0 <= j < n ==> expects(g[j].request, #[trigger] asks[j]) && !is_fault(
                answer(g[j], asks[j]),
            ),
    ensures
        replay(g, false, asks.take(n as int)) == (Replayed {
            calls: Seq::new(n, |j: int| matched_call(asks[j], g[j])),
            pending: g.skip(n as int),
            faulted: false,
        }),
        forall|j: int|
            0 <= j < n ==> #[trigger] replay(g, false, asks).calls[j] == matched_call(asks[j], g[j]),
    decreases n,
{
    if n > 0 {
        let m = (n - 1) as nat;
        lemma_replay_match(g, asks, m);
        assert(asks.take(n as int).drop_last() =~= asks.take(m as int));
        assert(asks.take(n as int).last() == asks[m as int]);
        assert(g.skip(m as int)[0] == g[m as int]);
        assert(g.skip(m as int).drop_first() =~= g.skip(n as int));
        let prev = replay(g, false, asks.take(m as int));
        assert(prev.calls.push(matched_call(asks[m as int], g[m as int])) =~= Seq::new(
            n,
            |j: int| matched_call(asks[j], g[j]),
        ));
    } else {
        assert(asks.take(0) =~= Seq::<Asked>::empty());
        assert(g.skip(0) =~= g);
        assert(Seq::new(0, |j: int| matched_call(asks[j], g[j])) =~= Seq::<MockCall>::empty());
    }
    lemma_replay_append(g, false, asks.take(n as int), asks.skip(n as int));
    assert(asks.take(n as int) + asks.skip(n as int) =~= asks);
}

pub open spec fn start_transmit_expected(data: Seq<u8>) -> Expected {
    Expected { request: Asked::StartTransmit(data), response: Canned::Done }
}

pub open spec fn check_transmit_expected(b: bool) -> Expected {
    Expected { request: Asked::CheckTransmit, response: Canned::Bool(b) }
}

pub open spec fn delay_expected(ns: u32) -> Expected {
    Expected { request: Asked::DelayNs(ns), response: Canned::Done }
}

/// The expectations of a transmit of `data` that stays unfinished for `k` checks, each
/// followed by a wait of `p` nanoseconds, and whose next check answers `last`.
pub open spec fn transmit_script(data: Seq<u8>, k: nat, p: u32, last: bool) -> Seq<Expected> {
    Seq::new(
        2 + 2 * k,
        |j: int|
            if j == 0 {
                start_transmit_expected(data)
            } else if j == 1 + 2 * k {
                check_transmit_expected(last)
            } else if j % 2 == 1 {
                check_transmit_expected(false)
            } else {
                delay_expected(p)
            },
    )
}

proof fn lemma_mul_le(a: nat, b: nat, p: int)
    requires
        a <= b,
        0 <= p,
    ensures
        a * p <= b * p,
{
    assert(a * p <= b * p) by (nonlinear_arith)
        requires
            a <= b,
            0 <= p,
    ;
}

/// A blocking transmit run on a mock that expects exactly a transmit of `data` left
/// unfinished for `k` checks (with waits of one poll interval) and then answered `last`:
/// where `k` intervals fit the timeout, it succeeds if `last` holds, and otherwise times
/// out exactly when one more interval would not fit; either way every expectation is
/// consumed and no call failed.
pub proof fn lemma_mock_transmit(
    m0: Radio,
    m1: Radio,
    data: Seq<u8>,
    o: BlockingOptions,
    r: Result<(), BlockingError<MockFault>>,
    k: nat,
    last: bool,
)
    requires
        m0.pending() == transmit_script(data, k, o.poll_interval, last),
        !m0.faulted(),
        m1.follows(m0),
        poll_run(
            m1.log(),
            m0.log().len() as int,
            Op::StartTransmit(data),
            Op::CheckTransmit,
            Goal::Flag,
            o,
            r,
        ),
        k * o.poll_interval <= o.timeout,
        !last ==> (k + 1) * o.poll_interval > o.timeout,
    ensures
        r == (if last {
            Ok::<(), BlockingError<MockFault>>(())
        } else {
            Err(BlockingError::Timeout)
        }),
        m1.pending().len() == 0,
        !m1.faulted(),
{
    let g = transmit_script(data, k, o.poll_interval, last);
    let p = o.poll_interval;
    let n0 = m0.calls().len() as int;
    let w = m1.calls().skip(n0);
    let asks = asks_of(w);
    let rr = replay(g, false, asks);
    let log = m1.log();
    lemma_replay_asks(g, false, asks);
    assert(w =~= rr.calls);
    assert(log.len() == n0 + asks.len());
    assert forall|j: int| 0 <= j < asks.len() implies #[trigger] log[n0 + j] == entry(w[j]) by {
        assert(m1.calls()[n0 + j] == w[j]);
    }
    assert(log[n0 + 0] == entry(w[0]));
    assert(asks[0] == w[0].asked);
    assert(asks[0] == Asked::StartTransmit(data));
    lemma_replay_match(g, asks, 1);
    assert(rr.calls[0] == matched_call(asks[0], g[0]));
    assert(log[n0].reply == Reply::<MockState, BasicInfo, MockFault>::Done);
    let m = rounds(log, n0);
    let q: nat = if m <= k {
        m
    } else {
        k
    };
    let n: nat = 2 + 2 * q;
    assert forall|j: int| 0 <= j < n implies expects(g[j].request, #[trigger] asks[j]) && !is_fault(
        answer(g[j], asks[j]),
    ) by {
        assert(log[n0 + j] == entry(w[j]));
        assert(asks[j] == w[j].asked);
        if j == 0 {
        } else if j % 2 == 1 {
            let i = (j - 1) / 2;
            assert(log[n0 + j] == check_at(log, n0 + 1, i));
            assert(asks[j] == Asked::CheckTransmit);
        } else {
            let i = (j - 2) / 2;
            assert(i < m);
            assert(log[n0 + j] == wait_at(log, n0 + 1, i));
            assert(asks[j] == Asked::DelayNs(p));
        }
    }
    lemma_replay_match(g, asks, n);
    let jc: int = (1 + 2 * q) as int;
    assert(log[n0 + jc] == check_at(log, n0 + 1, q as int));
    assert(log[n0 + jc] == entry(w[jc]));
    assert(rr.calls[jc] == matched_call(asks[jc], g[jc]));
    assert(asks[jc] == Asked::CheckTransmit);
    if m > k {
        assert(progress(check_at(log, n0 + 1, k as int).reply, Goal::<MockState>::Flag)
            == Progress::<MockFault>::Waiting);
        assert(!last);
        lemma_mul_le(k + 1, m, p as int);
    } else if m < k {
        assert(g[jc] == check_transmit_expected(false));
        lemma_mul_le(m + 1, k, p as int);
    } else {
        assert(n == asks.len());
        assert(asks.take(n as int) =~= asks);
        assert(g.skip(n as int) =~= Seq::<Expected>::empty());
    }
}

pub open spec fn start_receive_expected() -> Expected {
    Expected { request: Asked::StartReceive, response: Canned::Done }
}

pub open spec fn check_receive_expected(b: bool) -> Expected {
    Expected { request: Asked::CheckReceive(true), response: Canned::Bool(b) }
}

pub open spec fn get_received_expected(bytes: Seq<u8>, info: BasicInfo) -> Expected {
    Expected { request: Asked::GetReceived(0), response: Canned::Received(bytes, info) }
}

/// The expectations of a receive that finds no packet for `k` checks, each followed by a
/// wait of `p` nanoseconds, then finds one and hands back `bytes` with `info`.
pub open spec fn receive_script(k: nat, p: u32, bytes: Seq<u8>, info: BasicInfo) -> Seq<Expected> {
    Seq::new(
        3 + 2 * k,
        |j: int|
            if j == 0 {
                start_receive_expected()
            } else if j == 1 + 2 * k {
                check_receive_expected(true)
            } else if j == 2 + 2 * k {
                get_received_expected(bytes, info)
            } else if j % 2 == 1 {
                check_receive_expected(false)
            } else {
                delay_expected(p)
            },
    )
}

/// A blocking receive run on a mock that expects exactly a receive finding no packet for
/// `k` checks (with waits of one poll interval) and then the packet `bytes` with `info`:
/// where `k` intervals fit the timeout and the packet fits the buffer, it returns the
/// packet's length and info with the packet at the start of the buffer, and every
/// expectation is consumed with no call failed.
pub proof fn lemma_mock_receive(
    m0: Radio,
    m1: Radio,
    cap: nat,
    buff: Seq<u8>,
    o: BlockingOptions,
    r: Result<(usize, BasicInfo), BlockingError<MockFault>>,
    k: nat,
    bytes: Seq<u8>,
    info: BasicInfo,
)
    requires
        m0.pending() == receive_script(k, o.poll_interval, bytes, info),
        !m0.faulted(),
        m1.follows(m0),
        receive_run(m1.log(), m0.log().len() as int, cap, buff, o, r),
        k * o.poll_interval <= o.timeout,
        bytes.len() <= cap,
    ensures
        r == Ok::<(usize, BasicInfo), BlockingError<MockFault>>((bytes.len() as usize, info)),
        buff.take(bytes.len() as int) == bytes,
        m1.pending().len() == 0,
        !m1.faulted(),
{
    let g = receive_script(k, o.poll_interval, bytes, info);
    let p = o.poll_interval;
    let n0 = m0.calls().len() as int;
    let w = m1.calls().skip(n0);
    let asks = asks_of(w);
    let rr = replay(g, false, asks);
    let log = m1.log();
    lemma_replay_asks(g, false, asks);
    assert(w =~= rr.calls);
    assert(log.len() == n0 + asks.len());
    assert forall|j: int| 0 <= j < asks.len() implies #[trigger] log[n0 + j] == entry(w[j]) by {
        assert(m1.calls()[n0 + j] == w[j]);
    }
    assert(log[n0 + 0] == entry(w[0]));
    assert(asks[0] == w[0].asked);
    assert(asks[0] == Asked::StartReceive);
    lemma_replay_match(g, asks, 1);
    assert(rr.calls[0] == matched_call(asks[0], g[0]));
    assert(log[n0].reply == Reply::<MockState, BasicInfo, MockFault>::Done);
    let m = rounds(log, n0);
    let q: nat = if m <= k {
        m
    } else {
        k
    };
    let n: nat = 2 + 2 * q;
    assert forall|j: int| 0 <= j < n implies expects(g[j].request, #[trigger] asks[j]) && !is_fault(
        answer(g[j], asks[j]),
    ) by {
        assert(log[n0 + j] == entry(w[j]));
        assert(asks[j] == w[j].asked);
        if j == 0 {
        } else if j % 2 == 1 {
            let i = (j - 1) / 2;
            assert(log[n0 + j] == check_at(log, n0 + 1, i));
            assert(asks[j] == Asked::CheckReceive(true));
        } else {
            let i = (j - 2) / 2;
            assert(i < m);
            assert(log[n0 + j] == wait_at(log, n0 + 1, i));
            assert(asks[j] == Asked::DelayNs(p));
        }
    }
    lemma_replay_match(g, asks, n);
    let jc: int = (1 + 2 * q) as int;
    assert(log[n0 + jc] == check_at(log, n0 + 1, q as int));
    assert(log[n0 + jc] == entry(w[jc]));
    assert(rr.calls[jc] == matched_call(asks[jc], g[jc]));
    assert(asks[jc] == Asked::CheckReceive(true));
    if m > k {
        assert(progress(check_at(log, n0 + 1, k as int).reply, Goal::<MockState>::Flag)
            == Progress::<MockFault>::Waiting);
    } else if m < k {
        assert(g[jc] == check_receive_expected(false));
        lemma_mul_le(m + 1, k, p as int);
    } else {
        let jf: int = jc + 1;
        assert(log.len() == n0 + 3 + 2 * k);
        assert(log[n0 + jf] == entry(w[jf]));
        assert(asks[jf] == w[jf].asked);
        assert(asks[jf] == Asked::GetReceived(cap));
        assert forall|j: int| 0 <= j < n + 1 implies expects(g[j].request, #[trigger] asks[j])
            && !is_fault(answer(g[j], asks[j])) by {
            if j < n {
            } else {
                assert(j == jf);
            }
        }
        lemma_replay_match(g, asks, n + 1);
        assert(rr.calls[jf] == matched_call(asks[jf], g[jf]));
        assert(log[n0 + jf].reply == Reply::<MockState, BasicInfo, MockFault>::Received(bytes, info));
        assert(asks.take((n + 1) as int) =~= asks);
        assert(g.skip((n + 1) as int) =~= Seq::<Expected>::empty());
    }
}

/// Scenario: with a poll interval of 1 and a timeout of 100, a transmit whose check
/// answers `false` 50 times and then `true` succeeds, consuming every expectation.
pub proof fn lemma_scenario_transmit_completes(
    m0: Radio,
    m1: Radio,
    data: Seq<u8>,
    r: Result<(), BlockingError<MockFault>>,
)
    requires
        m0.pending() == transmit_script(data, 50, 1, true),
        !m0.faulted(),
        m1.follows(m0),
        poll_run(
            m1.log(),
            m0.log().len() as int,
            Op::StartTransmit(data),
            Op::CheckTransmit,
            Goal::Flag,
            BlockingOptions { poll_interval: 1, timeout: 100 },
            r,
        ),
    ensures
        r == Ok::<(), BlockingError<MockFault>>(()),
        m1.pending().len() == 0,
        !m1.faulted(),
{
    lemma_mock_transmit(m0, m1, data, BlockingOptions { poll_interval: 1, timeout: 100 }, r, 50, true);
}

/// Scenario: with a poll interval of 1 and a timeout of 100, a transmit whose check
/// always answers `false` times out at the 101st check (past 100 units), with no wait
/// after it, consuming every expectation.
pub proof fn lemma_scenario_transmit_times_out(
    m0: Radio,
    m1: Radio,
    data: Seq<u8>,
    r: Result<(), BlockingError<MockFault>>,
)
    requires
        m0.pending() == transmit_script(data, 100, 1, false),
        !m0.faulted(),
        m1.follows(m0),
        poll_run(
            m1.log(),
            m0.log().len() as int,
            Op::StartTransmit(data),
            Op::CheckTransmit,
            Goal::Flag,
            BlockingOptions { poll_interval: 1, timeout: 100 },
            r,
        ),
    ensures
        r == Err::<(), BlockingError<MockFault>>(BlockingError::Timeout),
        m1.pending().len() == 0,
        !m1.faulted(),
{
    lemma_mock_transmit(m0, m1, data, BlockingOptions { poll_interval: 1, timeout: 100 }, r, 100, false);
}

/// Scenario: a receive (default options, one check without a packet) whose fetch hands
/// back `[0xAA, 0xBB]` with an RSSI of -81 returns length 2 and that info, with those
/// bytes at the start of the buffer, consuming every expectation.
pub proof fn lemma_scenario_receive(
    m0: Radio,
    m1: Radio,
    cap: nat,
    buff: Seq<u8>,
    r: Result<(usize, BasicInfo), BlockingError<MockFault>>,
    info: BasicInfo,
)
    requires
        info.rssi_spec() == -81,
        m0.pending() == receive_script(1, 100_000, seq![0xAAu8, 0xBBu8], info),
        !m0.faulted(),
        m1.follows(m0),
        receive_run(
            m1.log(),
            m0.log().len() as int,
            cap,
            buff,
            BlockingOptions { poll_interval: 100_000, timeout: 100_000_000 },
            r,
        ),
        cap >= 2,
    ensures
        r == Ok::<(usize, BasicInfo), BlockingError<MockFault>>((2, info)),
        r->Ok_0.1.rssi_spec() == -81,
        buff.take(2) == seq![0xAAu8, 0xBBu8],
        m1.pending().len() == 0,
        !m1.faulted(),
{
    lemma_mock_receive(
        m0,
        m1,
        cap,
        buff,
        BlockingOptions { poll_interval: 100_000, timeout: 100_000_000 },
        r,
        1,
        seq![0xAAu8, 0xBBu8],
        info,
    );
}

} // verus!
