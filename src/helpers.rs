//! Helpers for radio utilities: link testing by ping-pong, and echo replies.
use crate::blocking::{
    lemma_receive_error, lemma_run_error, poll_run, progress, receive_run, BlockingError,
    BlockingOptions, BlockingReceive, BlockingTransmit, Goal, Progress,
};
use crate::{
    extends, lemma_extends_chain, lemma_extends_push, Call, DelayNs, Device, Op, Power, Receive, ReceiveInfo, Reply,
    Transmit,
};
use byteorder::{ByteOrder, NetworkEndian};
use vstd::prelude::*;

verus! {

/// The four bytes of `v`, most significant first.
pub open spec fn be_u32(v: u32) -> Seq<u8> {
    seq![(v >> 24u32) as u8, (v >> 16u32) as u8, (v >> 8u32) as u8, v as u8]
}

/// The two bytes of `v`, most significant first.
pub open spec fn be_i16(v: i16) -> Seq<u8> {
    seq![((v as u16) >> 8u16) as u8, (v as u16) as u8]
}

/// The big-endian number in the first four bytes of `b`.
pub open spec fn from_be_u32(b: Seq<u8>) -> u32 {
    (b[0] * 0x100_0000 + b[1] * 0x1_0000 + b[2] * 0x100 + b[3]) as u32
}

/// The big-endian signed number in the first two bytes of `b`.
pub open spec fn from_be_i16(b: Seq<u8>) -> i16 {
    ((b[0] * 0x100 + b[1]) as u16) as i16
}

/// Relies on byteorder's `NetworkEndian::write_u32`: the bytes of `v`, most significant
/// first, over the first four bytes of `buf`.
#[verifier::external_body]
fn put_u32(buf: &mut [u8], v: u32)
    requires
        old(buf)@.len() >= 4,
    ensures
        final(buf)@ == be_u32(v) + old(buf)@.skip(4),
{
    NetworkEndian::write_u32(buf, v)
}

/// Relies on byteorder's `NetworkEndian::read_u32`: the first four bytes of `buf` as a
/// big-endian number.
#[verifier::external_body]
fn get_u32(buf: &[u8]) -> (r: u32)
    requires
        buf@.len() >= 4,
    ensures
        r == from_be_u32(buf@),
{
    NetworkEndian::read_u32(buf)
}

/// Relies on byteorder's `NetworkEndian::write_i16`: the bytes of `v`, most significant
/// first, at `at` in `buf`.
#[verifier::external_body]
fn put_i16_at(buf: &mut [u8], at: usize, v: i16)
    requires
        at + 2 <= old(buf)@.len(),
    ensures
        final(buf)@ == old(buf)@.take(at as int) + be_i16(v) + old(buf)@.skip(at + 2),
{
    NetworkEndian::write_i16(&mut buf[at..], v)
}

/// Relies on byteorder's `NetworkEndian::read_i16`: the two bytes at `at` in `buf` as a
/// big-endian signed number.
#[verifier::external_body]
fn get_i16_at(buf: &[u8], at: usize) -> (r: i16)
    requires
        at + 2 <= buf@.len(),
    ensures
        r == from_be_i16(buf@.skip(at as int)),
{
    NetworkEndian::read_i16(&buf[at..])
}

/// Append `rssi` (big-endian) to the `n`-byte message at the start of `buff`, for an echo
/// reply that reports the signal strength it was received with; returns the new length.
pub fn append_rssi(buff: &mut [u8], n: usize, rssi: i16) -> (r: usize)
    requires
        n + 2 <= old(buff)@.len(),
    ensures
        r == n + 2,
        final(buff)@ == old(buff)@.take(n as int) + be_i16(rssi) + old(buff)@.skip(n + 2),
{
    let cap = buff.len();
    put_i16_at(buff, n, rssi);
    assert(n + 2 <= cap);
    n + 2
}

/// What the reply `b` says for round `round`: none unless it starts with the round's
/// index; with `parse_info`, the remote RSSI that follows the index (none where it is
/// missing).
pub open spec fn reply_spec(b: Seq<u8>, round: u32, parse_info: bool) -> Option<Option<i16>> {
    if b.len() < 4 || from_be_u32(b) != round {
        None
    } else if !parse_info {
        Some(None)
    } else if b.len() < 6 {
        None
    } else {
        Some(Some(from_be_i16(b.skip(4))))
    }
}

/// Read the ping-pong reply in the first `n` bytes of `buff` for round `round`.
pub fn parse_reply(buff: &[u8], n: usize, round: u32, parse_info: bool) -> (r: Option<Option<i16>>)
    requires
        n <= buff@.len(),
    ensures
        r == reply_spec(buff@.take(n as int), round, parse_info),
{
    let ghost b = buff@.take(n as int);
    if n < 4 {
        return None;
    }
    let index = get_u32(buff);
    assert(from_be_u32(b) == from_be_u32(buff@));
    if index != round {
        return None;
    }
    if !parse_info {
        return Some(None);
    }
    if n < 6 {
        return None;
    }
    let remote = get_i16_at(buff, 4);
    assert(b.skip(4)[0] == buff@.skip(4)[0]);
    assert(b.skip(4)[1] == buff@.skip(4)[1]);
    Some(Some(remote))
}

/// Options of a receive run.
#[derive(Clone, PartialEq, Eq, Debug)]
pub struct ReceiveOptions {
    /// Keep receiving after the first packet
    pub continuous: bool,
    pub pcap_options: PcapOptions,
    pub blocking_options: BlockingOptions,
}

/// Where to capture received packets: a PCAP file, or a named pipe for Wireshark.
#[derive(Clone, PartialEq, Eq, Debug)]
pub struct PcapOptions {
    /// Create and write a PCAP file at this path
    pub pcap_file: Option<String>,
    /// Create and write a named pipe at this path
    pub pcap_pipe: Option<String>,
}

/// Options of a link test.
#[derive(Clone, Copy, PartialEq, Eq, Debug)]
pub struct PingPongOptions {
    /// Number of rounds to send and await
    pub rounds: u32,
    /// Output power in dBm, where it is to be set
    pub power: Option<i8>,
    /// Pause after each answered round, in nanoseconds
    pub delay: u32,
    /// Whether replies carry the remote RSSI after the index (the echo side appends it)
    pub parse_info: bool,
    pub blocking_options: BlockingOptions,
}

/// The outcome of a link test: rounds sent and answered, and the RSSI samples of the
/// answered rounds, as measured here and (where replies carry it) at the remote end.
#[derive(Clone, PartialEq, Eq, Debug)]
pub struct LinkTestInfo {
    pub sent: u32,
    pub received: u32,
    pub local_rssi: Vec<i16>,
    pub remote_rssi: Vec<i16>,
}

/// What a link-test round found: the local RSSI of a matching reply and, where replies
/// carry it, the remote RSSI; none where the reply timed out or did not match.
pub open spec fn round_done<S, I: ReceiveInfo, E>(
    l: Seq<Call<S, I, E>>,
    rcv: int,
    b: Seq<u8>,
    rr: Result<(usize, I), BlockingError<E>>,
    i: u32,
    o: PingPongOptions,
    out: Option<(i16, Option<i16>)>,
) -> bool {
    match rr {
        Ok((n, info)) => match reply_spec(b.take(n as int), i, o.parse_info) {
            Some(rem) => {
                &&& out == Some((info.rssi_spec(), rem))
                &&& l.len() == rcv + 1
                &&& l[rcv] == (Call::<S, I, E> { op: Op::DelayNs(o.delay), reply: Reply::Done })
            },
            None => out is None && l.len() == rcv,
        },
        Err(BlockingError::Timeout) => out is None && l.len() == rcv,
        Err(BlockingError::Inner(_)) => false,
    }
}

/// `l`, from `s` to its end, holds round `i` of a link test: a transmit of the round's
/// index that succeeded, a receive into the 32-byte reply buffer that did not fail on
/// the device, and, where the reply matched, the pause; `out` is what the round found.
pub open spec fn round_in<S, I: ReceiveInfo, E>(
    l: Seq<Call<S, I, E>>,
    s: int,
    i: u32,
    o: PingPongOptions,
    out: Option<(i16, Option<i16>)>,
) -> bool {
    exists|mid: int, rcv: int, b: Seq<u8>, rr: Result<(usize, I), BlockingError<E>>|
        #![trigger poll_run(l.take(mid), s, Op::<S>::StartTransmit(be_u32(i)), Op::<S>::CheckTransmit, Goal::<S>::Flag, o.blocking_options, Ok::<(), BlockingError<E>>(())), receive_run(l.take(rcv), mid, 32, b, o.blocking_options, rr)]
        {
            &&& s < mid <= rcv <= l.len()
            &&& poll_run(
                l.take(mid),
                s,
                Op::StartTransmit(be_u32(i)),
                Op::CheckTransmit,
                Goal::Flag,
                o.blocking_options,
                Ok::<(), BlockingError<E>>(()),
            )
            &&& receive_run(l.take(rcv), mid, 32, b, o.blocking_options, rr)
            &&& round_done(l, rcv, b, rr, i, o, out)
        }
}

/// Round `j` of a link test recorded in `log`, between the boundaries `ends[j]` and
/// `ends[j + 1]`.
pub open spec fn round_at<S, I: ReceiveInfo, E>(
    log: Seq<Call<S, I, E>>,
    ends: Seq<int>,
    outs: Seq<Option<(i16, Option<i16>)>>,
    j: int,
    o: PingPongOptions,
) -> bool {
    &&& ends[j] < ends[j + 1] <= log.len()
    &&& round_in(log.take(ends[j + 1]), ends[j], j as u32, o, outs[j])
}

/// `log` holds the link-test rounds that found `outs`, one after the other between the
/// boundaries `ends`.
pub open spec fn rounds_in<S, I: ReceiveInfo, E>(
    log: Seq<Call<S, I, E>>,
    ends: Seq<int>,
    outs: Seq<Option<(i16, Option<i16>)>>,
    o: PingPongOptions,
) -> bool {
    &&& ends.len() == outs.len() + 1
    &&& forall|j: int| 0 <= j < outs.len() ==> #[trigger] round_at(log, ends, outs, j, o)
}

/// How many rounds found a matching reply.
pub open spec fn answered_count(outs: Seq<Option<(i16, Option<i16>)>>) -> nat
    decreases outs.len(),
{
    if outs.len() == 0 {
        0
    } else {
        answered_count(outs.drop_last()) + if outs.last() is Some {
            1nat
        } else {
            0nat
        }
    }
}

/// No more rounds can match than were run.
pub proof fn lemma_answered_bound(outs: Seq<Option<(i16, Option<i16>)>>)
    ensures
        answered_count(outs) <= outs.len(),
    decreases outs.len(),
{
    if outs.len() > 0 {
        lemma_answered_bound(outs.drop_last());
    }
}

/// The local RSSI of each matching reply, in round order.
pub open spec fn local_samples(outs: Seq<Option<(i16, Option<i16>)>>) -> Seq<i16>
    decreases outs.len(),
{
    if outs.len() == 0 {
        Seq::empty()
    } else {
        local_samples(outs.drop_last()) + match outs.last() {
            Some((v, _)) => seq![v],
            None => Seq::empty(),
        }
    }
}

/// The remote RSSI carried by each matching reply, in round order.
pub open spec fn remote_samples(outs: Seq<Option<(i16, Option<i16>)>>) -> Seq<i16>
    decreases outs.len(),
{
    if outs.len() == 0 {
        Seq::empty()
    } else {
        remote_samples(outs.drop_last()) + match outs.last() {
            Some((_, Some(v))) => seq![v],
            _ => Seq::empty(),
        }
    }
}

/// A record of rounds stays while later calls are appended, and grows by a round that
/// follows it.
pub proof fn lemma_rounds_push<S, I: ReceiveInfo, E>(
    log: Seq<Call<S, I, E>>,
    log2: Seq<Call<S, I, E>>,
    ends: Seq<int>,
    outs: Seq<Option<(i16, Option<i16>)>>,
    o: PingPongOptions,
    out: Option<(i16, Option<i16>)>,
)
    requires
        rounds_in(log, ends, outs, o),
        ends.last() == log.len(),
        extends(log, log2),
        log.len() < log2.len(),
        round_in(log2, log.len() as int, outs.len() as u32, o, out),
    ensures
        rounds_in(log2, ends.push(log2.len() as int), outs.push(out), o),
{
    let ends2 = ends.push(log2.len() as int);
    let outs2 = outs.push(out);
    assert forall|j: int| 0 <= j < outs2.len() implies #[trigger] round_at(log2, ends2, outs2, j, o) by {
        if j < outs.len() {
            assert(round_at(log, ends, outs, j, o));
            assert(ends2[j] == ends[j] && ends2[j + 1] == ends[j + 1]);
            assert(ends[j + 1] <= log.len()) by {
                if j + 1 < ends.len() - 1 {
                    assert(round_at(log, ends, outs, j + 1, o));
                }
            }
            assert(log2.take(ends[j + 1]) =~= log.take(ends[j + 1]));
        } else {
            assert(log2.take(log2.len() as int) =~= log2);
        }
    }
}

/// Link test: set the power where asked for, then for each round send its index, await
/// the reply, and count it where it carries the same index (pausing `delay` after it); a
/// round whose reply times out or does not match is skipped.
pub fn do_ping_pong<T>(radio: &mut T, options: PingPongOptions) -> (r: Result<
    LinkTestInfo,
    BlockingError<T::Error>,
>) where T: Transmit + Receive + Power + DelayNs, <T as Device>::Info: ReceiveInfo
    requires
        old(radio).inv(),
        options.blocking_options.poll_interval > 0,
    ensures
        final(radio).inv(),
        final(radio).follows(*old(radio)),
        extends(old(radio).log(), final(radio).log()),
        options.power matches Some(pw) ==> final(radio).log().len() > old(radio).log().len()
            && final(radio).log()[old(radio).log().len() as int].op == Op::<T::State>::SetPower(pw),
        r matches Err(BlockingError::Inner(e)) ==> exists|i: int|
            old(radio).log().len() <= i < final(radio).log().len() && (#[trigger] final(radio).log()[i]).reply == Reply::<T::State, T::Info, T::Error>::Failed(e),
        r == Err::<LinkTestInfo, _>(BlockingError::<T::Error>::Timeout) ==> exists|i: int|
            old(radio).log().len() <= i < final(radio).log().len() && (#[trigger] final(radio).log()[i]).op == Op::<T::State>::CheckTransmit && progress(
                final(radio).log()[i].reply,
                Goal::Flag,
            ) == Progress::<T::Error>::Waiting,
        r matches Ok(l) ==> {
            &&& l.sent == options.rounds
            &&& exists|ends: Seq<int>, outs: Seq<Option<(i16, Option<i16>)>>|
                #![trigger rounds_in(final(radio).log(), ends, outs, options)]
                {
                    &&& outs.len() == options.rounds
                    &&& rounds_in(final(radio).log(), ends, outs, options)
                    &&& ends[0] == old(radio).log().len() + (if options.power is Some {
                        1int
                    } else {
                        0int
                    })
                    &&& ends.last() == final(radio).log().len()
                    &&& l.received == answered_count(outs)
                    &&& l.local_rssi@ == local_samples(outs)
                    &&& l.remote_rssi@ == remote_samples(outs)
                }
        },
{
    let ghost log0 = radio.log();
    proof {
        <T as Device>::lemma_follows_refl(*radio);
    }
    let mut link = LinkTestInfo {
        sent: options.rounds,
        received: 0,
        local_rssi: Vec::new(),
        remote_rssi: Vec::new(),
    };
    if let Some(p) = options.power {
        match radio.set_power(p) {
            Ok(()) => {},
            Err(e) => {
                assert(radio.log()[log0.len() as int] == radio.log().last());
                return Err(BlockingError::Inner(e));
            },
        }
        assert(radio.log()[log0.len() as int] == radio.log().last());
    }
    let ghost log_p = radio.log();
    let ghost mut ends: Seq<int> = seq![radio.log().len() as int];
    let ghost mut outs: Seq<Option<(i16, Option<i16>)>> = Seq::empty();
    let mut buff: Vec<u8> = vec![0u8; 32];
    let mut msg: Vec<u8> = vec![0u8; 4];
    let mut i: u32 = 0;
    while i < options.rounds
        invariant
            radio.inv(),
            radio.follows(*old(radio)),
            log0 == old(radio).log(),
            extends(log0, radio.log()),
            extends(log_p, radio.log()),
            options.power matches Some(pw) ==> log_p.len() == log0.len() + 1 && log_p[log0.len() as int].op
                == Op::<T::State>::SetPower(pw),
            options.power is None ==> log_p.len() == log0.len(),
            options.blocking_options.poll_interval > 0,
            i <= options.rounds,
            link.sent == options.rounds,
            outs.len() == i,
            ends[0] == log_p.len(),
            ends.last() == radio.log().len(),
            rounds_in(radio.log(), ends, outs, options),
            link.received == answered_count(outs),
            link.local_rssi@ == local_samples(outs),
            link.remote_rssi@ == remote_samples(outs),
            buff@.len() == 32,
            msg@.len() == 4,
        decreases options.rounds - i,
    {
        let ghost log_s = radio.log();
        put_u32(msg.as_mut_slice(), i);
        assert(msg@ =~= be_u32(i));
        let ghost st = *radio;
        let sent = radio.do_transmit(msg.as_slice(), options.blocking_options);
        let ghost log1 = radio.log();
        proof {
            <T as Device>::lemma_follows_trans(*old(radio), st, *radio);
            lemma_run_error(
                radio.log(),
                log_s.len() as int,
                Op::StartTransmit(msg@),
                Op::CheckTransmit,
                Goal::Flag,
                options.blocking_options,
                sent,
            );
            lemma_extends_chain(log0, log_s, log1);
            lemma_extends_chain(log_p, log_s, log1);
        }
        match sent {
            Ok(()) => {},
            Err(e) => {
                return Err(e);
            },
        }
        let ghost st1 = *radio;
        let received = radio.do_receive(buff.as_mut_slice(), options.blocking_options);
        let ghost log2 = radio.log();
        proof {
            <T as Device>::lemma_follows_trans(*old(radio), st1, *radio);
            lemma_receive_error(
                radio.log(),
                log1.len() as int,
                32,
                buff@,
                options.blocking_options,
                received,
            );
            lemma_extends_chain(log0, log1, log2);
            lemma_extends_chain(log_p, log1, log2);
            lemma_extends_chain(log_s, log1, log2);
        }
        let ghost mut out: Option<(i16, Option<i16>)> = None;
        match received {
            Ok((n, info)) => {
                match parse_reply(buff.as_slice(), n, i, options.parse_info) {
                    Some(remote) => {
                        proof {
                            lemma_answered_bound(outs);
                        }
                        link.received = link.received + 1;
                        let local = info.rssi();
                        link.local_rssi.push(local);
                        if let Some(v) = remote {
                            link.remote_rssi.push(v);
                        }
                        proof {
                            out = Some((local, remote));
                        }
                        let ghost st2 = *radio;
                        radio.delay_ns(options.delay);
                        proof {
                            <T as Device>::lemma_follows_trans(*old(radio), st2, *radio);
                            lemma_extends_push(log0, log2, radio.log().last());
                            lemma_extends_push(log_p, log2, radio.log().last());
                            lemma_extends_push(log_s, log2, radio.log().last());
                        }
                    },
                    None => {},
                }
            },
            Err(BlockingError::Timeout) => {},
            Err(e) => {
                return Err(e);
            },
        }
        proof {
            let l = radio.log();
            let rcv = log2.len() as int;
            assert(l.take(log1.len() as int) =~= log1);
            assert(l.take(rcv) =~= log2);
            assert(round_done(l, rcv, buff@, received, i, options, out));
            assert(poll_run(
                l.take(log1.len() as int),
                log_s.len() as int,
                Op::<T::State>::StartTransmit(be_u32(i)),
                Op::<T::State>::CheckTransmit,
                Goal::<T::State>::Flag,
                options.blocking_options,
                Ok::<(), BlockingError<T::Error>>(()),
            ));
            assert(receive_run(l.take(rcv), log1.len() as int, 32, buff@, options.blocking_options, received));
            assert(round_in(l, log_s.len() as int, i, options, out));
            lemma_rounds_push(log_s, l, ends, outs, options, out);
            let outs2 = outs.push(out);
            assert(outs2.drop_last() =~= outs);
            ends = ends.push(l.len() as int);
            outs = outs2;
        }
        i = i + 1;
    }
    Ok(link)
}

} // verus!
