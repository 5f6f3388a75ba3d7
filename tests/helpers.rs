use radio::blocking::{BlockingError, BlockingOptions};
use radio::helpers::{append_rssi, do_ping_pong, parse_reply, PingPongOptions};
use radio::mock::{MockError, MockFault, MockRadio, Transaction};
use radio::{duration_from_str, nanos_from, BasicInfo, DurationParseError, ReceiveInfo};

fn ping_options(rounds: u32, parse_info: bool) -> PingPongOptions {
    PingPongOptions {
        rounds,
        power: None,
        delay: 5,
        parse_info,
        blocking_options: BlockingOptions {
            poll_interval: 1,
            timeout: 100,
        },
    }
}

#[test]
fn duration_text_to_nanoseconds() {
    assert_eq!(duration_from_str("100us"), Ok(100_000));
    assert_eq!(duration_from_str("100ms"), Ok(100_000_000));
    assert_eq!(duration_from_str("1s 5ms"), Ok(1_005_000_000));
    assert_eq!(duration_from_str("fast"), Err(DurationParseError::Invalid));
}

#[test]
fn duration_too_long_for_u64() {
    assert_eq!(nanos_from(Some(u64::MAX as u128)), Ok(u64::MAX));
    assert_eq!(nanos_from(Some(u64::MAX as u128 + 1)), Err(DurationParseError::TooLong));
    assert_eq!(nanos_from(None), Err(DurationParseError::Invalid));
    assert_eq!(duration_from_str("1000000years"), Err(DurationParseError::TooLong));
}

#[test]
fn append_rssi_big_endian() {
    let mut buff = [1u8, 2, 3, 0, 0, 9];
    let n = append_rssi(&mut buff, 3, -81);
    assert_eq!(n, 5);
    assert_eq!(buff, [1, 2, 3, 0xff, 0xaf, 9]);
}

#[test]
fn parse_reply_checks_index_and_info() {
    let reply = [0, 0, 1, 2, 0xff, 0xb0, 7];
    assert_eq!(parse_reply(&reply, 6, 0x0102, false), Some(None));
    assert_eq!(parse_reply(&reply, 6, 0x0102, true), Some(Some(-80)));
    assert_eq!(parse_reply(&reply, 6, 0x0103, true), None);
    assert_eq!(parse_reply(&reply, 5, 0x0102, true), None);
    assert_eq!(parse_reply(&reply, 3, 0x0102, false), None);
}

#[test]
fn ping_pong_counts_matching_replies() {
    let mut radio = MockRadio::new(&[
        Transaction::start_transmit(vec![0, 0, 0, 0], None),
        Transaction::check_transmit(Ok(true)),
        Transaction::start_receive(None),
        Transaction::check_receive(true, Ok(true)),
        Transaction::get_received(Ok((vec![0, 0, 0, 0, 0xff, 0xb0], BasicInfo::new(-70, 3)))),
        Transaction::delay_ns(5),
        Transaction::start_transmit(vec![0, 0, 0, 1], None),
        Transaction::check_transmit(Ok(true)),
        Transaction::start_receive(None),
        Transaction::check_receive(true, Ok(true)),
        Transaction::get_received(Ok((vec![0, 0, 0, 9, 0, 1], BasicInfo::new(-60, 3)))),
    ]);

    let link = do_ping_pong(&mut radio, ping_options(2, true)).unwrap();

    assert_eq!(link.sent, 2);
    assert_eq!(link.received, 1);
    assert_eq!(link.local_rssi, vec![-70]);
    assert_eq!(link.remote_rssi, vec![-80]);
    assert_eq!(radio.done(), Ok(()));
}

#[test]
fn ping_pong_skips_timed_out_round() {
    let mut radio = MockRadio::new(&[
        Transaction::set_power(7, None),
        Transaction::start_transmit(vec![0, 0, 0, 0], None),
        Transaction::check_transmit(Ok(true)),
        Transaction::start_receive(None),
        Transaction::check_receive(true, Ok(false)),
        Transaction::delay_ns(60),
        Transaction::check_receive(true, Ok(false)),
    ]);
    let options = PingPongOptions {
        power: Some(7),
        blocking_options: BlockingOptions {
            poll_interval: 60,
            timeout: 100,
        },
        ..ping_options(1, false)
    };

    let link = do_ping_pong(&mut radio, options).unwrap();

    assert_eq!(link.sent, 1);
    assert_eq!(link.received, 0);
    assert!(link.local_rssi.is_empty());
    assert_eq!(radio.done(), Ok(()));
}

#[test]
fn ping_pong_device_error_stops() {
    let mut radio = MockRadio::new(&[Transaction::start_transmit(
        vec![0, 0, 0, 0],
        Some(MockError::Timeout),
    )]);

    let res = do_ping_pong(&mut radio, ping_options(3, false));

    assert_eq!(res, Err(BlockingError::Inner(MockFault::Device(MockError::Timeout))));
    assert_eq!(radio.done(), Ok(()));
}

#[test]
fn basic_info_default_and_fields() {
    let d = BasicInfo::default();
    assert_eq!(d.rssi(), i16::MIN);
    assert_eq!(d, BasicInfo::new(i16::MIN, 0));
    let b = BasicInfo::new(-5, 9);
    assert_eq!(b.rssi(), -5);
    assert_ne!(b, BasicInfo::new(-5, 8));
}

#[test]
fn default_options() {
    let b = BlockingOptions::default();
    assert_eq!(b.poll_interval, 100_000);
    assert_eq!(b.timeout, 100_000_000);
    let a = radio::nonblocking::AsyncOptions::default();
    assert_eq!(a.power, None);
    assert_eq!(a.timeout, None);
    assert_eq!(a.poll_period, 10_000_000);
    assert!(!a.timed_wake);
}
