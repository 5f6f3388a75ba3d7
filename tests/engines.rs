use radio::blocking::{BlockingError, BlockingOptions, BlockingReceive, BlockingSetState, BlockingTransmit};
use radio::mock::{MockError, MockFault, MockRadio, MockState, Transaction};
use radio::nonblocking::{AsyncError, AsyncOptions, AsyncReceive, AsyncTransmit, Rearm, Step};
use radio::{BasicInfo, ReceiveInfo};

fn unit_options() -> BlockingOptions {
    BlockingOptions {
        poll_interval: 1,
        timeout: 100,
    }
}

#[test]
fn transmit_completes_within_timeout() {
    let mut expected = vec![Transaction::start_transmit(vec![0x10, 0x20], None)];
    for _ in 0..50 {
        expected.push(Transaction::check_transmit(Ok(false)));
        expected.push(Transaction::delay_ns(1));
    }
    expected.push(Transaction::check_transmit(Ok(true)));
    let mut radio = MockRadio::new(&expected);

    let res = radio.do_transmit(&[0x10, 0x20], unit_options());

    assert_eq!(res, Ok(()));
    assert_eq!(radio.done(), Ok(()));
}

#[test]
fn transmit_times_out_when_never_complete() {
    let mut expected = vec![Transaction::start_transmit(vec![0x10], None)];
    for _ in 0..100 {
        expected.push(Transaction::check_transmit(Ok(false)));
        expected.push(Transaction::delay_ns(1));
    }
    expected.push(Transaction::check_transmit(Ok(false)));
    let mut radio = MockRadio::new(&expected);

    let res = radio.do_transmit(&[0x10], unit_options());

    assert_eq!(res, Err(BlockingError::Timeout));
    assert_eq!(radio.done(), Ok(()));
}

#[test]
fn transmit_deadline_boundary() {
    // k = 100 unfinished checks: 100 * 1 <= 100, so the 101st check still happens
    let mut expected = vec![Transaction::start_transmit(vec![0x01], None)];
    for _ in 0..100 {
        expected.push(Transaction::check_transmit(Ok(false)));
        expected.push(Transaction::delay_ns(1));
    }
    expected.push(Transaction::check_transmit(Ok(true)));
    let mut radio = MockRadio::new(&expected);

    assert_eq!(radio.do_transmit(&[0x01], unit_options()), Ok(()));
    assert_eq!(radio.done(), Ok(()));
}

#[test]
fn transmit_default_options_poll() {
    let mut radio = MockRadio::new(&[
        Transaction::start_transmit(vec![0xaa, 0xbb], None),
        Transaction::check_transmit(Ok(false)),
        Transaction::delay_ns(100_000),
        Transaction::check_transmit(Ok(true)),
    ]);

    let res = radio.do_transmit(&[0xaa, 0xbb], BlockingOptions::default());

    assert_eq!(res, Ok(()));
    assert_eq!(radio.done(), Ok(()));
}

#[test]
fn transmit_start_error_is_inner() {
    let mut radio = MockRadio::new(&[Transaction::start_transmit(vec![0x05], Some(MockError::Timeout))]);

    let res = radio.do_transmit(&[0x05], unit_options());

    assert_eq!(res, Err(BlockingError::Inner(MockFault::Device(MockError::Timeout))));
    assert_eq!(radio.done(), Ok(()));
}

#[test]
fn transmit_check_error_is_inner() {
    let mut radio = MockRadio::new(&[
        Transaction::start_transmit(vec![0x05], None),
        Transaction::check_transmit(Err(MockError::Timeout)),
    ]);

    let res = radio.do_transmit(&[0x05], unit_options());

    assert_eq!(res, Err(BlockingError::Inner(MockFault::Device(MockError::Timeout))));
    assert_eq!(radio.done(), Ok(()));
}

#[test]
fn receive_returns_packet_and_info() {
    let data = [0xAA, 0xBB];
    let info = BasicInfo::new(-81, 0);
    let mut radio = MockRadio::new(&[
        Transaction::start_receive(None),
        Transaction::check_receive(true, Ok(true)),
        Transaction::get_received(Ok((data.to_vec(), info.clone()))),
    ]);

    let mut buff = [0u8; 128];
    let (n, i) = radio.do_receive(&mut buff, unit_options()).unwrap();

    assert_eq!(n, 2);
    assert_eq!(&buff[..n], &data);
    assert_eq!(i.rssi(), -81);
    assert_eq!(radio.done(), Ok(()));
}

#[test]
fn receive_polls_with_restart_flag() {
    let data = [0xaa, 0xbb];
    let info = BasicInfo::new(-81, 0);
    let mut radio = MockRadio::new(&[
        Transaction::start_receive(None),
        Transaction::check_receive(true, Ok(false)),
        Transaction::delay_ns(100_000),
        Transaction::check_receive(true, Ok(true)),
        Transaction::get_received(Ok((data.to_vec(), info.clone()))),
    ]);

    let mut buff = [0u8; 128];
    let (n, i) = radio.do_receive(&mut buff, BlockingOptions::default()).unwrap();

    assert_eq!(n, data.len());
    assert_eq!(&buff[..data.len()], &data);
    assert_eq!(i, info);
    assert_eq!(radio.done(), Ok(()));
}

#[test]
fn receive_times_out() {
    let options = BlockingOptions {
        poll_interval: 40,
        timeout: 100,
    };
    let mut radio = MockRadio::new(&[
        Transaction::start_receive(None),
        Transaction::check_receive(true, Ok(false)),
        Transaction::delay_ns(40),
        Transaction::check_receive(true, Ok(false)),
        Transaction::delay_ns(40),
        Transaction::check_receive(true, Ok(false)),
    ]);

    let mut buff = [0u8; 8];
    assert_eq!(radio.do_receive(&mut buff, options), Err(BlockingError::Timeout));
    assert_eq!(radio.done(), Ok(()));
}

#[test]
fn set_state_checked_waits_for_exact_state() {
    let mut radio = MockRadio::new(&[
        Transaction::set_state(MockState::Sleep, None),
        Transaction::get_state(Ok(MockState::Idle)),
        Transaction::delay_ns(1),
        Transaction::get_state(Ok(MockState::Sleep)),
    ]);

    assert_eq!(radio.set_state_checked(MockState::Sleep, unit_options()), Ok(()));
    assert_eq!(radio.done(), Ok(()));
}

#[test]
fn set_state_checked_times_out() {
    let options = BlockingOptions {
        poll_interval: 60,
        timeout: 100,
    };
    let mut radio = MockRadio::new(&[
        Transaction::set_state(MockState::Transmitting, None),
        Transaction::get_state(Ok(MockState::Idle)),
        Transaction::delay_ns(60),
        Transaction::get_state(Ok(MockState::Idle)),
    ]);

    assert_eq!(
        radio.set_state_checked(MockState::Transmitting, options),
        Err(BlockingError::Timeout)
    );
    assert_eq!(radio.done(), Ok(()));
}

#[test]
fn blocking_error_from_device_error() {
    let e: BlockingError<MockError> = MockError::Timeout.into();
    assert_eq!(e, BlockingError::Inner(MockError::Timeout));
    let a: AsyncError<MockError> = MockError::Timeout.into();
    assert_eq!(a, AsyncError::Inner(MockError::Timeout));
}

#[test]
fn async_transmit_polls_until_done() {
    let mut radio = MockRadio::new(&[
        Transaction::start_transmit(vec![0xaa, 0xbb], None),
        Transaction::check_transmit(Ok(false)),
        Transaction::check_transmit(Ok(true)),
    ]);

    let mut op = radio.async_transmit(&[0xaa, 0xbb], AsyncOptions::default()).unwrap();
    assert_eq!(op.poll(&mut radio), Step::Pending(Rearm::Now));
    assert_eq!(op.poll(&mut radio), Step::Ready(Ok(())));
    assert_eq!(radio.done(), Ok(()));
}

#[test]
fn async_transmit_sets_power_and_times_out() {
    let options = AsyncOptions {
        power: Some(5),
        timeout: Some(25),
        poll_period: 10,
        timed_wake: true,
    };
    let mut radio = MockRadio::new(&[
        Transaction::set_power(5, None),
        Transaction::start_transmit(vec![0x01], None),
        Transaction::check_transmit(Ok(false)),
        Transaction::check_transmit(Ok(false)),
        Transaction::check_transmit(Ok(false)),
    ]);

    let mut op = radio.async_transmit(&[0x01], options).unwrap();
    assert_eq!(op.poll(&mut radio), Step::Pending(Rearm::After(10)));
    assert_eq!(op.poll(&mut radio), Step::Pending(Rearm::After(10)));
    assert_eq!(op.poll(&mut radio), Step::Ready(Err(AsyncError::Timeout)));
    assert_eq!(radio.done(), Ok(()));
}

#[test]
fn async_transmit_power_error_stops_start() {
    let options = AsyncOptions {
        power: Some(20),
        ..AsyncOptions::default()
    };
    let mut radio = MockRadio::new(&[Transaction::set_power(20, Some(MockError::Timeout))]);

    assert!(matches!(
        radio.async_transmit(&[0x01], options),
        Err(MockFault::Device(MockError::Timeout))
    ));
    assert_eq!(radio.done(), Ok(()));
}

#[test]
fn async_receive_fetches_packet() {
    let data = [0xaa, 0xbb];
    let info = BasicInfo::new(-81, 0);
    let mut radio = MockRadio::new(&[
        Transaction::start_receive(None),
        Transaction::check_receive(true, Ok(false)),
        Transaction::check_receive(true, Ok(true)),
        Transaction::get_received(Ok((data.to_vec(), info.clone()))),
    ]);

    let mut buff = [0u8; 128];
    let mut op = radio.async_receive(AsyncOptions::default()).unwrap();
    assert_eq!(op.poll(&mut radio, &mut buff), Step::Pending(Rearm::Now));
    assert_eq!(op.poll(&mut radio, &mut buff), Step::Ready(Ok((2, info))));
    assert_eq!(&buff[..2], &data);
    assert_eq!(radio.done(), Ok(()));
}

#[test]
fn async_receive_device_error() {
    let mut radio = MockRadio::new(&[
        Transaction::start_receive(None),
        Transaction::check_receive(true, Err(MockError::Timeout)),
    ]);

    let mut buff = [0u8; 16];
    let mut op = radio.async_receive(AsyncOptions::default()).unwrap();
    assert_eq!(
        op.poll(&mut radio, &mut buff),
        Step::Ready(Err(AsyncError::Inner(MockFault::Device(MockError::Timeout))))
    );
    assert_eq!(radio.done(), Ok(()));
}
