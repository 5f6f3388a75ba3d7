use radio::mock::{MockFault, MockRadio, MockState, Transaction};
use radio::{BasicInfo, Busy, RadioState, Channel, DelayNs, Interrupts, Power, Receive, Rssi, State, Transmit};

#[test]
fn test_radio_mock_set_state() {
    let mut radio = MockRadio::new(&[Transaction::set_state(MockState::Idle, None)]);

    radio.set_state(MockState::Idle).unwrap();

    radio.done().unwrap();
}

#[test]
#[should_panic]
fn test_radio_mock_set_incorrect_state() {
    let mut radio = MockRadio::new(&[Transaction::set_state(MockState::Idle, None)]);

    radio.set_state(MockState::Sleep).unwrap();

    radio.done().unwrap();
}

#[test]
fn test_radio_mock_get_state() {
    let mut radio = MockRadio::new(&[Transaction::get_state(Ok(MockState::Idle))]);

    let res = radio.get_state().unwrap();
    assert_eq!(res, MockState::Idle);

    radio.done().unwrap();
}

#[test]
fn test_radio_mock_set_channel() {
    let mut radio = MockRadio::new(&[Transaction::set_channel(10, None)]);

    let _res = radio.set_channel(&10).unwrap();

    radio.done().unwrap();
}

#[test]
fn test_radio_mock_set_power() {
    let mut radio = MockRadio::new(&[Transaction::set_power(10, None)]);

    let _res = radio.set_power(10).unwrap();

    radio.done().unwrap();
}

#[test]
fn test_radio_mock_start_transmit() {
    let mut radio = MockRadio::new(&[Transaction::start_transmit(vec![0xaa, 0xbb, 0xcc], None)]);

    let _res = radio.start_transmit(&[0xaa, 0xbb, 0xcc]).unwrap();

    radio.done().unwrap();
}

#[test]
fn test_radio_mock_check_transmit() {
    let mut radio = MockRadio::new(&[
        Transaction::check_transmit(Ok(false)),
        Transaction::check_transmit(Ok(true)),
    ]);

    let res = radio.check_transmit().unwrap();
    assert_eq!(false, res);

    let res = radio.check_transmit().unwrap();
    assert_eq!(true, res);

    radio.done().unwrap();
}

#[test]
fn test_radio_mock_start_receive() {
    let mut radio = MockRadio::new(&[Transaction::start_receive(None)]);

    let _res = radio.start_receive().unwrap();

    radio.done().unwrap();
}

#[test]
fn test_radio_mock_check_receive() {
    let mut radio = MockRadio::new(&[
        Transaction::check_receive(true, Ok(false)),
        Transaction::check_receive(true, Ok(true)),
    ]);

    let res = radio.check_receive(true).unwrap();
    assert_eq!(false, res);

    let res = radio.check_receive(true).unwrap();
    assert_eq!(true, res);

    radio.done().unwrap();
}

#[test]
fn test_radio_mock_get_received() {
    let mut radio = MockRadio::new(&[Transaction::get_received(Ok((
        vec![0xaa, 0xbb],
        BasicInfo::new(10, 12),
    )))]);

    let mut buff = vec![0u8; 3];

    let (n, _i) = radio.get_received(&mut buff).unwrap();

    assert_eq!(2, n);
    assert_eq!(&buff[..2], &[0xaa, 0xbb]);

    radio.done().unwrap();
}

#[test]
fn mock_mismatch_fails_at_first_wrong_call() {
    let mut radio = MockRadio::new(&[
        Transaction::start_transmit(vec![0x01], None),
        Transaction::check_transmit(Ok(true)),
    ]);

    assert_eq!(radio.check_transmit(), Err(MockFault::Mismatch));
    assert_eq!(radio.start_transmit(&[0x01]), Err(MockFault::Mismatch));
    assert_eq!(radio.done(), Err(MockFault::Mismatch));
}

#[test]
fn mock_transmit_bytes_must_match() {
    let mut radio = MockRadio::new(&[Transaction::start_transmit(vec![0xaa, 0xbb], None)]);

    assert_eq!(radio.start_transmit(&[0xaa, 0xbc]), Err(MockFault::Mismatch));
    assert_eq!(radio.done(), Err(MockFault::Mismatch));
}

#[test]
fn mock_exhausted_queue() {
    let mut radio = MockRadio::new(&[]);

    assert_eq!(radio.is_busy(), Err(MockFault::Exhausted));
    assert_eq!(radio.done(), Err(MockFault::Mismatch));
}

#[test]
fn mock_done_reports_unconsumed() {
    let mut radio = MockRadio::new(&[
        Transaction::poll_rssi(Ok(-90)),
        Transaction::is_busy(Ok(true)),
    ]);

    assert_eq!(radio.poll_rssi(), Ok(-90));
    assert_eq!(radio.done(), Err(MockFault::Unconsumed));
    assert!(radio.next().is_none());
}

#[test]
fn mock_canned_device_error_is_not_a_fault() {
    let mut radio = MockRadio::new(&[
        Transaction::get_irq(true, Err(radio::mock::MockError::Timeout)),
        Transaction::get_irq(false, Ok(0x21)),
    ]);

    assert_eq!(
        radio.get_interrupts(true),
        Err(MockFault::Device(radio::mock::MockError::Timeout))
    );
    assert_eq!(radio.get_interrupts(false), Ok(0x21));
    assert_eq!(radio.done(), Ok(()));
}

#[test]
fn mock_buffer_too_small() {
    let mut radio = MockRadio::new(&[Transaction::get_received(Ok((
        vec![1, 2, 3],
        BasicInfo::new(-50, 1),
    )))]);

    let mut buff = [0u8; 2];
    assert_eq!(radio.get_received(&mut buff), Err(MockFault::BufferTooSmall));
    assert_eq!(buff, [0, 0]);
    assert_eq!(radio.done(), Err(MockFault::Mismatch));
}

#[test]
fn mock_wrong_delay_fails_next_call() {
    let mut radio = MockRadio::new(&[
        Transaction::delay_ns(100),
        Transaction::check_transmit(Ok(true)),
    ]);

    radio.delay_ns(200);
    assert_eq!(radio.check_transmit(), Err(MockFault::Mismatch));
    assert_eq!(radio.done(), Err(MockFault::Mismatch));
}

#[test]
fn mock_next_and_expect() {
    let mut radio = MockRadio::new(&[Transaction::set_power(3, None)]);

    let t = radio.next().unwrap();
    assert_eq!(t, Transaction::set_power(3, None));
    assert!(radio.next().is_none());

    radio.expect(&[Transaction::get_state(Ok(MockState::Sleep))]);
    assert_eq!(radio.get_state(), Ok(MockState::Sleep));
    assert_eq!(radio.done(), Ok(()));
}

#[test]
fn mock_state_names() {
    assert_eq!(MockState::idle(), MockState::Idle);
    assert_eq!(MockState::sleep(), MockState::Sleep);
    assert_ne!(MockState::Receive, MockState::Receiving);
}
