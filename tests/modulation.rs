use radio::modulation::{Freq, Frequency};
use radio::BasicChannel;

#[test]
fn freq_from_numbers() {
    let freq = 434.mhz();
    assert_eq!(freq, 434_000.khz());
    assert_eq!(434, freq.mhz());
}

#[test]
fn freq_parts_and_units() {
    let f = Freq::from_parts(433_100, 200).unwrap();
    assert_eq!(f.hz(), 433_100_200);
    assert_eq!(f.khz(), 433_100);
    assert_eq!(f.parts(), (433_100, 200));

    let f = Freq::from_parts(2_400_100, 200).unwrap();
    assert_eq!(f.mhz(), 2_400);

    let f = Freq::from_parts(20_000_000, 200).unwrap();
    assert_eq!(f.ghz(), 20);
}

#[test]
fn freq_from_parts_rejects_large_hz() {
    assert!(Freq::from_parts(1, 1000).is_none());
    assert!(Freq::from_parts(1, 999).is_some());
}

#[test]
fn freq_from_integer_units() {
    let f = 434_100_200.hz();
    assert_eq!(f.khz(), 434_100);
    assert_eq!(f.hz(), 434_100_200);

    let f = 434_100.khz();
    assert_eq!(f.hz(), 434_100_000);

    let f = 2_450.mhz();
    assert_eq!(f.khz(), 2_450_000);

    let f = 2.ghz();
    assert_eq!(f.mhz(), 2_000);
}

#[test]
fn basic_channel_conversions() {
    let ch: BasicChannel = 11u16.into();
    assert_eq!(ch, BasicChannel(11));
    let n: u16 = ch.into();
    assert_eq!(n, 11);
}
